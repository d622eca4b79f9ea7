//! Safe trimming of named clips.
//!
//! A trim encodes one range of the temporary PCM source into a hidden file
//! beside the clip. Only a finished file replaces the clip.
use vstd::prelude::*;

use crate::disk;
use crate::disk::{CreateError, CreateOutcome, Disk};
use crate::path;
use crate::path::FilePath;
use crate::pcm;
use crate::session;
use crate::text;

verus! {

/// Frames read from a temporary PCM clip in one trim operation.
pub const FILE_ENCODE_CHUNK_FRAMES: u64 = 8_192;

/// The first suffix that no clip cache directory uses.
pub const CACHE_SUFFIX_END: u64 = 1_000;

/// Why a clip cannot be trimmed.
#[derive(Clone, Copy, Debug, PartialEq, Eq, Structural)]
pub enum TrimError {
    /// The platform has no clip editor.
    Unsupported,
    /// The range has no audio.
    EmptyRange,
    /// The source does not hold whole frames.
    InvalidLength,
    /// The range ends behind the source.
    PastEnd {
        /// Frames in the source.
        available: u64,
        /// End of the range.
        end: u64,
    },
    /// No free temporary name was found.
    NoFreeName,
}

impl TrimError {
    /// The message for the user.
    pub open spec fn text(self) -> Seq<char> {
        match self {
            TrimError::Unsupported => "native clip editing is available on Windows only"@,
            TrimError::EmptyRange => "the clip trim range is empty"@,
            TrimError::InvalidLength => "the temporary clip source has an invalid byte length"@,
            TrimError::PastEnd { available, end } => "the clip source has "@ + text::decimal(
                available as nat,
            ) + " frames, but the trim ends at "@ + text::decimal(end as nat),
            TrimError::NoFreeName => "could not choose a temporary clip file name"@,
        }
    }

    /// Returns the message for the user.
    pub fn message(&self) -> (message: String)
        ensures
            message@ == self.text(),
    {
        match self {
            TrimError::Unsupported => String::from_str(
                "native clip editing is available on Windows only",
            ),
            TrimError::EmptyRange => String::from_str("the clip trim range is empty"),
            TrimError::InvalidLength => String::from_str(
                "the temporary clip source has an invalid byte length",
            ),
            TrimError::PastEnd { available, end } => {
                let mut message = String::from_str("the clip source has ");
                text::push_decimal(&mut message, *available);
                message.append(" frames, but the trim ends at ");
                text::push_decimal(&mut message, *end);
                message
            },
            TrimError::NoFreeName => String::from_str(
                "could not choose a temporary clip file name",
            ),
        }
    }
}

/// The work of one trim.
#[derive(Clone, Copy, Debug, PartialEq, Eq, Structural)]
pub struct TrimPlan {
    /// Position of the first byte of the range in the source.
    pub first_byte: u64,
    /// Frames in the range.
    pub frames: u64,
}

/// The first problem of a trim, in the order of the checks.
pub open spec fn trim_problem(
    sample_rate: nat,
    start: nat,
    end: nat,
    source_bytes: Option<nat>,
) -> Option<TrimError> {
    match source_bytes {
        None => Some(TrimError::Unsupported),
        Some(bytes) => if start >= end || sample_rate == 0 {
            Some(TrimError::EmptyRange)
        } else if bytes % 4 != 0 {
            Some(TrimError::InvalidLength)
        } else if end > bytes / 4 {
            Some(TrimError::PastEnd { available: (bytes / 4) as u64, end: end as u64 })
        } else {
            None
        },
    }
}

/// Checks the range of a trim, before its source is opened.
pub fn check_trim_range(sample_rate: u32, start_frame: u64, end_frame: u64) -> (result: Result<
    (),
    TrimError,
>)
    ensures
        result == (if start_frame >= end_frame || sample_rate == 0 {
            Err(TrimError::EmptyRange)
        } else {
            Ok(())
        }),
{
    if start_frame >= end_frame || sample_rate == 0 {
        return Err(TrimError::EmptyRange);
    }
    Ok(())
}

/// Plans the trim of a clip to an absolute frame range of its source.
///
/// `source_bytes` is the size of the source. A platform without a clip editor
/// has none.
pub fn trim_clip(
    sample_rate: u32,
    start_frame: u64,
    end_frame: u64,
    source_bytes: Option<u64>,
) -> (result: Result<TrimPlan, TrimError>)
    ensures
        ({
            let problem = trim_problem(
                sample_rate as nat,
                start_frame as nat,
                end_frame as nat,
                match source_bytes {
                    Some(bytes) => Some(bytes as nat),
                    None => None,
                },
            );
            &&& result is Err <==> problem is Some
            &&& result is Err ==> result->Err_0 == problem->0
        }),
        result is Ok ==> result->Ok_0.first_byte == 4 * start_frame && result->Ok_0.frames
            == end_frame - start_frame && result->Ok_0.first_byte + 4 * result->Ok_0.frames
            <= source_bytes->0,
{
    let bytes: u64 = match source_bytes {
        None => {
            return Err(TrimError::Unsupported);
        },
        Some(bytes) => bytes,
    };
    match check_trim_range(sample_rate, start_frame, end_frame) {
        Ok(()) => {},
        Err(error) => {
            return Err(error);
        },
    }
    if bytes % pcm::FRAME_BYTES != 0 {
        return Err(TrimError::InvalidLength);
    }
    let available: u64 = bytes / pcm::FRAME_BYTES;
    if end_frame > available {
        return Err(TrimError::PastEnd { available, end: end_frame });
    }
    Ok(
        TrimPlan {
            first_byte: start_frame * pcm::FRAME_BYTES,
            frames: end_frame - start_frame,
        },
    )
}

/// The sizes of the blocks that a trim encodes, in frames.
pub open spec fn trim_blocks(frames: nat) -> Seq<nat>
    decreases frames,
{
    if frames == 0 {
        Seq::empty()
    } else if frames <= FILE_ENCODE_CHUNK_FRAMES {
        seq![frames]
    } else {
        seq![FILE_ENCODE_CHUNK_FRAMES as nat] + trim_blocks(
            (frames - FILE_ENCODE_CHUNK_FRAMES) as nat,
        )
    }
}

/// The sum of block sizes.
pub open spec fn total_of(blocks: Seq<nat>) -> nat
    decreases blocks.len(),
{
    if blocks.len() == 0 {
        0
    } else {
        blocks.first() + total_of(blocks.drop_first())
    }
}

/// Returns the size of the next block of a trim, and zero at its end.
pub fn next_trim_block(remaining: u64) -> (frames: usize)
    ensures
        remaining == 0 ==> frames == 0,
        remaining > 0 ==> frames == trim_blocks(remaining as nat).first(),
        remaining > 0 ==> trim_blocks(remaining as nat).drop_first() == trim_blocks(
            (remaining - frames) as nat,
        ),
{
    proof {
        if remaining > FILE_ENCODE_CHUNK_FRAMES {
            let rest = trim_blocks((remaining - FILE_ENCODE_CHUNK_FRAMES) as nat);
            assert((seq![FILE_ENCODE_CHUNK_FRAMES as nat] + rest).drop_first() =~= rest);
        } else if remaining > 0 {
            assert(seq![remaining as nat].drop_first() =~= Seq::<nat>::empty());
        }
    }
    if remaining < FILE_ENCODE_CHUNK_FRAMES {
        remaining as usize
    } else {
        FILE_ENCODE_CHUNK_FRAMES as usize
    }
}

/// The blocks of a trim hold exactly the frames of its range.
pub proof fn law_trim_blocks_hold_the_range(frames: nat)
    ensures
        total_of(trim_blocks(frames)) == frames,
        forall|i: int|
            0 <= i < trim_blocks(frames).len() ==> 0 < #[trigger] trim_blocks(frames)[i]
                <= FILE_ENCODE_CHUNK_FRAMES,
    decreases frames,
{
    reveal_with_fuel(total_of, 2);
    if frames > FILE_ENCODE_CHUNK_FRAMES {
        let rest = trim_blocks((frames - FILE_ENCODE_CHUNK_FRAMES) as nat);
        law_trim_blocks_hold_the_range((frames - FILE_ENCODE_CHUNK_FRAMES) as nat);
        assert(trim_blocks(frames).drop_first() =~= rest);
        assert forall|i: int| 0 <= i < trim_blocks(frames).len() implies 0 < #[trigger] trim_blocks(
            frames,
        )[i] <= FILE_ENCODE_CHUNK_FRAMES by {
            if i > 0 {
                assert(trim_blocks(frames)[i] == rest[i - 1]);
            }
        }
    } else if frames > 0 {
        assert(seq![frames].drop_first() =~= Seq::<nat>::empty());
    }
}

/// The name of the hidden file of a trim.
pub open spec fn temporary_name(clip: Seq<char>, process: nat, suffix: nat) -> Seq<char> {
    let stem = path::stem_of(clip);
    "."@ + (if stem.len() == 0 {
        "clip"@
    } else {
        stem
    }) + ".record-trim-"@ + text::decimal(process) + "-"@ + text::decimal(suffix) + ".mp3"@
}

/// The place of the hidden file of a trim: beside the clip.
pub open spec fn temporary_place(clip: path::PathView, process: nat, suffix: nat) -> path::PathView {
    path::PathView { name: temporary_name(clip.name, process, suffix), ..clip }
}

/// Whether every earlier place of a trim is in use.
pub open spec fn earlier_trims_taken<F: Fn(&FilePath) -> bool>(
    in_use: F,
    clip: path::PathView,
    process: nat,
    suffix: nat,
) -> bool {
    forall|earlier: nat|
        1 <= earlier < suffix ==> disk::answered(
            in_use,
            #[trigger] temporary_place(clip, process, earlier),
            true,
        )
}

/// Whether this is the first free place of a trim.
pub open spec fn is_first_free_trim<F: Fn(&FilePath) -> bool>(
    in_use: F,
    clip: path::PathView,
    process: nat,
    chosen: path::PathView,
) -> bool {
    &&& disk::answered(in_use, chosen, false)
    &&& exists|suffix: nat|
        1 <= suffix < session::SUFFIX_END && chosen == temporary_place(clip, process, suffix)
            && #[trigger] earlier_trims_taken(in_use, clip, process, suffix)
}

/// Selects an unused hidden MP3 path beside the clip.
pub fn trim_temporary_path<F: Fn(&FilePath) -> bool>(clip: &FilePath, process: u32, in_use: F) -> (
    result: Result<FilePath, TrimError>)
    requires
        forall|candidate: &FilePath| call_requires(in_use, (candidate,)),
    ensures
        match result {
            Ok(chosen) => is_first_free_trim(in_use, clip@, process as nat, chosen@),
            Err(error) => error == TrimError::NoFreeName && earlier_trims_taken(
                in_use,
                clip@,
                process as nat,
                session::SUFFIX_END as nat,
            ),
        },
{
    let stem = clip.stem();
    let mut suffix: u64 = 1;
    while suffix < session::SUFFIX_END
        invariant
            1 <= suffix <= session::SUFFIX_END,
            stem@ == path::stem_of(clip@.name),
            forall|candidate: &FilePath| call_requires(in_use, (candidate,)),
            earlier_trims_taken(in_use, clip@, process as nat, suffix as nat),
        decreases session::SUFFIX_END - suffix,
    {
        let mut name = String::from_str(".");
        if stem.as_str().unicode_len() == 0 {
            name.append("clip");
        } else {
            name.append(stem.as_str());
        }
        name.append(".record-trim-");
        text::push_decimal(&mut name, process as u64);
        name.append("-");
        text::push_decimal(&mut name, suffix);
        name.append(".mp3");
        let candidate = FilePath {
            folder: clip.folder.clone(),
            name,
            separator: clip.separator,
        };
        let used = in_use(&candidate);
        proof {
            assert(candidate@ == temporary_place(clip@, process as nat, suffix as nat));
            assert(disk::answered(in_use, candidate@, used));
            if !used {
                assert(is_first_free_trim(in_use, clip@, process as nat, candidate@));
            }
        }
        if !used {
            return Ok(candidate);
        }
        suffix += 1;
    }
    Err(TrimError::NoFreeName)
}

/// The name of a clip cache directory.
pub open spec fn cache_directory_name(process: nat, nonce: nat, suffix: nat) -> Seq<char> {
    text::decimal(process) + "-"@ + text::decimal(nonce) + "-"@ + text::decimal(suffix)
}

/// The place of a clip cache directory.
pub open spec fn cache_place(
    parent: path::PathView,
    process: nat,
    nonce: nat,
    suffix: nat,
) -> path::PathView {
    parent.child(cache_directory_name(process, nonce, suffix))
}

/// The numbered places of clip cache directories.
pub open spec fn cache_places(parent: path::PathView, process: nat, nonce: nat) -> spec_fn(
    nat,
) -> path::PathView {
    |suffix: nat| cache_place(parent, process, nonce, suffix)
}

/// Creates a process-unique temporary directory for editable PCM parts.
///
/// The parent is created where it is missing. Then the candidates are tried in
/// order until one can be created; nothing else is created.
pub fn create_clip_cache<
    E: Fn(&FilePath) -> bool,
    M: Fn(&FilePath) -> bool,
    C: Fn(&FilePath) -> CreateOutcome,
>(parent: &FilePath, process: u32, nonce: u128, disk: &mut Disk<E, M, C>) -> (result: Result<
    FilePath,
    CreateError,
>)
    requires
        old(disk).wf(),
    ensures
        final(disk).continues(*old(disk)),
        disk::is_search(
            final(disk).since(*old(disk)),
            cache_places(parent@, process as nat, nonce as nat),
            CACHE_SUFFIX_END as nat,
            disk::located(result),
        ),
{
    let ghost places = cache_places(parent@, process as nat, nonce as nat);
    let candidate = |suffix: u64| -> (place: FilePath)
        ensures
            place@ == places(suffix as nat),
    {
        let mut name = String::new();
        text::push_decimal(&mut name, process as u64);
        name.append("-");
        text::push_wide_decimal(&mut name, nonce);
        name.append("-");
        text::push_decimal(&mut name, suffix);
        proof {
            assert(name@ =~= cache_directory_name(process as nat, nonce as nat, suffix as nat));
        }
        parent.child(name.as_str())
    };
    disk::claim_directory(disk, CACHE_SUFFIX_END, candidate, Ghost(places))
}

/// A trim is possible exactly when its range has frames, its rate is not zero,
/// and its source holds whole frames up to its end. It reads the bytes of its
/// range: four for every frame.
pub proof fn law_trims_read_their_range(
    sample_rate: u32,
    start: u64,
    end: u64,
    bytes: u64,
    result: Result<TrimPlan, TrimError>,
)
    requires
        call_ensures(trim_clip, (sample_rate, start, end, Some(bytes)), result),
    ensures
        result is Ok <==> sample_rate > 0 && start < end && bytes % 4 == 0 && 4 * end <= bytes,
        result is Ok ==> result->Ok_0.first_byte == 4 * start && result->Ok_0.first_byte + 4
            * result->Ok_0.frames == 4 * end,
        start >= end ==> result->Err_0 == TrimError::EmptyRange,
        start < end && sample_rate > 0 && bytes % 4 != 0 ==> result->Err_0
            == TrimError::InvalidLength,
{
}

/// Without an editor nothing can be trimmed, whatever the range is.
pub proof fn law_trims_need_an_editor(
    sample_rate: u32,
    start: u64,
    end: u64,
    result: Result<TrimPlan, TrimError>,
)
    requires
        call_ensures(trim_clip, (sample_rate, start, end, None::<u64>), result),
    ensures
        result == Err::<TrimPlan, TrimError>(TrimError::Unsupported),
{
}

/// A trim encodes full blocks of 8,192 frames and the rest in a last one.
pub proof fn law_trim_blocks_are_full(remaining: u64, frames: usize)
    requires
        call_ensures(next_trim_block, (remaining,), frames),
    ensures
        remaining >= 8_192 ==> frames == 8_192,
        remaining < 8_192 ==> frames == remaining,
{
}

/// The file of a trim is a hidden MP3 beside its clip that no other file uses.
pub proof fn law_trims_go_beside_the_clip<F: Fn(&FilePath) -> bool>(
    clip: FilePath,
    process: u32,
    in_use: F,
    result: Result<FilePath, TrimError>,
)
    requires
        call_ensures(trim_temporary_path::<F>, (&clip, process, in_use), result),
        result is Ok,
    ensures
        result->Ok_0.folder@ == clip.folder@,
        result->Ok_0.separator == clip.separator,
        result->Ok_0.name@[0] == '.',
        result->Ok_0.name@.skip(result->Ok_0.name@.len() - 4) == ".mp3"@,
        disk::answered(in_use, result->Ok_0@, false),
        exists|number: nat|
            1 <= number < 10_000 && #[trigger] temporary_place(clip@, process as nat, number)
                == result->Ok_0@ && forall|earlier: nat|
                1 <= earlier < number ==> disk::answered(
                    in_use,
                    #[trigger] temporary_place(clip@, process as nat, earlier),
                    true,
                ),
{
    let chosen = result->Ok_0@;
    let suffix = choose|suffix: nat|
        1 <= suffix < session::SUFFIX_END && chosen == temporary_place(clip@, process as nat, suffix)
            && #[trigger] earlier_trims_taken(in_use, clip@, process as nat, suffix);
    reveal_strlit(".");
    reveal_strlit(".mp3");
    reveal_strlit("clip");
    reveal_strlit(".record-trim-");
    reveal_strlit("-");
    let name = temporary_name(clip@.name, process as nat, suffix);
    assert(name.skip(name.len() - 4) =~= ".mp3"@);
    assert(temporary_place(clip@, process as nat, suffix) == chosen);
}

/// The hidden file of a trim tells its clip, its process, and its number, so two
/// numbers never share a file.
pub proof fn law_temporary_names_are_distinct(clip: Seq<char>, process: nat, left: nat, right: nat)
    requires
        left != right,
    ensures
        temporary_name(clip, process, left) != temporary_name(clip, process, right),
        path::stem_of(clip).len() > 0 ==> temporary_name(clip, process, left) == "."@
            + path::stem_of(clip) + ".record-trim-"@ + text::decimal(process) + "-"@
            + text::decimal(left) + ".mp3"@,
{
    if temporary_name(clip, process, left) == temporary_name(clip, process, right) {
        let stem = path::stem_of(clip);
        let front = "."@ + (if stem.len() == 0 {
            "clip"@
        } else {
            stem
        }) + ".record-trim-"@ + text::decimal(process) + "-"@;
        text::lemma_middle_piece(front, text::decimal(left), text::decimal(right), ".mp3"@);
        text::lemma_decimal_spells(left);
        text::lemma_decimal_spells(right);
    }
}

/// The directories of a cache differ by their number, by the moment of their
/// start, and by their process. A search tries no more than 999 of them.
pub proof fn law_cache_directories_are_distinct(
    parent: path::PathView,
    process: nat,
    nonce: nat,
    left: nat,
    right: nat,
    steps: Seq<disk::DiskStep>,
    result: Result<path::PathView, CreateError>,
)
    requires
        disk::is_search(steps, cache_places(parent, process, nonce), CACHE_SUFFIX_END as nat, result),
    ensures
        left != right ==> cache_places(parent, process, nonce)(left) != cache_places(
            parent,
            process,
            nonce,
        )(right),
        cache_places(parent, process, nonce)(left) == parent.child(
            text::decimal(process) + "-"@ + text::decimal(nonce) + "-"@ + text::decimal(left),
        ),
        steps.len() <= 1_000,
{
    if left != right {
        let front = text::decimal(process) + "-"@ + text::decimal(nonce) + "-"@;
        let none = Seq::<char>::empty();
        let one = cache_directory_name(process, nonce, left);
        let other = cache_directory_name(process, nonce, right);
        if one == other {
            assert(front + text::decimal(left) + none =~= one);
            assert(front + text::decimal(right) + none =~= other);
            text::lemma_middle_piece(front, text::decimal(left), text::decimal(right), none);
            text::lemma_decimal_spells(left);
            text::lemma_decimal_spells(right);
        }
        assert(cache_place(parent, process, nonce, left).name == one);
        assert(cache_place(parent, process, nonce, right).name == other);
    }
}

/// Every reason against a trim has its own message.
pub proof fn law_trim_problems_are_told(error: TrimError, message: String)
    requires
        call_ensures(TrimError::message, (&error,), message),
    ensures
        error is Unsupported ==> message@ == "native clip editing is available on Windows only"@,
        error is EmptyRange ==> message@ == "the clip trim range is empty"@,
        error is InvalidLength ==> message@
            == "the temporary clip source has an invalid byte length"@,
        error is NoFreeName ==> message@ == "could not choose a temporary clip file name"@,
        error matches TrimError::PastEnd { available, end } ==> message@ == "the clip source has "@
            + text::decimal(available as nat) + " frames, but the trim ends at "@ + text::decimal(
            end as nat,
        ),
{
}

/// The check of a range agrees with the plan of the trim.
pub proof fn law_checked_ranges_can_be_trimmed(
    sample_rate: u32,
    start: u64,
    end: u64,
    result: Result<(), TrimError>,
)
    requires
        call_ensures(check_trim_range, (sample_rate, start, end), result),
    ensures
        result is Ok <==> start < end && sample_rate > 0,
        result is Err ==> result->Err_0 == TrimError::EmptyRange,
{
}

} // verus!
