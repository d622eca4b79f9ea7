//! Output naming and session-boundary rules.
//!
//! A default recording uses one directory. The recorder writes numbered MP3
//! parts into that directory. This module decides every name and the exact
//! length of a part. Where a rule depends on what is already on disk, the
//! caller passes the question as a function, and where a rule creates something,
//! the caller hands over a [`Disk`].
use vstd::prelude::*;

use crate::disk;
use crate::disk::{CreateError, CreateOutcome, Disk};
use crate::path;
use crate::path::FilePath;
use crate::text;
use crate::time::Duration;

verus! {

/// The default length of one MP3 part in seconds.
pub const DEFAULT_SEGMENT_SECONDS: u64 = 10 * 60;

/// The maximum number of Unicode characters in a clip file stem.
pub const MAX_CLIP_STEM_CHARS: usize = 80;

/// The first suffix that no automatic name uses.
pub const SUFFIX_END: u64 = 10_000;

/// Returns the default length of one MP3 part.
pub fn default_segment_duration() -> (duration: Duration)
    ensures
        duration@ == 600_000_000_000,
{
    Duration::from_secs(DEFAULT_SEGMENT_SECONDS)
}

/// Selects the files that one recorder process can create.
#[derive(Debug)]
pub enum OutputTarget {
    /// Write one MP3 file.
    SingleFile {
        /// Destination of the MP3 file.
        path: FilePath,
        /// Replace the file when it already exists.
        replace: bool,
    },
    /// Write numbered MP3 parts into one directory.
    Session {
        /// Directory that contains every file from this process.
        directory: FilePath,
        /// Maximum encoded duration of each automatic part.
        segment_duration: Duration,
    },
}

impl Clone for OutputTarget {
    fn clone(&self) -> (copy: OutputTarget)
        ensures
            copy == *self,
    {
        match self {
            OutputTarget::SingleFile { path, replace } => OutputTarget::SingleFile {
                path: path.clone(),
                replace: *replace,
            },
            OutputTarget::Session { directory, segment_duration } => OutputTarget::Session {
                directory: directory.clone(),
                segment_duration: *segment_duration,
            },
        }
    }
}

impl OutputTarget {
    /// The file or directory shown to the user.
    pub open spec fn place(self) -> path::PathView {
        match self {
            OutputTarget::SingleFile { path, .. } => path@,
            OutputTarget::Session { directory, .. } => directory@,
        }
    }

    /// Returns the file or directory shown to the user.
    pub fn root(&self) -> (root: &FilePath)
        ensures
            root@ == self.place(),
    {
        match self {
            OutputTarget::SingleFile { path, .. } => path,
            OutputTarget::Session { directory, .. } => directory,
        }
    }

    /// Reports whether the target supports rotation and named clips.
    pub fn is_session(&self) -> (session: bool)
        ensures
            session == (*self is Session),
    {
        match self {
            OutputTarget::SingleFile { .. } => false,
            OutputTarget::Session { .. } => true,
        }
    }
}

/// Says why a name is not acceptable.
#[derive(Clone, Copy, Debug, PartialEq, Eq, Structural)]
pub enum NameProblem {
    /// The output file cannot have the extension `.mp3`: it has another one, or
    /// the location names no file.
    OtherExtension,
    /// Nothing is left of the name.
    Empty,
    /// The name is `.` or `..`.
    DotPath,
    /// The name ends with a space or a dot.
    BadEnd,
    /// The name has more than [`MAX_CLIP_STEM_CHARS`] characters.
    TooLong,
    /// The name contains a character that Windows does not allow.
    ForbiddenCharacter,
    /// The name identifies a Windows device.
    Device,
    /// Every numbered form of the name is in use.
    NoFreeName,
}

/// Describes an invalid output or clip name.
#[derive(Clone, Copy, Debug, PartialEq, Eq, Structural)]
pub struct NameError {
    /// Reason for the rejection.
    pub problem: NameProblem,
}

/// The sentence shown to the user for a problem.
pub open spec fn problem_text(problem: NameProblem) -> Seq<char> {
    match problem {
        NameProblem::OtherExtension => "the output file must use the .mp3 extension"@,
        NameProblem::Empty => "enter a file name"@,
        NameProblem::DotPath => "the file name cannot be a dot path"@,
        NameProblem::BadEnd => "the file name cannot end with a space or dot"@,
        NameProblem::TooLong => "the file name is too long"@,
        NameProblem::ForbiddenCharacter =>
            "the file name contains a character that Windows does not allow"@,
        NameProblem::Device => "the file name is reserved by Windows"@,
        NameProblem::NoFreeName => "could not choose a unique clip file name"@,
    }
}

impl NameError {
    /// Creates an error from its reason.
    pub fn new(problem: NameProblem) -> (error: NameError)
        ensures
            error.problem == problem,
    {
        NameError { problem }
    }

    /// Returns the sentence shown to the user.
    pub fn message(&self) -> (message: &'static str)
        ensures
            message@ == problem_text(self.problem),
    {
        match self.problem {
            NameProblem::OtherExtension => "the output file must use the .mp3 extension",
            NameProblem::Empty => "enter a file name",
            NameProblem::DotPath => "the file name cannot be a dot path",
            NameProblem::BadEnd => "the file name cannot end with a space or dot",
            NameProblem::TooLong => "the file name is too long",
            NameProblem::ForbiddenCharacter =>
                "the file name contains a character that Windows does not allow",
            NameProblem::Device => "the file name is reserved by Windows",
            NameProblem::NoFreeName => "could not choose a unique clip file name",
        }
    }
}

/// The destination for a requested output location.
///
/// A name without an extension gets `.mp3`. Another extension is not accepted,
/// and neither is a location that names no file.
pub open spec fn mp3_destination(requested: path::PathView) -> Result<
    path::PathView,
    NameProblem,
> {
    match path::extension_of(requested.name) {
        None => if path::names_file(requested.name) {
            Ok(path::PathView { name: requested.name + ".mp3"@, ..requested })
        } else {
            Err(NameProblem::OtherExtension)
        },
        Some(extension) => if text::same_ignoring_case(extension, "mp3"@) {
            Ok(requested)
        } else {
            Err(NameProblem::OtherExtension)
        },
    }
}

/// Adds an MP3 extension or rejects a different extension.
pub fn mp3_output_path(requested: &FilePath) -> (result: Result<FilePath, NameError>)
    ensures
        match (result, mp3_destination(requested@)) {
            (Ok(output), Ok(expected)) => output@ == expected,
            (Err(error), Err(problem)) => error.problem == problem,
            _ => false,
        },
{
    match requested.extension() {
        None => {
            if !requested.names_file() {
                return Err(NameError::new(NameProblem::OtherExtension));
            }
            let mut output = requested.clone();
            output.name.append(".mp3");
            Ok(output)
        },
        Some(extension) => {
            let letters = text::characters(extension.as_str());
            if text::spells_ignoring_case(&letters, "mp3") {
                Ok(requested.clone())
            } else {
                Err(NameError::new(NameProblem::OtherExtension))
            }
        },
    }
}

/// The name of the numbered session directory for a timestamp.
pub open spec fn session_name(timestamp: Seq<char>, suffix: nat) -> Seq<char> {
    if suffix == 1 {
        "recording-"@ + timestamp
    } else {
        "recording-"@ + timestamp + "-"@ + text::decimal(suffix)
    }
}

/// Returns the name of the numbered session directory for a timestamp.
fn session_candidate(timestamp: &str, suffix: u64) -> (name: String)
    ensures
        name@ == session_name(timestamp@, suffix as nat),
{
    let mut name = String::from_str("recording-");
    name.append(timestamp);
    if suffix != 1 {
        name.append("-");
        text::push_decimal(&mut name, suffix);
    }
    name
}

/// The numbered session directories for a timestamp.
pub open spec fn session_places(parent: path::PathView, timestamp: Seq<char>) -> spec_fn(
    nat,
) -> path::PathView {
    |suffix: nat| parent.child(session_name(timestamp, suffix))
}

/// Creates a unique `recording-TIMESTAMP` directory below `parent`.
///
/// The parent is created where it is missing. Then the candidates are tried in
/// order until one can be created; nothing else is created. An attempt claims a
/// directory atomically, so a concurrent process cannot claim the same
/// directory between a check and its creation.
pub fn create_session_directory<
    E: Fn(&FilePath) -> bool,
    M: Fn(&FilePath) -> bool,
    C: Fn(&FilePath) -> CreateOutcome,
>(parent: &FilePath, timestamp: &str, disk: &mut Disk<E, M, C>) -> (result: Result<
    FilePath,
    CreateError,
>)
    requires
        old(disk).wf(),
    ensures
        final(disk).continues(*old(disk)),
        disk::is_search(
            final(disk).since(*old(disk)),
            session_places(parent@, timestamp@),
            SUFFIX_END as nat,
            disk::located(result),
        ),
{
    let ghost places = session_places(parent@, timestamp@);
    let candidate = |suffix: u64| -> (place: FilePath)
        ensures
            place@ == places(suffix as nat),
    {
        parent.child(session_candidate(timestamp, suffix).as_str())
    };
    disk::claim_directory(disk, SUFFIX_END, candidate, Ghost(places))
}

/// The file name of a one-based numbered session part.
pub open spec fn part_name(index: nat) -> Seq<char> {
    "part-"@ + text::padded(index, 3) + ".mp3"@
}

/// Returns the path for a one-based numbered session part.
pub fn part_path(directory: &FilePath, index: u32) -> (path: FilePath)
    ensures
        path@ == directory@.child(part_name(index as nat)),
{
    let mut name = String::from_str("part-");
    text::push_padded(&mut name, index as u64, 3);
    name.append(".mp3");
    directory.child(name.as_str())
}

/// A clip name without white space at its ends and without a final `.mp3`.
pub open spec fn without_mp3(name: Seq<char>) -> Seq<char> {
    match text::last_position(name, '.') {
        Some(dot) => if text::same_ignoring_case(name.skip(dot as int + 1), "mp3"@) {
            name.take(dot as int)
        } else {
            name
        },
        None => name,
    }
}

/// Characters that Windows does not allow in a file name.
pub open spec fn is_forbidden(character: char) -> bool {
    ||| text::is_control(character)
    ||| character == '\\'
    ||| character == '/'
    ||| character == ':'
    ||| character == '*'
    ||| character == '?'
    ||| character == '"'
    ||| character == '<'
    ||| character == '>'
    ||| character == '|'
}

/// The part of a stem that Windows compares with its device names.
pub open spec fn device_part(stem: Seq<char>) -> Seq<char> {
    match text::first_position(stem, '.') {
        Some(dot) => text::upper(stem.take(dot as int)),
        None => text::upper(stem),
    }
}

/// Whether a capital name identifies a Windows device.
pub open spec fn is_device(name: Seq<char>) -> bool {
    ||| name == "CON"@
    ||| name == "PRN"@
    ||| name == "AUX"@
    ||| name == "NUL"@
    ||| name == "CONIN$"@
    ||| name == "CONOUT$"@
    ||| name == "CLOCK$"@
    ||| is_numbered_device(name)
}

/// Whether a capital name is `COM` or `LPT` with a digit from one to nine.
pub open spec fn is_numbered_device(name: Seq<char>) -> bool {
    &&& name.len() == 4
    &&& name.take(3) == "COM"@ || name.take(3) == "LPT"@
    &&& '1' <= name[3] <= '9'
}

/// Whether some character of a stem is forbidden.
pub open spec fn has_forbidden(stem: Seq<char>) -> bool {
    exists|i: int| 0 <= i < stem.len() && is_forbidden(#[trigger] stem[i])
}

/// The file stem for a requested clip name, or the first rule that it breaks.
pub open spec fn clip_stem_of(requested: Seq<char>) -> Result<Seq<char>, NameProblem> {
    let stem = without_mp3(text::trim(requested));
    if stem.len() == 0 {
        Err(NameProblem::Empty)
    } else if stem == seq!['.'] || stem == seq!['.', '.'] {
        Err(NameProblem::DotPath)
    } else if stem.last() == ' ' || stem.last() == '.' {
        Err(NameProblem::BadEnd)
    } else if stem.len() > MAX_CLIP_STEM_CHARS {
        Err(NameProblem::TooLong)
    } else if has_forbidden(stem) {
        Err(NameProblem::ForbiddenCharacter)
    } else if is_device(device_part(stem)) {
        Err(NameProblem::Device)
    } else {
        Ok(stem)
    }
}

/// Returns a clip name without white space at its ends and without `.mp3`.
fn strip_mp3(name: Vec<char>) -> (stem: Vec<char>)
    ensures
        stem@ == without_mp3(name@),
{
    match text::find_last(&name, '.') {
        None => name,
        Some(dot) => {
            let extension = text::slice(&name, dot + 1, name.len());
            proof {
                assert(extension@ =~= name@.skip(dot + 1));
            }
            if text::spells_ignoring_case(&extension, "mp3") {
                let stem = text::slice(&name, 0, dot);
                proof {
                    assert(stem@ =~= name@.take(dot as int));
                }
                stem
            } else {
                name
            }
        },
    }
}

/// Reports whether Windows forbids a character in a file name.
fn forbidden(character: char) -> (result: bool)
    ensures
        result == is_forbidden(character),
{
    text::control(character) || character == '\\' || character == '/' || character == ':'
        || character == '*' || character == '?' || character == '"' || character == '<'
        || character == '>' || character == '|'
}

/// Reports whether some character of a stem is forbidden.
fn any_forbidden(stem: &Vec<char>) -> (result: bool)
    ensures
        result == has_forbidden(stem@),
{
    let mut index: usize = 0;
    while index < stem.len()
        invariant
            index <= stem.len(),
            forall|i: int| 0 <= i < index ==> !is_forbidden(#[trigger] stem@[i]),
        decreases stem.len() - index,
    {
        if forbidden(stem[index]) {
            return true;
        }
        index += 1;
    }
    false
}

/// Reports whether a stem identifies a Windows device.
fn names_device(stem: &Vec<char>) -> (result: bool)
    ensures
        result == is_device(device_part(stem@)),
{
    let front = match text::find_first(stem, '.') {
        Some(dot) => {
            let front = text::slice(stem, 0, dot);
            proof {
                assert(front@ =~= stem@.take(dot as int));
            }
            front
        },
        None => {
            let front = text::slice(stem, 0, stem.len());
            proof {
                assert(front@ =~= stem@);
            }
            front
        },
    };
    let device = text::to_upper(&front);
    let numbered = if device.len() == 4 {
        let bus = text::slice(&device, 0, 3);
        proof {
            assert(bus@ =~= device@.take(3));
        }
        (text::spells(&bus, "COM") || text::spells(&bus, "LPT")) && '1' <= device[3] && device[3]
            <= '9'
    } else {
        false
    };
    numbered || text::spells(&device, "CON") || text::spells(&device, "PRN") || text::spells(
        &device,
        "AUX",
    ) || text::spells(&device, "NUL") || text::spells(&device, "CONIN$") || text::spells(
        &device,
        "CONOUT$",
    ) || text::spells(&device, "CLOCK$")
}

/// Validates a user-provided clip name and returns its MP3 file stem.
///
/// The result never contains a directory separator. The function also rejects
/// Windows device names because those names cannot identify ordinary files.
pub fn clip_stem(requested: &str) -> (result: Result<String, NameError>)
    ensures
        match (result, clip_stem_of(requested@)) {
            (Ok(stem), Ok(expected)) => stem@ == expected,
            (Err(error), Err(problem)) => error.problem == problem,
            _ => false,
        },
{
    let letters = text::characters(requested);
    let stem = strip_mp3(text::trimmed(&letters));
    let length: usize = stem.len();
    if length == 0 {
        return Err(NameError::new(NameProblem::Empty));
    }
    let last = stem[length - 1];
    if (length == 1 && last == '.') || (length == 2 && stem[0] == '.' && last == '.') {
        proof {
            assert(stem@ =~= seq!['.'] || stem@ =~= seq!['.', '.']);
        }
        return Err(NameError::new(NameProblem::DotPath));
    }
    proof {
        assert(stem@ != seq!['.'] && stem@ != seq!['.', '.']);
    }
    if last == ' ' || last == '.' {
        return Err(NameError::new(NameProblem::BadEnd));
    }
    if length > MAX_CLIP_STEM_CHARS {
        return Err(NameError::new(NameProblem::TooLong));
    }
    if any_forbidden(&stem) {
        return Err(NameError::new(NameProblem::ForbiddenCharacter));
    }
    if names_device(&stem) {
        return Err(NameError::new(NameProblem::Device));
    }
    Ok(text::string_of(&stem))
}

/// The file name of a clip with a collision suffix.
pub open spec fn clip_name(stem: Seq<char>, suffix: nat) -> Seq<char> {
    if suffix == 1 {
        stem + ".mp3"@
    } else {
        stem + "-"@ + text::decimal(suffix) + ".mp3"@
    }
}

/// Returns the file name of a clip with a collision suffix.
fn clip_candidate(stem: &str, suffix: u64) -> (name: String)
    ensures
        name@ == clip_name(stem@, suffix as nat),
{
    let mut name = String::from_str(stem);
    if suffix != 1 {
        name.append("-");
        text::push_decimal(&mut name, suffix);
    }
    name.append(".mp3");
    name
}

/// Whether a clip cannot go to this place: another file uses it.
pub open spec fn place_taken<F: Fn(&FilePath) -> bool>(
    in_use: F,
    place: path::PathView,
    current_part: path::PathView,
) -> bool {
    !place.same_place(current_part) && disk::answered(in_use, place, true)
}

/// Whether every suffix in front of `suffix` leads to a place in use.
pub open spec fn earlier_taken<F: Fn(&FilePath) -> bool>(
    in_use: F,
    directory: path::PathView,
    stem: Seq<char>,
    current_part: path::PathView,
    suffix: nat,
) -> bool {
    forall|earlier: nat|
        1 <= earlier < suffix ==> place_taken(
            in_use,
            #[trigger] directory.child(clip_name(stem, earlier)),
            current_part,
        )
}

/// Whether `chosen` is the first place that a clip can go to.
pub open spec fn is_first_free<F: Fn(&FilePath) -> bool>(
    in_use: F,
    directory: path::PathView,
    stem: Seq<char>,
    current_part: path::PathView,
    chosen: path::PathView,
) -> bool {
    &&& chosen.same_place(current_part) || disk::answered(in_use, chosen, false)
    &&& exists|suffix: nat|
        1 <= suffix < SUFFIX_END && chosen == directory.child(clip_name(stem, suffix))
            && #[trigger] earlier_taken(in_use, directory, stem, current_part, suffix)
}

/// Chooses a free path for a validated clip name.
///
/// `current_part` can equal the first candidate. This case occurs when a user
/// names a clip `part-001`. The current file can keep that name safely.
pub fn available_clip_path<F: Fn(&FilePath) -> bool>(
    directory: &FilePath,
    requested: &str,
    current_part: &FilePath,
    in_use: F,
) -> (result: Result<FilePath, NameError>)
    requires
        forall|candidate: &FilePath| call_requires(in_use, (candidate,)),
    ensures
        match clip_stem_of(requested@) {
            Err(problem) => result is Err && result->Err_0.problem == problem,
            Ok(stem) => match result {
                Ok(chosen) => is_first_free(in_use, directory@, stem, current_part@, chosen@),
                Err(error) => error.problem == NameProblem::NoFreeName && earlier_taken(
                    in_use,
                    directory@,
                    stem,
                    current_part@,
                    SUFFIX_END as nat,
                ),
            },
        },
{
    let stem = match clip_stem(requested) {
        Ok(stem) => stem,
        Err(error) => {
            return Err(error);
        },
    };
    let mut suffix: u64 = 1;
    while suffix < SUFFIX_END
        invariant
            1 <= suffix <= SUFFIX_END,
            clip_stem_of(requested@) is Ok,
            clip_stem_of(requested@)->Ok_0 == stem@,
            forall|candidate: &FilePath| call_requires(in_use, (candidate,)),
            earlier_taken(in_use, directory@, stem@, current_part@, suffix as nat),
        decreases SUFFIX_END - suffix,
    {
        let name = clip_candidate(stem.as_str(), suffix);
        let candidate = directory.child(name.as_str());
        let current = candidate.same(current_part);
        let used = !current && in_use(&candidate);
        proof {
            if !current {
                assert(disk::answered(in_use, candidate@, used));
            }
            if !used {
                assert(is_first_free(in_use, directory@, stem@, current_part@, candidate@));
            }
        }
        if !used {
            return Ok(candidate);
        }
        suffix += 1;
    }
    Err(NameError::new(NameProblem::NoFreeName))
}

/// The number of encoded frames in a span of time, and at least one.
pub open spec fn frame_limit(nanoseconds: nat, sample_rate: nat) -> nat {
    let frames = nanoseconds * sample_rate / 1_000_000_000;
    if frames > u64::MAX {
        u64::MAX as nat
    } else if frames < 1 {
        1
    } else {
        frames
    }
}

/// Converts a duration to a whole number of encoded audio frames.
///
/// The result is at least one frame. Integer arithmetic makes exact durations,
/// such as ten minutes at 48 kHz, independent from floating-point rounding.
pub fn segment_frame_limit(duration: Duration, sample_rate: u32) -> (limit: u64)
    ensures
        limit == frame_limit(duration@, sample_rate as nat),
        limit >= 1,
{
    let nanoseconds: u128 = duration.as_nanos();
    proof {
        assert(nanoseconds * sample_rate <= crate::time::MAX_NANOSECONDS * u32::MAX)
            by (nonlinear_arith)
            requires
                nanoseconds <= crate::time::MAX_NANOSECONDS,
                sample_rate <= u32::MAX,
        ;
    }
    let frames: u128 = nanoseconds * sample_rate as u128 / 1_000_000_000;
    if frames > u64::MAX as u128 {
        u64::MAX
    } else if frames < 1 {
        1
    } else {
        frames as u64
    }
}

/// Every accepted output location has the extension `.mp3`, in small or capital
/// letters, and stays in its folder.
pub proof fn law_output_files_are_mp3_files(requested: path::PathView)
    ensures
        mp3_destination(requested) matches Ok(output) ==> {
            &&& path::extension_of(output.name) is Some
            &&& text::same_ignoring_case(path::extension_of(output.name)->0, "mp3"@)
            &&& output.folder == requested.folder
        },
{
    if path::extension_of(requested.name) is None && path::names_file(requested.name) {
        reveal_strlit(".mp3");
        reveal_strlit("mp3");
        assert(requested.name + ".mp3"@ =~= requested.name.push('.') + "mp3"@);
        path::lemma_added_extension(requested.name, "mp3"@);
    }
}

/// Every accepted clip name is safe as a file stem: it has from one to
/// [`MAX_CLIP_STEM_CHARS`] characters, no directory separator and no other
/// forbidden character, no space or dot at its end, and it names no device.
pub proof fn law_clip_stem_is_safe(requested: Seq<char>)
    ensures
        clip_stem_of(requested) matches Ok(stem) ==> {
            &&& 1 <= stem.len() <= MAX_CLIP_STEM_CHARS
            &&& forall|i: int|
                0 <= i < stem.len() ==> !is_forbidden(#[trigger] stem[i]) && stem[i] != '/' && stem[i]
                    != '\\'
            &&& stem.last() != ' ' && stem.last() != '.'
            &&& !is_device(device_part(stem))
        },
{
}

/// White space around a requested clip name never matters.
pub proof fn law_clip_stem_ignores_outer_space(requested: Seq<char>, outer: char)
    requires
        text::is_white_space(outer),
    ensures
        clip_stem_of(requested.push(outer)) == clip_stem_of(requested),
        clip_stem_of(seq![outer] + requested) == clip_stem_of(requested),
{
    lemma_trim_drops_outer_space(requested, outer);
}

/// White space at either end does not change the trimmed text.
proof fn lemma_trim_drops_outer_space(name: Seq<char>, outer: char)
    requires
        text::is_white_space(outer),
    ensures
        text::trim(name.push(outer)) == text::trim(name),
        text::trim(seq![outer] + name) == text::trim(name),
    decreases name.len(),
{
    let front = seq![outer] + name;
    assert(front.drop_first() =~= name);
    assert(text::trim_start(front) == text::trim_start(name));
    let back = name.push(outer);
    if name.len() == 0 {
        assert(back.drop_first() =~= name);
    } else if text::is_white_space(name.first()) {
        lemma_trim_drops_outer_space(name.drop_first(), outer);
        assert(back.drop_first() =~= name.drop_first().push(outer));
    } else {
        assert(back.drop_last() =~= name);
    }
}

/// Different collision suffixes give different clip file names.
pub proof fn law_clip_names_are_distinct(stem: Seq<char>, left: nat, right: nat)
    requires
        1 <= left,
        1 <= right,
        left != right,
    ensures
        clip_name(stem, left) != clip_name(stem, right),
{
    reveal_strlit("-");
    reveal_strlit(".mp3");
    text::lemma_decimal_spells(left);
    text::lemma_decimal_spells(right);
    if clip_name(stem, left) == clip_name(stem, right) {
        if left == 1 || right == 1 {
            assert(clip_name(stem, left).len() != clip_name(stem, right).len());
        } else {
            text::lemma_middle_piece(
                stem + "-"@,
                text::decimal(left),
                text::decimal(right),
                ".mp3"@,
            );
        }
    }
}

/// Different collision suffixes give different session directory names.
pub proof fn law_session_names_are_distinct(timestamp: Seq<char>, left: nat, right: nat)
    requires
        1 <= left,
        1 <= right,
        left != right,
    ensures
        session_name(timestamp, left) != session_name(timestamp, right),
{
    reveal_strlit("-");
    text::lemma_decimal_spells(left);
    text::lemma_decimal_spells(right);
    if session_name(timestamp, left) == session_name(timestamp, right) {
        if left == 1 || right == 1 {
            assert(session_name(timestamp, left).len() != session_name(timestamp, right).len());
        } else {
            let none = Seq::<char>::empty();
            let front = "recording-"@ + timestamp + "-"@;
            assert(front + text::decimal(left) + none =~= session_name(timestamp, left));
            assert(front + text::decimal(right) + none =~= session_name(timestamp, right));
            text::lemma_middle_piece(front, text::decimal(left), text::decimal(right), none);
        }
    }
}

/// Different part numbers give different part file names.
pub proof fn law_part_names_are_distinct(left: nat, right: nat)
    requires
        left != right,
    ensures
        part_name(left) != part_name(right),
{
    if part_name(left) == part_name(right) {
        text::lemma_middle_piece("part-"@, text::padded(left, 3), text::padded(right, 3), ".mp3"@);
        text::lemma_padded_spells(left, 3);
        text::lemma_padded_spells(right, 3);
    }
}

/// A whole number of seconds is exactly that many times the sample rate in frames.
pub proof fn law_whole_seconds_have_exact_limits(seconds: nat, sample_rate: nat)
    requires
        1 <= seconds * sample_rate <= u64::MAX,
    ensures
        frame_limit(seconds * 1_000_000_000, sample_rate) == seconds * sample_rate,
{
    assert(seconds * 1_000_000_000 * sample_rate == (seconds * sample_rate) * 1_000_000_000)
        by (nonlinear_arith);
    vstd::arithmetic::div_mod::lemma_div_multiples_vanish(
        (seconds * sample_rate) as int,
        1_000_000_000,
    );
}

/// A longer span never has a smaller frame limit.
pub proof fn law_frame_limits_grow_with_time(shorter: nat, longer: nat, sample_rate: nat)
    requires
        shorter <= longer,
    ensures
        1 <= frame_limit(shorter, sample_rate) <= frame_limit(longer, sample_rate),
{
    assert(shorter * sample_rate <= longer * sample_rate) by (nonlinear_arith)
        requires
            shorter <= longer,
    ;
    vstd::arithmetic::div_mod::lemma_div_is_ordered(
        (shorter * sample_rate) as int,
        (longer * sample_rate) as int,
        1_000_000_000,
    );
}

/// A requested name without a dot gets the extension `.mp3` and keeps its folder.
pub proof fn law_plain_names_get_the_extension(
    requested: FilePath,
    result: Result<FilePath, NameError>,
)
    requires
        call_ensures(mp3_output_path, (&requested,), result),
        requested.name@.len() > 0,
        !requested.name@.contains('.'),
    ensures
        result is Ok,
        result->Ok_0.name@ == requested.name@ + ".mp3"@,
        result->Ok_0.folder@ == requested.folder@,
        result->Ok_0.separator == requested.separator,
{
    let name = requested.name@;
    text::law_the_last_position_is_the_last(name, '.');
    assert(name[0] != '.');
    assert(seq!['.'][0] == '.' && seq!['.', '.'][0] == '.');
}

/// A requested name with an extension is taken as it is when the extension is
/// `mp3` in small or capital letters, and refused otherwise.
pub proof fn law_other_extensions_are_refused(
    requested: FilePath,
    result: Result<FilePath, NameError>,
    stem: Seq<char>,
    extension: Seq<char>,
)
    requires
        call_ensures(mp3_output_path, (&requested,), result),
        requested.name@ == stem.push('.') + extension,
        stem.len() > 0,
        extension.len() > 0,
        forall|i: int| 0 <= i < extension.len() ==> #[trigger] extension[i] != '.',
    ensures
        result is Ok <==> extension.len() == 3 && (extension[0] == 'm' || extension[0] == 'M') && (
        extension[1] == 'p' || extension[1] == 'P') && extension[2] == '3',
        result is Ok ==> result->Ok_0@ == requested@,
        result is Err ==> result->Err_0.problem == NameProblem::OtherExtension,
{
    path::lemma_added_extension(stem, extension);
    reveal_strlit("mp3");
    text::law_case_is_the_only_difference(extension, "mp3"@);
    if extension.len() == 3 {
        assert(text::same_ignoring_case(extension, "mp3"@) ==> text::ascii_upper(extension[0])
            == text::ascii_upper("mp3"@[0]) && text::ascii_upper(extension[1])
            == text::ascii_upper("mp3"@[1]) && text::ascii_upper(extension[2])
            == text::ascii_upper("mp3"@[2]));
    }
}

/// The first directory of a session is named after its time, and later ones have
/// a number behind it. A search tries no more than 9,999 of them.
pub proof fn law_sessions_are_named_after_their_time(
    parent: path::PathView,
    timestamp: Seq<char>,
    suffix: nat,
    steps: Seq<disk::DiskStep>,
    result: Result<path::PathView, CreateError>,
)
    requires
        disk::is_search(steps, session_places(parent, timestamp), SUFFIX_END as nat, result),
    ensures
        session_places(parent, timestamp)(1) == parent.child("recording-"@ + timestamp),
        suffix > 1 ==> session_places(parent, timestamp)(suffix) == parent.child(
            "recording-"@ + timestamp + "-"@ + text::decimal(suffix),
        ),
        steps.len() <= 10_000,
{
}

/// Parts are MP3 files in the folder of the session, named by a number of at
/// least three digits.
pub proof fn law_parts_are_named_by_their_number(directory: FilePath, index: u32, path: FilePath)
    requires
        call_ensures(part_path, (&directory, index), path),
    ensures
        path@.folder == directory@.below(),
        exists|digits: Seq<char>|
            #[trigger] text::number_of(digits) == index && digits.len() >= 3 && text::all_digits(
                digits,
            ) && path.name@ == "part-"@ + digits + ".mp3"@,
{
    let digits = text::padded(index as nat, 3);
    text::law_padded_numbers_have_their_width(index as nat, 3);
    assert(text::number_of(digits) == index);
}

/// The characters of an ordinary clip name.
pub open spec fn is_ordinary(character: char) -> bool {
    ||| 'a' <= character <= 'z'
    ||| 'A' <= character <= 'Z'
    ||| '0' <= character <= '9'
    ||| character == '-'
    ||| character == '_'
    ||| character == ' '
}

/// Whether a text has the characters of an ordinary clip name, and no space at
/// its ends.
pub open spec fn is_ordinary_name(name: Seq<char>) -> bool {
    &&& name.len() > 0
    &&& forall|i: int| 0 <= i < name.len() ==> is_ordinary(#[trigger] name[i])
    &&& name.first() != ' '
    &&& name.last() != ' '
}

/// An ordinary name of five to eighty characters is its own stem, with and
/// without `.mp3` behind it. A longer one is too long.
pub proof fn law_ordinary_clip_names_are_accepted(
    requested: &str,
    with_extension: &str,
    result: Result<String, NameError>,
    other: Result<String, NameError>,
)
    requires
        is_ordinary_name(requested@),
        requested@.len() > 4,
        with_extension@ == requested@ + ".mp3"@,
        call_ensures(clip_stem, (requested,), result),
        call_ensures(clip_stem, (with_extension,), other),
    ensures
        requested@.len() <= 80 ==> result is Ok && result->Ok_0@ == requested@,
        requested@.len() <= 80 ==> other is Ok && other->Ok_0@ == requested@,
        requested@.len() > 80 ==> result is Err && result->Err_0.problem == NameProblem::TooLong,
        requested@.len() > 80 ==> other is Err && other->Err_0.problem == NameProblem::TooLong,
{
    let name = requested@;
    lemma_ordinary_names(name);
    reveal_strlit(".mp3");
    reveal_strlit("mp3");
    let whole = name + ".mp3"@;
    assert(whole.first() == name.first());
    assert(whole.last() == '3');
    assert(text::trim(whole) == whole);
    assert(whole =~= name.push('.') + "mp3"@);
    path::lemma_added_extension(name, "mp3"@);
    path::lemma_dot_in_front(name, "mp3"@);
    assert(whole.take(name.len() as int) =~= name);
    assert(whole.skip(name.len() as int + 1) =~= "mp3"@);
    assert(without_mp3(whole) == name);
    lemma_no_long_devices(name);
}

/// An ordinary name has nothing to trim, no dot, and no forbidden character.
proof fn lemma_ordinary_names(name: Seq<char>)
    requires
        is_ordinary_name(name),
    ensures
        text::trim(name) == name,
        without_mp3(name) == name,
        !has_forbidden(name),
        name != seq!['.'],
        name != seq!['.', '.'],
        name.last() != '.',
        device_part(name) == text::upper(name),
{
    assert(is_ordinary(name[0]));
    assert(is_ordinary(name[name.len() - 1]));
    assert(!text::is_white_space(name.first()));
    assert(!text::is_white_space(name.last()));
    text::law_the_last_position_is_the_last(name, '.');
    text::lemma_first_position(name, '.');
    assert(seq!['.'][0] == '.' && seq!['.', '.'][0] == '.');
    assert forall|i: int| 0 <= i < name.len() implies !is_forbidden(#[trigger] name[i]) by {
        assert(is_ordinary(name[i]));
    }
    assert forall|i: int| 0 <= i < name.len() implies name[i] != '.' by {
        assert(is_ordinary(name[i]));
    }
}

/// No device has an ordinary name of five or more characters.
proof fn lemma_no_long_devices(name: Seq<char>)
    requires
        is_ordinary_name(name),
        name.len() > 4,
    ensures
        !is_device(text::upper(name)),
{
    reveal_strlit("CON");
    reveal_strlit("PRN");
    reveal_strlit("AUX");
    reveal_strlit("NUL");
    reveal_strlit("CONIN$");
    reveal_strlit("CONOUT$");
    reveal_strlit("CLOCK$");
    let capital = text::upper(name);
    let last = name.len() - 1;
    assert(is_ordinary(name[last]));
    assert(capital[last] == text::ascii_upper(name[last]));
    assert(capital[last] != '$');
    assert(capital.len() == name.len());
    assert("CONIN$"@.len() == 6 && "CONIN$"@[5] == '$');
    assert("CONOUT$"@.len() == 7 && "CONOUT$"@[6] == '$');
    assert("CLOCK$"@.len() == 6 && "CLOCK$"@[5] == '$');
    assert(capital != "CONIN$"@ && capital != "CONOUT$"@ && capital != "CLOCK$"@);
    assert(!is_numbered_device(capital));
}

/// The names of Windows devices.
pub open spec fn device_names() -> Seq<Seq<char>> {
    seq!["CON"@, "PRN"@, "AUX"@, "NUL"@, "CONIN$"@, "CONOUT$"@, "CLOCK$"@]
}

/// The name of a device is refused, in small and capital letters, and also with
/// more text behind a dot.
pub proof fn law_device_names_are_refused(
    requested: Seq<char>,
    device: Seq<char>,
    digit: char,
)
    requires
        '1' <= digit <= '9',
        device_names().contains(device) || device == "COM"@.push(digit) || device == "LPT"@.push(
            digit,
        ),
        text::upper(requested) == device,
    ensures
        clip_stem_of(requested) == Err::<Seq<char>, NameProblem>(NameProblem::Device),
        clip_stem_of(requested.push('.').push('x')) == Err::<Seq<char>, NameProblem>(
            NameProblem::Device,
        ),
{
    reveal_strlit("CON");
    reveal_strlit("PRN");
    reveal_strlit("AUX");
    reveal_strlit("NUL");
    reveal_strlit("CONIN$");
    reveal_strlit("CONOUT$");
    reveal_strlit("CLOCK$");
    reveal_strlit("COM");
    reveal_strlit("LPT");
    reveal_strlit("mp3");
    assert(device.len() == requested.len());
    assert(3 <= device.len() <= 7);
    assert forall|i: int| 0 <= i < device.len() implies is_device_letter(#[trigger] device[i]) by {
        let names = device_names();
        if names.contains(device) {
            let k = choose|k: int| 0 <= k < names.len() && names[k] == device;
            assert(k == 0 || k == 1 || k == 2 || k == 3 || k == 4 || k == 5 || k == 6);
        }
    }
    assert forall|i: int| 0 <= i < requested.len() implies is_device_letter(
        text::ascii_upper(#[trigger] requested[i]),
    ) by {
        assert(device[i] == text::ascii_upper(requested[i]));
    }
    assert(is_device(device)) by {
        let names = device_names();
        if names.contains(device) {
            let k = choose|k: int| 0 <= k < names.len() && names[k] == device;
            assert(k == 0 || k == 1 || k == 2 || k == 3 || k == 4 || k == 5 || k == 6);
        } else {
            assert("COM"@.push(digit).take(3) =~= "COM"@);
            assert("LPT"@.push(digit).take(3) =~= "LPT"@);
        }
    }
    assert(!text::is_white_space(requested.first()) && !text::is_white_space(requested.last()));
    text::law_the_last_position_is_the_last(requested, '.');
    text::lemma_first_position(requested, '.');
    assert(requested[0] != '.');
    assert(seq!['.'][0] == '.' && seq!['.', '.'][0] == '.');
    let longer = requested.push('.').push('x');
    text::law_the_last_position_is_the_last(longer, '.');
    text::lemma_first_position(longer, '.');
    assert(longer[requested.len() as int] == '.');
    assert(longer.first() == requested.first() && longer.last() == 'x');
    assert(!text::is_white_space('x'));
    assert(text::trim(longer) == longer);
    let dot = text::last_position(longer, '.')->0 as int;
    assert(dot == requested.len()) by {
        if dot < requested.len() {
            assert(longer[requested.len() as int] != '.');
        }
    }
    assert(longer.skip(dot + 1).len() == 1);
    assert(text::upper(longer.skip(dot + 1)).len() != text::upper("mp3"@).len());
    assert(without_mp3(longer) == longer);
    let first = text::first_position(longer, '.')->0 as int;
    assert(first == requested.len()) by {
        if first < requested.len() {
            assert(longer[first] == requested[first]);
        }
    }
    assert(longer.take(first) =~= requested);
    assert(longer[0] != '.');
    assert forall|i: int| 0 <= i < longer.len() implies !is_forbidden(#[trigger] longer[i]) by {
        if i < requested.len() {
            assert(longer[i] == requested[i]);
        }
    }
}

/// The letters of device names.
pub open spec fn is_device_letter(character: char) -> bool {
    'A' <= character <= 'Z' || '1' <= character <= '9' || character == '$'
}

/// An accepted stem holds none of the characters that Windows forbids, fits
/// eighty characters, and is the name without outer space, or what stands in
/// front of its `.mp3`.
pub proof fn law_accepted_stems_are_allowed(requested: &str, result: Result<String, NameError>)
    requires
        call_ensures(clip_stem, (requested,), result),
        result is Ok,
    ensures
        1 <= result->Ok_0@.len() <= 80,
        forall|i: int|
            0 <= i < result->Ok_0@.len() ==> {
                let character = #[trigger] result->Ok_0@[i];
                &&& character as int >= 32 && character as int != 127
                &&& character != '/' && character != '\\' && character != ':' && character != '*'
                &&& character != '?' && character != '"' && character != '<' && character != '>'
                    && character != '|'
            },
        result->Ok_0@.last() != ' ' && result->Ok_0@.last() != '.',
        text::trim(requested@) == result->Ok_0@ || (text::trim(requested@).len()
            == result->Ok_0@.len() + 4 && text::trim(requested@).take(result->Ok_0@.len() as int)
            == result->Ok_0@),
{
    let stem = result->Ok_0@;
    let whole = text::trim(requested@);
    assert forall|i: int| 0 <= i < stem.len() implies !is_forbidden(#[trigger] stem[i]) by {}
    if whole != stem {
        text::law_the_last_position_is_the_last(whole, '.');
        let dot = text::last_position(whole, '.')->0 as int;
        reveal_strlit("mp3");
        text::law_case_is_the_only_difference(whole.skip(dot + 1), "mp3"@);
    }
}

/// A clip gets its plain name when no other file uses it, and a number from two
/// on behind it otherwise. The number is the smallest that is free.
pub proof fn law_clips_take_the_first_free_name<F: Fn(&FilePath) -> bool>(
    directory: FilePath,
    requested: &str,
    current_part: FilePath,
    in_use: F,
    result: Result<FilePath, NameError>,
)
    requires
        call_ensures(available_clip_path::<F>, (&directory, requested, &current_part, in_use), result),
        result is Ok,
    ensures
        clip_stem_of(requested@) is Ok,
        ({
            let stem = clip_stem_of(requested@)->Ok_0;
            let plain = directory@.child(stem + ".mp3"@);
            &&& plain.same_place(current_part@) || !disk::answered(in_use, plain, true)
                ==> result->Ok_0@ == plain
            &&& result->Ok_0@ == plain || exists|number: nat|
                2 <= number < 10_000 && result->Ok_0@ == directory@.child(
                    stem + "-"@ + #[trigger] text::decimal(number) + ".mp3"@,
                ) && forall|earlier: nat|
                    2 <= earlier < number ==> disk::answered(
                        in_use,
                        directory@.child(
                            stem + "-"@ + #[trigger] text::decimal(earlier) + ".mp3"@,
                        ),
                        true,
                    )
            &&& result->Ok_0@.same_place(current_part@) || disk::answered(
                in_use,
                result->Ok_0@,
                false,
            )
        }),
{
    let stem = clip_stem_of(requested@)->Ok_0;
    let chosen = result->Ok_0@;
    let suffix = choose|suffix: nat|
        1 <= suffix < SUFFIX_END && chosen == directory@.child(clip_name(stem, suffix))
            && #[trigger] earlier_taken(in_use, directory@, stem, current_part@, suffix);
    if suffix > 1 {
        assert(place_taken(in_use, directory@.child(clip_name(stem, 1)), current_part@));
        assert forall|earlier: nat| 2 <= earlier < suffix implies disk::answered(
            in_use,
            directory@.child(stem + "-"@ + #[trigger] text::decimal(earlier) + ".mp3"@),
            true,
        ) by {
            assert(place_taken(
                in_use,
                directory@.child(clip_name(stem, earlier)),
                current_part@,
            ));
        }
        let spelled = text::decimal(suffix);
        assert(chosen == directory@.child(stem + "-"@ + text::decimal(suffix) + ".mp3"@));
    }
}

/// The frames of a part fill its length and no frame more would fit.
pub proof fn law_parts_fill_their_length(duration: Duration, sample_rate: u32, limit: u64)
    requires
        call_ensures(segment_frame_limit, (duration, sample_rate), limit),
        duration@ * sample_rate >= 1_000_000_000,
        duration@ * sample_rate < 0x1_0000_0000_0000_0000 * 1_000_000_000,
    ensures
        limit * 1_000_000_000 <= duration@ * sample_rate,
        duration@ * sample_rate < (limit + 1) * 1_000_000_000,
{
}

/// The place shown to the user is the file of a single recording and the folder
/// of a session.
pub proof fn law_targets_show_their_place(target: OutputTarget, root: &FilePath, session: bool)
    requires
        call_ensures(OutputTarget::root, (&target,), root),
        call_ensures(OutputTarget::is_session, (&target,), session),
    ensures
        target matches OutputTarget::SingleFile { path, .. } ==> root@ == path@ && !session,
        target matches OutputTarget::Session { directory, .. } ==> root@ == directory@ && session,
{
}

/// Every rule for names has its own message.
pub proof fn law_name_problems_are_told(error: NameError, message: &'static str)
    requires
        call_ensures(NameError::message, (&error,), message),
    ensures
        error.problem == NameProblem::OtherExtension ==> message@
            == "the output file must use the .mp3 extension"@,
        error.problem == NameProblem::Empty ==> message@ == "enter a file name"@,
        error.problem == NameProblem::DotPath ==> message@ == "the file name cannot be a dot path"@,
        error.problem == NameProblem::BadEnd ==> message@
            == "the file name cannot end with a space or dot"@,
        error.problem == NameProblem::TooLong ==> message@ == "the file name is too long"@,
        error.problem == NameProblem::ForbiddenCharacter ==> message@
            == "the file name contains a character that Windows does not allow"@,
        error.problem == NameProblem::Device ==> message@ == "the file name is reserved by Windows"@,
        error.problem == NameProblem::NoFreeName ==> message@
            == "could not choose a unique clip file name"@,
{
}

/// An empty name, a name of dots, and a name that ends with a space or a dot have
/// their own problems, in this order.
pub proof fn law_bad_names_have_their_problem(requested: Seq<char>)
    requires
        text::trim(requested) == requested,
        !requested.contains('.') || (requested.len() <= 2 && forall|i: int|
            0 <= i < requested.len() ==> requested[i] == '.'),
    ensures
        requested.len() == 0 ==> clip_stem_of(requested) == Err::<Seq<char>, NameProblem>(
            NameProblem::Empty,
        ),
        requested == seq!['.'] || requested == seq!['.', '.'] ==> clip_stem_of(requested)
            == Err::<Seq<char>, NameProblem>(NameProblem::DotPath),
        requested.len() > 80 ==> clip_stem_of(requested) is Err,
        requested.contains(':') ==> clip_stem_of(requested) is Err,
        requested.contains('/') ==> clip_stem_of(requested) is Err,
{
    text::law_the_last_position_is_the_last(requested, '.');
    reveal_strlit("mp3");
    if text::last_position(requested, '.') is Some {
        let dot = text::last_position(requested, '.')->0 as int;
        assert(requested.skip(dot + 1).len() == 0);
        assert(text::upper(requested.skip(dot + 1)).len() == 0);
        assert(text::upper("mp3"@).len() == 3);
    }
    if requested.contains(':') {
        let i = choose|i: int| 0 <= i < requested.len() && requested[i] == ':';
        assert(is_forbidden(requested[i]));
    }
    if requested.contains('/') {
        let i = choose|i: int| 0 <= i < requested.len() && requested[i] == '/';
        assert(is_forbidden(requested[i]));
    }
}

/// A part is ten minutes long unless another length is asked for.
pub proof fn law_parts_are_ten_minutes_long(duration: Duration)
    requires
        call_ensures(default_segment_duration, (), duration),
    ensures
        duration@ == 10 * 60 * 1_000_000_000,
{
}

} // verus!
