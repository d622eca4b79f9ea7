//! Downsampled waveforms of clip sources.
//!
//! The clip editor draws a bounded number of bins. Each bin keeps the lowest
//! and the highest sample of its share of the frames. [`WaveformBuilder`] takes
//! the frames in blocks, so a long source never has to be in memory.
use vstd::prelude::*;

use crate::pcm;
use crate::text;

verus! {

/// The largest sample, which draws at full height.
pub const FULL_HEIGHT: i16 = 32_767;

/// The smallest sample.
pub const LOWEST_SAMPLE: i16 = -32_768;

/// Frames read from a clip source in one operation.
pub const READ_FRAMES: u64 = 16_384;

/// Stores the minimum and maximum sample values in one display bin.
///
/// Both are in units of the largest sample.
#[derive(Clone, Copy, Debug, PartialEq, Eq, Structural)]
pub struct WaveformBin {
    /// Lowest sample in this bin.
    pub minimum: i16,
    /// Highest sample in this bin.
    pub maximum: i16,
}

/// Contains downsampled left and right channels for the clip editor.
#[derive(Debug)]
pub struct ClipWaveform {
    /// Left-channel display bins.
    pub left: Vec<WaveformBin>,
    /// Right-channel display bins.
    pub right: Vec<WaveformBin>,
}

/// Why a clip source cannot be drawn.
#[derive(Clone, Copy, Debug, PartialEq, Eq, Structural)]
pub enum WaveformError {
    /// The range has no frames.
    EmptyRange,
    /// The display has no bins.
    NoBins,
    /// The range ends behind the source.
    PastEnd {
        /// Frames in the source.
        available: u64,
        /// End of the range.
        end: u64,
    },
}

impl WaveformError {
    /// The message for the user.
    pub open spec fn text(self) -> Seq<char> {
        match self {
            WaveformError::EmptyRange => "the clip waveform range is empty"@,
            WaveformError::NoBins => "the clip waveform needs at least one display bin"@,
            WaveformError::PastEnd { available, end } => "the clip source has "@ + text::decimal(
                available as nat,
            ) + " frames, but the selection ends at "@ + text::decimal(end as nat),
        }
    }

    /// Returns the message for the user.
    pub fn message(&self) -> (message: String)
        ensures
            message@ == self.text(),
    {
        match self {
            WaveformError::EmptyRange => String::from_str("the clip waveform range is empty"),
            WaveformError::NoBins => String::from_str(
                "the clip waveform needs at least one display bin",
            ),
            WaveformError::PastEnd { available, end } => {
                let mut message = String::from_str("the clip source has ");
                text::push_decimal(&mut message, *available);
                message.append(" frames, but the selection ends at ");
                text::push_decimal(&mut message, *end);
                message
            },
        }
    }
}

/// The bin of a frame: frames are shared out evenly and in order.
pub open spec fn bin_of(frame: nat, bins: nat, frames: nat) -> nat {
    frame * bins / frames
}

/// A bin that holds no sample yet. Its lowest value lies above its highest, as
/// in no bin with a sample.
pub open spec fn empty_bin() -> WaveformBin {
    WaveformBin { minimum: FULL_HEIGHT, maximum: LOWEST_SAMPLE }
}

/// A bin with one more sample.
pub open spec fn with_sample(bin: WaveformBin, sample: int) -> WaveformBin {
    WaveformBin {
        minimum: if sample < bin.minimum {
            sample as i16
        } else {
            bin.minimum
        },
        maximum: if sample > bin.maximum {
            sample as i16
        } else {
            bin.maximum
        },
    }
}

/// A bin after the first samples of a channel.
pub open spec fn bin_after(samples: Seq<int>, bins: nat, frames: nat, bin: nat) -> WaveformBin
    decreases samples.len(),
{
    if samples.len() == 0 {
        empty_bin()
    } else {
        let before = bin_after(samples.drop_last(), bins, frames, bin);
        if bin_of((samples.len() - 1) as nat, bins, frames) == bin {
            with_sample(before, samples.last())
        } else {
            before
        }
    }
}

/// A finished bin. A bin without a sample draws silence.
pub open spec fn finished_bin(bin: WaveformBin) -> WaveformBin {
    if bin.minimum > bin.maximum {
        WaveformBin { minimum: 0, maximum: 0 }
    } else {
        bin
    }
}

/// Whether bins are those of a channel.
pub open spec fn are_bins(
    drawn: Seq<WaveformBin>,
    samples: Seq<int>,
    bins: nat,
    frames: nat,
) -> bool {
    drawn.len() == bins && forall|b: int|
        0 <= b < bins ==> #[trigger] drawn[b] == bin_after(samples, bins, frames, b as nat)
}

/// Whether finished bins are those of a channel.
pub open spec fn are_finished_bins(
    drawn: Seq<WaveformBin>,
    samples: Seq<int>,
    bins: nat,
    frames: nat,
) -> bool {
    drawn.len() == bins && forall|b: int|
        0 <= b < bins ==> #[trigger] drawn[b] == finished_bin(
            bin_after(samples, bins, frames, b as nat),
        )
}

/// The left or right samples of a stereo block.
pub open spec fn channel_of(bytes: Seq<u8>, side: int) -> Seq<int> {
    Seq::new(
        bytes.len() / 4,
        |i: int| pcm::sample_of(bytes[4 * i + 2 * side], bytes[4 * i + 2 * side + 1]),
    )
}

/// The number of bins for a range.
pub open spec fn bins_for(frames: nat, maximum_bins: nat) -> nat {
    if frames < maximum_bins {
        frames
    } else {
        maximum_bins
    }
}

/// The first problem of a request, in the order of the checks.
pub open spec fn request_problem(
    start: nat,
    end: nat,
    maximum_bins: nat,
    source_bytes: nat,
) -> Option<WaveformError> {
    if start >= end {
        Some(WaveformError::EmptyRange)
    } else if maximum_bins == 0 {
        Some(WaveformError::NoBins)
    } else if end > source_bytes / 4 {
        Some(
            WaveformError::PastEnd { available: (source_bytes / 4) as u64, end: end as u64 },
        )
    } else {
        None
    }
}

/// Builds the bins of both channels from blocks of frames.
pub struct WaveformBuilder {
    first_byte: u64,
    frame_count: u64,
    processed: u64,
    left: Vec<WaveformBin>,
    right: Vec<WaveformBin>,
    left_seen: Ghost<Seq<int>>,
    right_seen: Ghost<Seq<int>>,
}

/// The mathematical value of a [`WaveformBuilder`].
pub struct BuilderView {
    pub first_byte: nat,
    pub frames: nat,
    pub bins: nat,
    pub left: Seq<int>,
    pub right: Seq<int>,
}

impl View for WaveformBuilder {
    type V = BuilderView;

    closed spec fn view(&self) -> BuilderView {
        BuilderView {
            first_byte: self.first_byte as nat,
            frames: self.frame_count as nat,
            bins: self.left@.len(),
            left: self.left_seen@,
            right: self.right_seen@,
        }
    }
}

impl WaveformBuilder {
    /// The bins are those of the samples that were seen.
    pub closed spec fn wf(self) -> bool {
        let view = self@;
        &&& 0 < view.bins <= view.frames
        &&& self.processed == view.left.len()
        &&& view.left.len() == view.right.len()
        &&& view.left.len() <= view.frames
        &&& are_bins(self.left@, view.left, view.bins, view.frames)
        &&& are_bins(self.right@, view.right, view.bins, view.frames)
    }

    /// Checks what a waveform asks for, before its source is opened.
    pub fn check_request(start_frame: u64, end_frame: u64, maximum_bins: usize) -> (result: Result<
        (),
        WaveformError,
    >)
        ensures
            result == (if start_frame >= end_frame {
                Err(WaveformError::EmptyRange)
            } else if maximum_bins == 0 {
                Err(WaveformError::NoBins)
            } else {
                Ok(())
            }),
    {
        if start_frame >= end_frame {
            return Err(WaveformError::EmptyRange);
        }
        if maximum_bins == 0 {
            return Err(WaveformError::NoBins);
        }
        Ok(())
    }

    /// Starts a waveform of a range of a source with so many bytes.
    pub fn new(start_frame: u64, end_frame: u64, maximum_bins: usize, source_bytes: u64) -> (result:
        Result<WaveformBuilder, WaveformError>)
        ensures
            result is Err <==> request_problem(
                start_frame as nat,
                end_frame as nat,
                maximum_bins as nat,
                source_bytes as nat,
            ) is Some,
            result is Err ==> result->Err_0 == request_problem(
                start_frame as nat,
                end_frame as nat,
                maximum_bins as nat,
                source_bytes as nat,
            )->0,
            result is Ok ==> {
                let builder = result->Ok_0;
                &&& builder.wf()
                &&& builder@.first_byte == 4 * start_frame
                &&& builder@.frames == end_frame - start_frame
                &&& builder@.bins == bins_for(
                    (end_frame - start_frame) as nat,
                    maximum_bins as nat,
                )
                &&& builder@.left == Seq::<int>::empty()
                &&& builder@.right == Seq::<int>::empty()
            },
    {
        match WaveformBuilder::check_request(start_frame, end_frame, maximum_bins) {
            Ok(()) => {},
            Err(error) => {
                return Err(error);
            },
        }
        let available: u64 = source_bytes / pcm::FRAME_BYTES;
        if end_frame > available {
            return Err(WaveformError::PastEnd { available, end: end_frame });
        }
        let frame_count: u64 = end_frame - start_frame;
        let bin_count: usize = if frame_count < maximum_bins as u64 {
            frame_count as usize
        } else {
            maximum_bins
        };
        let empty = WaveformBin { minimum: FULL_HEIGHT, maximum: LOWEST_SAMPLE };
        let builder = WaveformBuilder {
            first_byte: start_frame * pcm::FRAME_BYTES,
            frame_count,
            processed: 0,
            left: vec![empty; bin_count],
            right: vec![empty; bin_count],
            left_seen: Ghost(Seq::empty()),
            right_seen: Ghost(Seq::empty()),
        };
        Ok(builder)
    }

    /// Returns the position of the first byte of the range.
    pub fn first_byte(&self) -> (position: u64)
        ensures
            position == self@.first_byte,
    {
        self.first_byte
    }

    /// Returns the number of frames of the next block, or zero at the end.
    pub fn next_frames(&self) -> (frames: usize)
        requires
            self.wf(),
        ensures
            frames == (if self@.frames - self@.left.len() < READ_FRAMES {
                self@.frames - self@.left.len()
            } else {
                READ_FRAMES as int
            }),
    {
        let remaining: u64 = self.frame_count - self.processed;
        if remaining < READ_FRAMES {
            remaining as usize
        } else {
            READ_FRAMES as usize
        }
    }

    /// Adds one frame.
    fn push_frame(&mut self, left: i16, right: i16)
        requires
            old(self).wf(),
            old(self)@.left.len() < old(self)@.frames,
        ensures
            final(self).wf(),
            final(self)@ == (BuilderView {
                left: old(self)@.left.push(left as int),
                right: old(self)@.right.push(right as int),
                ..old(self)@
            }),
    {
        let bin_count: usize = self.left.len();
        let ghost relative = self.processed as nat;
        let ghost bins = bin_count as nat;
        let ghost frames = self.frame_count as nat;
        proof {
            lemma_bin_is_in_range(relative, bins, frames);
            assert(relative * bins <= u64::MAX * u64::MAX) by (nonlinear_arith)
                requires
                    relative <= u64::MAX,
                    bins <= u64::MAX,
            ;
        }
        let bin: usize = (self.processed as u128 * bin_count as u128 / self.frame_count as u128)
            as usize;
        let ghost before = *self;
        let left_bin = self.left[bin];
        let right_bin = self.right[bin];
        self.left.set(bin, joined(left_bin, left));
        self.right.set(bin, joined(right_bin, right));
        self.left_seen = Ghost(self.left_seen@.push(left as int));
        self.right_seen = Ghost(self.right_seen@.push(right as int));
        self.processed = self.processed + 1;
        proof {
            assert(self.left_seen@.drop_last() =~= before.left_seen@);
            assert(self.right_seen@.drop_last() =~= before.right_seen@);
        }
    }

    /// Adds a block of whole stereo frames.
    pub fn push_block(&mut self, bytes: &[u8])
        requires
            old(self).wf(),
            bytes@.len() % 4 == 0,
            old(self)@.left.len() + bytes@.len() / 4 <= old(self)@.frames,
        ensures
            final(self).wf(),
            final(self)@ == (BuilderView {
                left: old(self)@.left + channel_of(bytes@, 0),
                right: old(self)@.right + channel_of(bytes@, 1),
                ..old(self)@
            }),
    {
        let count: usize = bytes.len() / 4;
        let ghost before = self@;
        let ghost left = channel_of(bytes@, 0);
        let ghost right = channel_of(bytes@, 1);
        let mut index: usize = 0;
        proof {
            assert(before.left + left.take(0) =~= before.left);
            assert(before.right + right.take(0) =~= before.right);
        }
        while index < count
            invariant
                index <= count,
                count == bytes@.len() / 4,
                4 * count <= usize::MAX,
                bytes@.len() % 4 == 0,
                left == channel_of(bytes@, 0),
                right == channel_of(bytes@, 1),
                before.left.len() + count <= before.frames,
                self.wf(),
                self@ == (BuilderView {
                    left: before.left + left.take(index as int),
                    right: before.right + right.take(index as int),
                    ..before
                }),
            decreases count - index,
        {
            let left_sample: i16 = pcm::read_sample(bytes[4 * index], bytes[4 * index + 1]);
            let right_sample: i16 = pcm::read_sample(bytes[4 * index + 2], bytes[4 * index + 3]);
            self.push_frame(left_sample, right_sample);
            index += 1;
            proof {
                assert(before.left + left.take(index as int) =~= (before.left + left.take(
                    index - 1,
                )).push(left_sample as int));
                assert(before.right + right.take(index as int) =~= (before.right + right.take(
                    index - 1,
                )).push(right_sample as int));
            }
        }
        proof {
            assert(left.take(count as int) =~= left);
            assert(right.take(count as int) =~= right);
        }
    }

    /// Returns the finished bins of both channels.
    pub fn finish(self) -> (waveform: ClipWaveform)
        requires
            self.wf(),
        ensures
            are_finished_bins(waveform.left@, self@.left, self@.bins, self@.frames),
            are_finished_bins(waveform.right@, self@.right, self@.bins, self@.frames),
    {
        let left = finished(&self.left);
        let right = finished(&self.right);
        ClipWaveform { left, right }
    }
}

/// Adds a sample to a bin.
fn joined(bin: WaveformBin, sample: i16) -> (result: WaveformBin)
    ensures
        result == with_sample(bin, sample as int),
{
    WaveformBin {
        minimum: if sample < bin.minimum {
            sample
        } else {
            bin.minimum
        },
        maximum: if sample > bin.maximum {
            sample
        } else {
            bin.maximum
        },
    }
}

/// Finishes every bin of a channel.
fn finished(bins: &Vec<WaveformBin>) -> (result: Vec<WaveformBin>)
    ensures
        result@.len() == bins@.len(),
        forall|b: int| 0 <= b < bins@.len() ==> #[trigger] result@[b] == finished_bin(bins@[b]),
{
    let mut result: Vec<WaveformBin> = Vec::new();
    let mut index: usize = 0;
    while index < bins.len()
        invariant
            index <= bins.len(),
            result@.len() == index,
            forall|b: int| 0 <= b < index ==> #[trigger] result@[b] == finished_bin(bins@[b]),
        decreases bins.len() - index,
    {
        let bin = bins[index];
        if bin.minimum > bin.maximum {
            result.push(WaveformBin { minimum: 0, maximum: 0 });
        } else {
            result.push(bin);
        }
        index += 1;
    }
    result
}

/// A frame of a range falls into a bin of the display.
proof fn lemma_bin_is_in_range(frame: nat, bins: nat, frames: nat)
    requires
        frame < frames,
        bins > 0,
    ensures
        bin_of(frame, bins, frames) < bins,
{
    let product = frame * bins;
    assert(product < bins * frames) by (nonlinear_arith)
        requires
            frame < frames,
            bins > 0,
            product == frame * bins,
    ;
    assert(product / frames < bins) by (nonlinear_arith)
        requires
            product < bins * frames,
            frames > 0,
    ;
}

/// The bytes of a range of frames.
pub open spec fn range_of(source: Seq<u8>, start: nat, end: nat) -> Seq<u8> {
    source.subrange(4 * start as int, 4 * end as int)
}

/// Builds a bounded waveform from stereo 16-bit little-endian PCM.
pub fn load_pcm_waveform(source: &[u8], start_frame: u64, end_frame: u64, maximum_bins: usize) -> (
    result: Result<ClipWaveform, WaveformError>)
    ensures
        result is Err <==> request_problem(
            start_frame as nat,
            end_frame as nat,
            maximum_bins as nat,
            source@.len(),
        ) is Some,
        result is Err ==> result->Err_0 == request_problem(
            start_frame as nat,
            end_frame as nat,
            maximum_bins as nat,
            source@.len(),
        )->0,
        result is Ok ==> {
            let frames = (end_frame - start_frame) as nat;
            let bins = bins_for(frames, maximum_bins as nat);
            let range = range_of(source@, start_frame as nat, end_frame as nat);
            &&& are_finished_bins(result->Ok_0.left@, channel_of(range, 0), bins, frames)
            &&& are_finished_bins(result->Ok_0.right@, channel_of(range, 1), bins, frames)
        },
{
    let length: usize = source.len();
    let mut builder = match WaveformBuilder::new(
        start_frame,
        end_frame,
        maximum_bins,
        length as u64,
    ) {
        Ok(builder) => builder,
        Err(error) => {
            return Err(error);
        },
    };
    let ghost frames = (end_frame - start_frame) as nat;
    let ghost bins = bins_for(frames, maximum_bins as nat);
    let mut next: usize = start_frame as usize;
    proof {
        let range = range_of(source@, start_frame as nat, next as nat);
        assert(channel_of(range, 0) =~= Seq::<int>::empty());
        assert(channel_of(range, 1) =~= Seq::<int>::empty());
    }
    while next < end_frame as usize
        invariant
            builder.wf(),
            length == source@.len(),
            start_frame <= next <= end_frame,
            4 * end_frame <= length,
            frames == end_frame - start_frame,
            builder@.frames == frames,
            builder@.bins == bins,
            builder@.left == channel_of(range_of(source@, start_frame as nat, next as nat), 0),
            builder@.right == channel_of(range_of(source@, start_frame as nat, next as nat), 1),
        decreases end_frame - next,
    {
        let count: usize = builder.next_frames();
        let block = vstd::slice::slice_subrange(source, 4 * next, 4 * (next + count));
        let ghost seen = range_of(source@, start_frame as nat, next as nat);
        builder.push_block(block);
        proof {
            let whole = range_of(source@, start_frame as nat, (next + count) as nat);
            assert(channel_of(seen, 0) + channel_of(block@, 0) =~= channel_of(whole, 0));
            assert(channel_of(seen, 1) + channel_of(block@, 1) =~= channel_of(whole, 1));
        }
        next = next + count;
    }
    Ok(builder.finish())
}

/// Whether a frame of a range falls into a bin.
pub open spec fn falls_into(frame: nat, bins: nat, frames: nat, bin: nat) -> bool {
    frame < frames && bin_of(frame, bins, frames) == bin
}

/// With no more bins than frames, every bin gets a frame.
pub proof fn law_every_bin_has_a_frame(bins: nat, frames: nat, bin: nat)
    requires
        bin < bins <= frames,
    ensures
        exists|frame: nat| falls_into(frame, bins, frames, bin),
{
    // The first frame that reaches the bin: its share rounded up.
    let frame = ((bin * frames + bins - 1) / bins as int) as nat;
    let product = bin * frames;
    vstd::arithmetic::div_mod::lemma_fundamental_div_mod(product + bins - 1, bins as int);
    let remainder = (product + bins - 1) % bins as int;
    assert(product <= frame * bins && frame * bins < product + bins) by (nonlinear_arith)
        requires
            product + bins - 1 == bins * frame + remainder,
            0 <= remainder < bins,
    ;
    assert(frame * bins >= bin * frames && frame * bins < (bin + 1) * frames) by (nonlinear_arith)
        requires
            product == bin * frames,
            product <= frame * bins < product + bins,
            bins <= frames,
    ;
    let share = frame * bins;
    assert(share / frames == bin) by {
        assert(share == frames * bin + (share - bin * frames)) by (nonlinear_arith);
        assert(0 <= share - bin * frames < frames) by (nonlinear_arith)
            requires
                bin * frames <= share < (bin + 1) * frames,
        ;
        vstd::arithmetic::div_mod::lemma_fundamental_div_mod_converse(
            share as int,
            frames as int,
            bin as int,
            share - bin * frames,
        );
    }
    assert(frame < frames) by (nonlinear_arith)
        requires
            frame * bins < (bin + 1) * frames,
            bin + 1 <= bins,
            bins > 0,
    ;
    assert(falls_into(frame, bins, frames, bin));
}

/// Whether a sample of a channel falls into a bin and has this value.
pub open spec fn bin_has(
    samples: Seq<int>,
    bins: nat,
    frames: nat,
    bin: nat,
    value: int,
) -> bool {
    exists|i: int|
        0 <= i < samples.len() && bin_of(i as nat, bins, frames) == bin && #[trigger] samples[i]
            == value
}

/// Whether no sample of a channel falls into a bin.
pub open spec fn gets_nothing(samples: Seq<int>, bins: nat, frames: nat, bin: nat) -> bool {
    forall|i: int| 0 <= i < samples.len() ==> #[trigger] bin_of(i as nat, bins, frames) != bin
}

/// A bin keeps its extremes: no sample of its frames lies outside, and the
/// lowest and the highest value are samples of the bin. A bin without a frame
/// draws silence.
pub proof fn law_bins_keep_their_extremes(samples: Seq<int>, bins: nat, frames: nat, bin: nat)
    requires
        forall|i: int| 0 <= i < samples.len() ==> -32_768 <= #[trigger] samples[i] <= 32_767,
    ensures
        ({
            let drawn = finished_bin(bin_after(samples, bins, frames, bin));
            &&& forall|i: int|
                0 <= i < samples.len() && bin_of(i as nat, bins, frames) == bin ==> drawn.minimum
                    <= #[trigger] samples[i] <= drawn.maximum
            &&& if gets_nothing(samples, bins, frames, bin) {
                drawn == (WaveformBin { minimum: 0, maximum: 0 })
            } else {
                &&& bin_has(samples, bins, frames, bin, drawn.minimum as int)
                &&& bin_has(samples, bins, frames, bin, drawn.maximum as int)
            }
        }),
{
    lemma_bin_extremes(samples, bins, frames, bin);
}

/// A bin is empty until its first sample, and has its extremes from then on.
proof fn lemma_bin_extremes(samples: Seq<int>, bins: nat, frames: nat, bin: nat)
    requires
        forall|i: int| 0 <= i < samples.len() ==> -32_768 <= #[trigger] samples[i] <= 32_767,
    ensures
        ({
            let drawn = bin_after(samples, bins, frames, bin);
            &&& forall|i: int|
                0 <= i < samples.len() && bin_of(i as nat, bins, frames) == bin ==> drawn.minimum
                    <= #[trigger] samples[i] <= drawn.maximum
            &&& if gets_nothing(samples, bins, frames, bin) {
                drawn == empty_bin()
            } else {
                &&& drawn.minimum <= drawn.maximum
                &&& bin_has(samples, bins, frames, bin, drawn.minimum as int)
                &&& bin_has(samples, bins, frames, bin, drawn.maximum as int)
            }
        }),
    decreases samples.len(),
{
    if samples.len() > 0 {
        let front = samples.drop_last();
        let last = samples.len() - 1;
        assert forall|i: int| 0 <= i < front.len() implies -32_768 <= #[trigger] front[i]
            <= 32_767 by {
            assert(front[i] == samples[i]);
        }
        lemma_bin_extremes(front, bins, frames, bin);
        let before = bin_after(front, bins, frames, bin);
        let drawn = bin_after(samples, bins, frames, bin);
        assert forall|i: int| 0 <= i < samples.len() && bin_of(i as nat, bins, frames)
            == bin implies drawn.minimum <= #[trigger] samples[i] <= drawn.maximum by {
            if i < last {
                assert(front[i] == samples[i]);
            }
        }
        if bin_of(last as nat, bins, frames) == bin {
            assert(bin_has(samples, bins, frames, bin, samples[last]));
        }
        if gets_nothing(front, bins, frames, bin) {
            if bin_of(last as nat, bins, frames) != bin {
                assert(gets_nothing(samples, bins, frames, bin));
            } else {
                assert(drawn.minimum == samples[last] && drawn.maximum == samples[last]);
            }
        } else {
            lemma_bin_has_more(samples, bins, frames, bin, before.minimum as int);
            lemma_bin_has_more(samples, bins, frames, bin, before.maximum as int);
            let i = choose|i: int|
                0 <= i < front.len() && #[trigger] bin_of(i as nat, bins, frames) == bin;
            assert(bin_of(i as nat, bins, frames) == bin && i < samples.len());
        }
    }
}

/// A value of a bin stays one when the channel goes on.
proof fn lemma_bin_has_more(
    samples: Seq<int>,
    bins: nat,
    frames: nat,
    bin: nat,
    value: int,
)
    requires
        samples.len() > 0,
        bin_has(samples.drop_last(), bins, frames, bin, value),
    ensures
        bin_has(samples, bins, frames, bin, value),
{
    let front = samples.drop_last();
    let i = choose|i: int|
        0 <= i < front.len() && bin_of(i as nat, bins, frames) == bin && #[trigger] front[i]
            == value;
    assert(samples[i] == value);
}

/// A complete waveform shows every bin as it was collected: none is empty.
pub proof fn law_complete_waveforms_have_no_empty_bin(samples: Seq<int>, bins: nat, bin: nat)
    requires
        bin < bins <= samples.len(),
        forall|i: int| 0 <= i < samples.len() ==> -32_768 <= #[trigger] samples[i] <= 32_767,
    ensures
        finished_bin(bin_after(samples, bins, samples.len(), bin)) == bin_after(
            samples,
            bins,
            samples.len(),
            bin,
        ),
{
    let frames = samples.len();
    law_every_bin_has_a_frame(bins, frames, bin);
    let frame = choose|frame: nat| falls_into(frame, bins, frames, bin);
    lemma_bin_extremes(samples, bins, frames, bin);
    assert(bin_of(frame, bins, frames) == bin);
    assert(bin_after(samples, bins, frames, bin).minimum <= samples[frame as int]);
}

/// Frames are shared out evenly: a bin begins and ends at its share of the
/// frames, so neighbouring bins differ by at most one frame.
pub proof fn law_bins_have_equal_shares(frame: nat, bins: nat, frames: nat)
    requires
        frame < frames,
        bins > 0,
    ensures
        ({
            let bin = bin_of(frame, bins, frames);
            &&& bin < bins
            &&& bin * frames <= frame * bins < (bin + 1) * frames
        }),
{
    lemma_bin_is_in_range(frame, bins, frames);
    let bin = bin_of(frame, bins, frames);
    vstd::arithmetic::div_mod::lemma_fundamental_div_mod((frame * bins) as int, frames as int);
    let remainder = (frame * bins) % frames;
    assert(bin * frames <= frame * bins && frame * bins < (bin + 1) * frames) by (nonlinear_arith)
        requires
            frame * bins == frames * bin + remainder,
            0 <= remainder < frames,
    ;
}

/// Every sample of the range lies between the extremes of the bin that its frame
/// falls into. The left sample has the first two bytes of a frame and the right
/// sample the last two.
pub proof fn law_waveforms_show_every_sample(
    source: &[u8],
    start: u64,
    end: u64,
    maximum: usize,
    result: Result<ClipWaveform, WaveformError>,
    frame: nat,
    bin: nat,
)
    requires
        call_ensures(load_pcm_waveform, (source, start, end, maximum), result),
        result is Ok,
        start <= frame < end,
        ({
            let bins = result->Ok_0.left@.len();
            bin * (end - start) <= (frame - start) * bins < (bin + 1) * (end - start)
        }),
    ensures
        ({
            let left = result->Ok_0.left@;
            let right = result->Ok_0.right@;
            let at = 4 * frame as int;
            &&& left.len() == right.len()
            &&& left.len() == (if end - start < maximum {
                (end - start) as nat
            } else {
                maximum as nat
            })
            &&& bin < left.len()
            &&& left[bin as int].minimum <= pcm::sample_of(source@[at], source@[at + 1])
                <= left[bin as int].maximum
            &&& right[bin as int].minimum <= pcm::sample_of(source@[at + 2], source@[at + 3])
                <= right[bin as int].maximum
        }),
{
    let frames = (end - start) as nat;
    let bins = result->Ok_0.left@.len();
    let relative = (frame - start) as nat;
    let range = range_of(source@, start as nat, end as nat);
    assert(bins > 0 && bins <= frames);
    law_bins_have_equal_shares(relative, bins, frames);
    let found = bin_of(relative, bins, frames);
    assert(found == bin) by (nonlinear_arith)
        requires
            bin * frames <= relative * bins < (bin + 1) * frames,
            found * frames <= relative * bins < (found + 1) * frames,
            frames > 0,
    ;
    lemma_channels_are_samples(range);
    law_bins_keep_their_extremes(channel_of(range, 0), bins, frames, bin);
    law_bins_keep_their_extremes(channel_of(range, 1), bins, frames, bin);
    assert(channel_of(range, 0)[relative as int] == pcm::sample_of(
        source@[4 * frame as int],
        source@[4 * frame as int + 1],
    ));
    assert(channel_of(range, 1)[relative as int] == pcm::sample_of(
        source@[4 * frame as int + 2],
        source@[4 * frame as int + 3],
    ));
}

/// Samples have sixteen bits.
proof fn lemma_channels_are_samples(bytes: Seq<u8>)
    ensures
        forall|i: int|
            0 <= i < channel_of(bytes, 0).len() ==> -32_768 <= #[trigger] channel_of(bytes, 0)[i]
                <= 32_767,
        forall|i: int|
            0 <= i < channel_of(bytes, 1).len() ==> -32_768 <= #[trigger] channel_of(bytes, 1)[i]
                <= 32_767,
{
}

/// The extremes of a drawn bin are samples of the range, no more than its share
/// of the frames away from each other.
pub proof fn law_extremes_are_samples_of_their_share(
    source: &[u8],
    start: u64,
    end: u64,
    maximum: usize,
    result: Result<ClipWaveform, WaveformError>,
    bin: nat,
)
    requires
        call_ensures(load_pcm_waveform, (source, start, end, maximum), result),
        result is Ok,
        bin < result->Ok_0.left@.len(),
    ensures
        is_in_share(
            source@,
            start as nat,
            end as nat,
            0,
            result->Ok_0.left@.len(),
            bin,
            result->Ok_0.left@[bin as int].minimum as int,
        ),
        is_in_share(
            source@,
            start as nat,
            end as nat,
            0,
            result->Ok_0.left@.len(),
            bin,
            result->Ok_0.left@[bin as int].maximum as int,
        ),
        is_in_share(
            source@,
            start as nat,
            end as nat,
            2,
            result->Ok_0.left@.len(),
            bin,
            result->Ok_0.right@[bin as int].minimum as int,
        ),
        is_in_share(
            source@,
            start as nat,
            end as nat,
            2,
            result->Ok_0.left@.len(),
            bin,
            result->Ok_0.right@[bin as int].maximum as int,
        ),
{
    let bins = result->Ok_0.left@.len();
    lemma_channel_share(source@, start as nat, end as nat, 0, bins, bin);
    lemma_channel_share(source@, start as nat, end as nat, 1, bins, bin);
}

/// Whether a sample at this place in the frames of a share has this value.
pub open spec fn is_in_share(
    source: Seq<u8>,
    start: nat,
    end: nat,
    place: int,
    bins: nat,
    bin: nat,
    value: int,
) -> bool {
    exists|frame: int|
        start <= frame < end && bin * (end - start) <= (frame - start) * bins < (bin + 1) * (end
            - start) && value == #[trigger] pcm::sample_of(
            source[4 * frame + place],
            source[4 * frame + place + 1],
        )
}

/// The extremes of a bin with a frame are samples of its share.
proof fn lemma_channel_share(
    source: Seq<u8>,
    start: nat,
    end: nat,
    side: int,
    bins: nat,
    bin: nat,
)
    requires
        start < end,
        4 * end <= source.len(),
        bin < bins <= end - start,
        0 <= side <= 1,
    ensures
        ({
            let drawn = finished_bin(
                bin_after(
                    channel_of(range_of(source, start, end), side),
                    bins,
                    (end - start) as nat,
                    bin,
                ),
            );
            &&& is_in_share(source, start, end, 2 * side, bins, bin, drawn.minimum as int)
            &&& is_in_share(source, start, end, 2 * side, bins, bin, drawn.maximum as int)
        }),
{
    let frames = (end - start) as nat;
    let range = range_of(source, start, end);
    let samples = channel_of(range, side);
    lemma_channels_are_samples(range);
    law_bins_keep_their_extremes(samples, bins, frames, bin);
    law_every_bin_has_a_frame(bins, frames, bin);
    let frame = choose|frame: nat| falls_into(frame, bins, frames, bin);
    let at = frame as int;
    assert(samples.len() == frames);
    assert(0 <= at < samples.len() && bin_of(at as nat, bins, frames) == bin);
    assert(!gets_nothing(samples, bins, frames, bin));
    let drawn = finished_bin(bin_after(samples, bins, frames, bin));
    lemma_share_of(source, start, end, side, bins, bin, drawn.minimum as int);
    lemma_share_of(source, start, end, side, bins, bin, drawn.maximum as int);
}

/// A value of a bin is a sample of its share.
proof fn lemma_share_of(
    source: Seq<u8>,
    start: nat,
    end: nat,
    side: int,
    bins: nat,
    bin: nat,
    value: int,
)
    requires
        start < end,
        4 * end <= source.len(),
        bins > 0,
        0 <= side <= 1,
        bin_has(
            channel_of(range_of(source, start, end), side),
            bins,
            (end - start) as nat,
            bin,
            value,
        ),
    ensures
        is_in_share(source, start, end, 2 * side, bins, bin, value),
{
    let frames = (end - start) as nat;
    let samples = channel_of(range_of(source, start, end), side);
    let i = choose|i: int|
        0 <= i < samples.len() && bin_of(i as nat, bins, frames) == bin && #[trigger] samples[i]
            == value;
    law_bins_have_equal_shares(i as nat, bins, frames);
    let frame = start + i;
    assert(value == pcm::sample_of(source[4 * frame + 2 * side], source[4 * frame + 2 * side + 1]));
}

/// A waveform is drawn exactly when the range has frames, the display has bins,
/// and the source reaches the end of the range.
pub proof fn law_drawable_ranges_are_drawn(
    source: &[u8],
    start: u64,
    end: u64,
    maximum: usize,
    result: Result<ClipWaveform, WaveformError>,
)
    requires
        call_ensures(load_pcm_waveform, (source, start, end, maximum), result),
    ensures
        result is Ok <==> start < end && maximum > 0 && 4 * end <= source@.len(),
        start >= end ==> result->Err_0 == WaveformError::EmptyRange,
        start < end && maximum == 0 ==> result->Err_0 == WaveformError::NoBins,
        start < end && maximum > 0 && result is Err ==> result->Err_0 is PastEnd
            && result->Err_0->end == end && 4 * result->Err_0->available <= source@.len() < 4
            * result->Err_0->available + 4,
{
}

/// A range is read in blocks of at most 16,384 frames that end with the range.
pub proof fn law_reading_blocks_are_bounded(builder: WaveformBuilder, frames: usize)
    requires
        builder.wf(),
        call_ensures(WaveformBuilder::next_frames, (&builder,), frames),
    ensures
        frames <= 16_384,
        frames <= builder@.frames - builder@.left.len(),
        frames == 16_384 || frames == builder@.frames - builder@.left.len(),
{
}

/// A block of frames goes behind the frames before it: the left samples to the
/// left and the right samples to the right.
pub proof fn law_blocks_go_behind_each_other(
    builder: &mut WaveformBuilder,
    bytes: &[u8],
    frame: nat,
)
    requires
        call_ensures(WaveformBuilder::push_block, (builder, bytes), ()),
        frame < bytes@.len() / 4,
    ensures
        ({
            let before = old(builder)@;
            let after = final(builder)@;
            let at = 4 * frame as int;
            &&& after.left.len() == before.left.len() + bytes@.len() / 4
            &&& after.right.len() == before.right.len() + bytes@.len() / 4
            &&& after.left[before.left.len() + frame as int] == pcm::sample_of(bytes@[at], bytes@[at + 1])
            &&& after.right[before.right.len() + frame as int] == pcm::sample_of(
                bytes@[at + 2],
                bytes@[at + 3],
            )
            &&& after.frames == before.frames && after.bins == before.bins
        }),
{
}

/// Every reason against a waveform has its own message, and the range is checked
/// before the display.
pub proof fn law_waveform_problems_are_told(
    error: WaveformError,
    message: String,
    start: u64,
    end: u64,
    maximum: usize,
    result: Result<(), WaveformError>,
)
    requires
        call_ensures(WaveformError::message, (&error,), message),
        call_ensures(WaveformBuilder::check_request, (start, end, maximum), result),
    ensures
        error is EmptyRange ==> message@ == "the clip waveform range is empty"@,
        error is NoBins ==> message@ == "the clip waveform needs at least one display bin"@,
        error matches WaveformError::PastEnd { available, end } ==> message@
            == "the clip source has "@ + text::decimal(available as nat)
            + " frames, but the selection ends at "@ + text::decimal(end as nat),
        result is Ok <==> start < end && maximum > 0,
        start >= end ==> result == Err::<(), WaveformError>(WaveformError::EmptyRange),
{
}

} // verus!
