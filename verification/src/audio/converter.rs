//! Conversion of source packets to stereo PCM16 at the encoder rate.
//!
//! A [`Converter`] decodes the samples of a packet, keeps the timeline of the
//! resampler, and remembers the last source frame for the next packet. Mixing
//! the channels of a frame and interpolating between two frames is arithmetic
//! on sample values, which the caller passes as functions.
use vstd::prelude::*;

use crate::audio::convert;
use crate::audio::convert::{OutputFrame, Resampler, SourceFrame, TIMELINE_FRAMES};
use crate::audio::wave::{RawSample, SourceFormat};
use crate::binary64::order;
use crate::binary64::{Binary64, Rounded};
use crate::pcm;
use crate::pcm::float_to_i16;
use crate::sample::Sample;

verus! {

/// One frame of both output channels.
#[derive(Clone, Copy, Debug, PartialEq, Eq, Structural)]
pub struct StereoFrame {
    /// Normalized left sample.
    pub left: Sample,
    /// Normalized right sample.
    pub right: Sample,
}

/// The silent frame.
pub open spec fn silent_frame() -> StereoFrame {
    StereoFrame { left: Sample { bits: 0 }, right: Sample { bits: 0 } }
}

/// Contains one converted block for the writer and the display.
#[derive(Debug)]
pub struct ConvertedBlock {
    /// Interleaved stereo PCM16.
    pub pcm: Vec<i16>,
    /// Normalized left samples.
    pub left: Vec<Sample>,
    /// Normalized right samples.
    pub right: Vec<Sample>,
}

impl ConvertedBlock {
    /// The frames of the block.
    pub open spec fn frames(self) -> Seq<StereoFrame> {
        Seq::new(
            self.left@.len(),
            |i: int| StereoFrame { left: self.left@[i], right: self.right@[i] },
        )
    }

    /// Both channels have the same length, and the PCM data holds every frame,
    /// left before right.
    pub open spec fn wf(self) -> bool {
        &&& self.right@.len() == self.left@.len()
        &&& self.pcm@.len() == 2 * self.left@.len()
        &&& forall|i: int|
            #![trigger self.left@[i]]
            #![trigger self.right@[i]]
            0 <= i < self.left@.len() ==> self.pcm@[2 * i] == pcm::pcm_value(self.left@[i])
                && self.pcm@[2 * i + 1] == pcm::pcm_value(self.right@[i])
    }

    /// Creates a block without frames.
    fn new() -> (block: ConvertedBlock)
        ensures
            block.wf(),
            block.frames() == Seq::<StereoFrame>::empty(),
    {
        let block = ConvertedBlock { pcm: Vec::new(), left: Vec::new(), right: Vec::new() };
        proof {
            assert(block.frames() =~= Seq::<StereoFrame>::empty());
        }
        block
    }

    /// Adds one frame.
    fn push(&mut self, frame: StereoFrame)
        requires
            old(self).wf(),
        ensures
            final(self).wf(),
            final(self).frames() == old(self).frames().push(frame),
    {
        let ghost before = *self;
        self.left.push(frame.left);
        self.right.push(frame.right);
        self.pcm.push(float_to_i16(frame.left));
        self.pcm.push(float_to_i16(frame.right));
        proof {
            assert(self.frames() =~= before.frames().push(frame));
            assert forall|i: int| 0 <= i < self.left@.len() implies self.pcm@[2 * i]
                == pcm::pcm_value(#[trigger] self.left@[i]) && self.pcm@[2 * i + 1]
                == pcm::pcm_value(self.right@[i]) by {
                if i < before.left@.len() {
                    assert(before.left@[i] == self.left@[i]);
                    assert(before.right@[i] == self.right@[i]);
                }
            }
        }
    }
}

/// The decoded samples of one frame of a packet.
pub open spec fn decoded_frame(source: SourceFormat, bytes: Seq<u8>, frame: nat) -> Seq<RawSample> {
    Seq::new(
        source.channels as nat,
        |c: int| source.decoded(source.sample_bytes(bytes, frame, c as nat)),
    )
}

/// One source packet.
pub struct PacketView {
    pub source: SourceFormat,
    /// The bytes of the packet. A silent packet has none.
    pub bytes: Option<Seq<u8>>,
}

/// Whether a stereo frame is one frame of a packet, mixed by `mix`. Every frame
/// of a packet without bytes is silent.
pub open spec fn is_mixed<M: Fn(Vec<RawSample>) -> StereoFrame>(
    packet: PacketView,
    mix: M,
    frame: nat,
    mixed: StereoFrame,
) -> bool {
    match packet.bytes {
        None => mixed == silent_frame(),
        Some(bytes) => exists|samples: Vec<RawSample>|
            samples@ == decoded_frame(packet.source, bytes, frame) && #[trigger] call_ensures(
                mix,
                (samples,),
                mixed,
            ),
    }
}

/// Whether a stereo frame is one end of an output frame.
pub open spec fn is_end<M: Fn(Vec<RawSample>) -> StereoFrame>(
    packet: PacketView,
    mix: M,
    previous: Option<StereoFrame>,
    end: SourceFrame,
    mixed: StereoFrame,
) -> bool {
    match end {
        SourceFrame::Previous => previous == Some(mixed),
        SourceFrame::Current(index) => is_mixed(packet, mix, index as nat, mixed),
    }
}

/// Whether a stereo frame is an output frame: `blend` of its two source frames
/// at its fraction.
pub open spec fn is_output<
    M: Fn(Vec<RawSample>) -> StereoFrame,
    B: Fn(StereoFrame, StereoFrame, Binary64) -> StereoFrame,
>(
    packet: PacketView,
    mix: M,
    blend: B,
    previous: Option<StereoFrame>,
    place: OutputFrame,
    output: StereoFrame,
) -> bool {
    exists|first: StereoFrame, second: StereoFrame|
        is_end(packet, mix, previous, place.first, first) && is_end(
            packet,
            mix,
            previous,
            place.second,
            second,
        ) && #[trigger] call_ensures(blend, (first, second, place.fraction), output)
}

/// Whether stereo frames are the output of a packet with so many frames.
pub open spec fn are_outputs<
    M: Fn(Vec<RawSample>) -> StereoFrame,
    B: Fn(StereoFrame, StereoFrame, Binary64) -> StereoFrame,
>(
    before: ConverterView,
    packet: PacketView,
    mix: M,
    blend: B,
    frames: nat,
    output: Seq<StereoFrame>,
) -> bool {
    &&& convert::emits(
        before.timeline.position,
        before.timeline.step(),
        before.timeline.total + frames,
        output.len(),
    )
    &&& forall|i: int|
        0 <= i < output.len() ==> is_output(
            packet,
            mix,
            blend,
            before.previous,
            convert::frame_at(before.timeline.ahead(i as nat), before.timeline.total, frames),
            #[trigger] output[i],
        )
}

/// Converts source packets to stateful stereo PCM16 at the encoder rate.
#[derive(Debug)]
pub struct Converter {
    source: SourceFormat,
    resampler: Resampler,
    previous: Option<StereoFrame>,
}

/// The mathematical value of a [`Converter`].
pub struct ConverterView {
    pub source: SourceFormat,
    pub timeline: convert::ResamplerView,
    /// The last source frame, mixed.
    pub previous: Option<StereoFrame>,
}

impl View for Converter {
    type V = ConverterView;

    closed spec fn view(&self) -> ConverterView {
        ConverterView {
            source: self.source,
            timeline: self.resampler@,
            previous: self.previous,
        }
    }
}

impl Converter {
    /// The source format is valid, and the last source frame is known as soon as
    /// there is one.
    pub closed spec fn wf(self) -> bool {
        &&& self.source.wf()
        &&& self.resampler.wf()
        &&& self.previous is Some <==> self.resampler@.total > 0
    }

    /// Creates an empty converter on a continuous source timeline.
    pub fn new(source: SourceFormat, target_rate: u32) -> (converter: Converter)
        requires
            source.wf(),
            target_rate > 0,
        ensures
            converter.wf(),
            converter@.source == source,
            converter@.timeline == convert::ResamplerView::start(
                source.sample_rate as nat,
                target_rate as nat,
            ),
            converter@.previous is None,
    {
        Converter {
            resampler: Resampler::new(source.sample_rate, target_rate),
            source,
            previous: None,
        }
    }

    /// Returns the number of source frames on the timeline.
    pub fn total_source_frames(&self) -> (total: u64)
        ensures
            total == self@.timeline.total,
    {
        self.resampler.total_source_frames()
    }

    /// Decodes and mixes one frame of a packet.
    fn mix_frame<M: Fn(Vec<RawSample>) -> StereoFrame>(
        &self,
        bytes: Option<&[u8]>,
        frame: usize,
        silent: bool,
        mix: &M,
    ) -> (mixed: StereoFrame)
        requires
            self.wf(),
            !silent && bytes is Some ==> (frame + 1) * self@.source.block_align
                <= bytes->0@.len(),
            forall|samples: Vec<RawSample>| call_requires(*mix, (samples,)),
        ensures
            is_mixed(packet_of(self@.source, bytes, silent), *mix, frame as nat, mixed),
    {
        match self.source.frame_samples(bytes, frame, silent) {
            None => StereoFrame { left: Sample::silence(), right: Sample::silence() },
            Some(samples) => {
                let ghost decoded = samples;
                let mixed = mix(samples);
                proof {
                    assert(decoded@ =~= decoded_frame(self@.source, bytes->0@, frame as nat));
                    assert(call_ensures(*mix, (decoded,), mixed));
                }
                mixed
            },
        }
    }

    /// Mixes one end of an output frame.
    fn mix_end<M: Fn(Vec<RawSample>) -> StereoFrame>(
        &self,
        end: SourceFrame,
        bytes: Option<&[u8]>,
        frames: usize,
        silent: bool,
        mix: &M,
    ) -> (mixed: StereoFrame)
        requires
            self.wf(),
            end == SourceFrame::Previous ==> self@.previous is Some,
            end matches SourceFrame::Current(index) ==> index < frames,
            !silent && bytes is Some ==> frames * self@.source.block_align <= bytes->0@.len(),
            forall|samples: Vec<RawSample>| call_requires(*mix, (samples,)),
        ensures
            is_end(packet_of(self@.source, bytes, silent), *mix, self@.previous, end, mixed),
    {
        match end {
            SourceFrame::Previous => match self.previous {
                Some(previous) => previous,
                None => StereoFrame { left: Sample::silence(), right: Sample::silence() },
            },
            SourceFrame::Current(index) => {
                proof {
                    let align = self@.source.block_align;
                    assert((index + 1) * align <= frames * align) by (nonlinear_arith)
                        requires
                            index + 1 <= frames,
                            align >= 0,
                    ;
                }
                self.mix_frame(bytes, index, silent, mix)
            },
        }
    }

    /// Decodes and resamples one source block without resetting interpolation. A
    /// block without frames changes nothing.
    pub fn process<
        M: Fn(Vec<RawSample>) -> StereoFrame,
        B: Fn(StereoFrame, StereoFrame, Binary64) -> StereoFrame,
    >(
        &mut self,
        bytes: Option<&[u8]>,
        frames: usize,
        silent: bool,
        mix: M,
        blend: B,
    ) -> (block: ConvertedBlock)
        requires
            old(self).wf(),
            old(self)@.timeline.total + frames <= TIMELINE_FRAMES,
            !silent && bytes is Some ==> frames * old(self)@.source.block_align
                <= bytes->0@.len(),
            forall|samples: Vec<RawSample>| call_requires(mix, (samples,)),
            forall|first: StereoFrame, second: StereoFrame, fraction: Binary64|
                call_requires(blend, (first, second, fraction)),
        ensures
            final(self).wf(),
            block.wf(),
            frames == 0 ==> block.frames().len() == 0 && final(self)@ == old(self)@,
            frames > 0 ==> are_outputs(
                old(self)@,
                packet_of(old(self)@.source, bytes, silent),
                mix,
                blend,
                frames as nat,
                block.frames(),
            ),
            frames > 0 ==> final(self)@.source == old(self)@.source && final(self)@.timeline
                == old(self)@.timeline.behind(frames as nat, block.frames().len()),
            frames > 0 ==> final(self)@.previous is Some && is_mixed(
                packet_of(old(self)@.source, bytes, silent),
                mix,
                (frames - 1) as nat,
                final(self)@.previous->0,
            ),
    {
        let mut block = ConvertedBlock::new();
        if frames == 0 {
            return block;
        }
        let ghost before = self@;
        let ghost packet = packet_of(self@.source, bytes, silent);
        let mut resampler = self.resampler;
        let places = resampler.process(frames);
        let mut index: usize = 0;
        while index < places.len()
            invariant
                index <= places.len(),
                frames > 0,
                self.wf(),
                self@ == before,
                packet == packet_of(self@.source, bytes, silent),
                block.wf(),
                block.frames().len() == index,
                before.timeline.total + frames <= TIMELINE_FRAMES,
                !silent && bytes is Some ==> frames * self@.source.block_align
                    <= bytes->0@.len(),
                forall|samples: Vec<RawSample>| call_requires(mix, (samples,)),
                forall|first: StereoFrame, second: StereoFrame, fraction: Binary64|
                    call_requires(blend, (first, second, fraction)),
                convert::emits(
                    before.timeline.position,
                    before.timeline.step(),
                    before.timeline.total + frames as nat,
                    places@.len(),
                ),
                forall|i: int|
                    0 <= i < places@.len() ==> #[trigger] places@[i] == convert::frame_at(
                        before.timeline.ahead(i as nat),
                        before.timeline.total,
                        frames as nat,
                    ),
                forall|i: int|
                    0 <= i < index ==> is_output(
                        packet,
                        mix,
                        blend,
                        before.previous,
                        places@[i],
                        #[trigger] block.frames()[i],
                    ),
            decreases places.len() - index,
        {
            let place = places[index];
            proof {
                let position = before.timeline.ahead(index as nat);
                assert(convert::is_due(
                    convert::position_after(
                        before.timeline.position,
                        before.timeline.step(),
                        index as nat,
                    ),
                    (before.timeline.total + frames - 1) as nat,
                ));
                convert::lemma_source_frames_exist(
                    position,
                    before.timeline.total,
                    frames as nat,
                );
            }
            let first = self.mix_end(place.first, bytes, frames, silent, &mix);
            let second = self.mix_end(place.second, bytes, frames, silent, &mix);
            let output = blend(first, second, place.fraction);
            let ghost earlier = block.frames();
            block.push(output);
            proof {
                assert(call_ensures(blend, (first, second, place.fraction), output));
                assert forall|i: int| 0 <= i < index + 1 implies is_output(
                    packet,
                    mix,
                    blend,
                    before.previous,
                    places@[i],
                    #[trigger] block.frames()[i],
                ) by {
                    if i < index {
                        assert(block.frames()[i] == earlier[i]);
                    }
                }
            }
            index += 1;
        }
        proof {
            let align = self@.source.block_align;
            assert((frames - 1 + 1) * align == frames * align);
        }
        let last = self.mix_frame(bytes, frames - 1, silent, &mix);
        self.resampler = resampler;
        self.previous = Some(last);
        proof {
            assert forall|i: int| 0 <= i < block.frames().len() implies is_output(
                packet,
                mix,
                blend,
                before.previous,
                convert::frame_at(
                    before.timeline.ahead(i as nat),
                    before.timeline.total,
                    frames as nat,
                ),
                #[trigger] block.frames()[i],
            ) by {
                assert(places@[i] == convert::frame_at(
                    before.timeline.ahead(i as nat),
                    before.timeline.total,
                    frames as nat,
                ));
            }
        }
        block
    }

    /// Emits the last source frame for the rest of the timeline after capture
    /// stops.
    pub fn flush(&mut self) -> (block: ConvertedBlock)
        requires
            old(self).wf(),
        ensures
            final(self).wf(),
            block.wf(),
            old(self)@.timeline.is_flushed(block.frames().len()),
            final(self)@.timeline == old(self)@.timeline.behind(0, block.frames().len()),
            final(self)@.source == old(self)@.source,
            final(self)@.previous == old(self)@.previous,
            forall|i: int|
                0 <= i < block.frames().len() ==> Some(#[trigger] block.frames()[i])
                    == old(self)@.previous,
    {
        let ghost before = self@;
        let mut block = ConvertedBlock::new();
        let mut resampler = self.resampler;
        let count: usize = resampler.flush();
        match self.previous {
            None => {},
            Some(previous) => {
                let mut index: usize = 0;
                while index < count
                    invariant
                        index <= count,
                        block.wf(),
                        block.frames().len() == index,
                        forall|i: int|
                            0 <= i < index ==> #[trigger] block.frames()[i] == previous,
                    decreases count - index,
                {
                    block.push(previous);
                    index += 1;
                }
            },
        }
        self.resampler = resampler;
        block
    }
}

/// A packet with its source format. A silent packet has no bytes.
pub open spec fn packet_of(source: SourceFormat, bytes: Option<&[u8]>, silent: bool) -> PacketView {
    PacketView {
        source,
        bytes: match bytes {
            Some(bytes) => if silent {
                None
            } else {
                Some(bytes@)
            },
            None => None,
        },
    }
}

/// Whether mixing always gives one frame for each frame of a packet.
pub open spec fn mixes_to<M: Fn(Vec<RawSample>) -> StereoFrame>(
    packet: PacketView,
    mix: M,
    mixed: spec_fn(nat) -> StereoFrame,
) -> bool {
    forall|frame: nat, value: StereoFrame|
        #[trigger] is_mixed(packet, mix, frame, value) ==> value == mixed(frame)
}

/// Whether a blend without a distance is its first frame, for frames that the
/// mix of a packet gives.
pub open spec fn keeps_the_first<
    M: Fn(Vec<RawSample>) -> StereoFrame,
    B: Fn(StereoFrame, StereoFrame, Binary64) -> StereoFrame,
>(packet: PacketView, mix: M, blend: B) -> bool {
    forall|
        one: nat,
        other: nat,
        first: StereoFrame,
        second: StereoFrame,
        fraction: Binary64,
        value: StereoFrame,
    |
        #![trigger is_mixed(packet, mix, one, first), is_mixed(packet, mix, other, second), call_ensures(blend, (first, second, fraction), value)]
        is_mixed(packet, mix, one, first) && is_mixed(packet, mix, other, second)
            && fraction.significand == 0 && call_ensures(blend, (first, second, fraction), value)
            ==> value == first
}

impl ConverterView {
    /// Whether the encoder has the rate of the source, and the next output frame
    /// is the next source frame.
    pub open spec fn in_step(self) -> bool {
        &&& self.timeline.source_rate == self.timeline.target_rate
        &&& self.timeline.source_rate > 0
        &&& order::is_whole(self.timeline.position, self.timeline.total)
    }
}

/// A new converter between equal rates is in step.
pub proof fn law_equal_rates_start_in_step(rate: nat)
    requires
        rate > 0,
    ensures
        order::is_whole(convert::ResamplerView::start(rate, rate).position, 0),
{
    let start = convert::ResamplerView::start(rate, rate).position;
    assert(0 * vstd::arithmetic::power2::pow2(0) == 0) by (nonlinear_arith);
    assert(0 * start.denominator() == 0) by (nonlinear_arith);
}

/// At equal rates a block comes out as it went in, and the next block continues
/// directly behind it, so that it does not matter how the source is cut into
/// blocks: every source frame gives one output frame, which is that frame, mixed.
pub proof fn law_equal_rates_pass_frames_through<
    M: Fn(Vec<RawSample>) -> StereoFrame,
    B: Fn(StereoFrame, StereoFrame, Binary64) -> StereoFrame,
>(
    before: ConverterView,
    packet: PacketView,
    mix: M,
    blend: B,
    frames: nat,
    output: Seq<StereoFrame>,
    mixed: spec_fn(nat) -> StereoFrame,
)
    requires
        before.in_step(),
        0 < frames <= usize::MAX,
        before.timeline.total + frames < TIMELINE_FRAMES,
        are_outputs(before, packet, mix, blend, frames, output),
        mixes_to(packet, mix, mixed),
        keeps_the_first(packet, mix, blend),
    ensures
        output == Seq::new(frames, |i: int| mixed(i as nat)),
        (ConverterView {
            timeline: before.timeline.behind(frames, output.len()),
            ..before
        }).in_step(),
{
    let rate = before.timeline.source_rate;
    let base = before.timeline.total;
    let start = before.timeline.position;
    let step = before.timeline.step();
    convert::law_equal_rates_copy_every_frame(start, rate, base, frames);
    convert::lemma_emitted_count_is_unique(start, step, base + frames, output.len(), frames);
    assert forall|i: int| 0 <= i < frames implies output[i] == mixed(i as nat) by {
        let position = convert::position_after(start, step, i as nat);
        assert(before.timeline.ahead(i as nat) == position);
        let place = convert::frame_at(position, base, frames);
        convert::lemma_whole_position_is_a_frame(position, base, frames, i as nat);
        assert(is_output(packet, mix, blend, before.previous, place, output[i]));
        let (first, second) = choose|first: StereoFrame, second: StereoFrame|
            is_end(packet, mix, before.previous, place.first, first) && is_end(
                packet,
                mix,
                before.previous,
                place.second,
                second,
            ) && #[trigger] call_ensures(blend, (first, second, place.fraction), output[i]);
        assert(is_mixed(packet, mix, i as nat, first));
        let other = place.second->Current_0 as nat;
        assert(is_mixed(packet, mix, other, second));
        assert(call_ensures(blend, (first, second, place.fraction), output[i]));
    }
    assert(output =~= Seq::new(frames, |i: int| mixed(i as nat)));
}

/// Silence has no signal in either channel.
pub proof fn law_silence_has_no_signal()
    ensures
        silent_frame().left.bits == 0,
        silent_frame().right.bits == 0,
{
}

/// A packet that is marked as silent, or has no bytes, is silent in every frame.
/// Any other packet is mixed from the samples of its frames, one for each
/// channel.
pub proof fn law_packets_are_mixed_frame_by_frame<M: Fn(Vec<RawSample>) -> StereoFrame>(
    source: SourceFormat,
    bytes: Option<&[u8]>,
    silent: bool,
    mix: M,
    frame: nat,
    mixed: StereoFrame,
)
    requires
        is_mixed(packet_of(source, bytes, silent), mix, frame, mixed),
    ensures
        silent || bytes is None ==> mixed == silent_frame(),
        !silent && bytes is Some ==> exists|samples: Vec<RawSample>| #[trigger]
            call_ensures(mix, (samples,), mixed) && samples@.len() == source.channels && forall|
                c: int,
            |
                0 <= c < source.channels ==> #[trigger] samples@[c] == source.decoded(
                    source.sample_bytes(bytes->0@, frame, c as nat),
                ),
{
    if !silent && bytes is Some {
        let data = bytes->0@;
        let samples = choose|samples: Vec<RawSample>|
            samples@ == decoded_frame(source, data, frame) && #[trigger] call_ensures(
                mix,
                (samples,),
                mixed,
            );
        assert(call_ensures(mix, (samples,), mixed));
    }
}

/// Packets are joined without a seam: an output frame between two packets is the
/// blend of the last frame of the one and the first frame of the other.
pub proof fn law_packets_are_joined<
    M: Fn(Vec<RawSample>) -> StereoFrame,
    B: Fn(StereoFrame, StereoFrame, Binary64) -> StereoFrame,
>(
    packet: PacketView,
    mix: M,
    blend: B,
    previous: StereoFrame,
    position: Rounded,
    base: nat,
    frames: nat,
    output: StereoFrame,
)
    requires
        order::whole_part(position) + 1 == base,
        is_output(
            packet,
            mix,
            blend,
            Some(previous),
            convert::frame_at(position, base, frames),
            output,
        ),
    ensures
        exists|second: StereoFrame|
            is_mixed(packet, mix, 0, second) && #[trigger] call_ensures(
                blend,
                (previous, second, convert::frame_at(position, base, frames).fraction),
                output,
            ),
{
    let place = convert::frame_at(position, base, frames);
    let (first, second) = choose|first: StereoFrame, second: StereoFrame|
        is_end(packet, mix, Some(previous), place.first, first) && is_end(
            packet,
            mix,
            Some(previous),
            place.second,
            second,
        ) && #[trigger] call_ensures(blend, (first, second, place.fraction), output);
    assert(first == previous);
    assert(is_mixed(packet, mix, 0, second));
    assert(call_ensures(blend, (previous, second, place.fraction), output));
}

/// Inside of a packet, an output frame is the blend of the two source frames
/// around its position, in their order.
pub proof fn law_outputs_blend_their_neighbours<
    M: Fn(Vec<RawSample>) -> StereoFrame,
    B: Fn(StereoFrame, StereoFrame, Binary64) -> StereoFrame,
>(
    packet: PacketView,
    mix: M,
    blend: B,
    previous: Option<StereoFrame>,
    position: Rounded,
    base: nat,
    frames: nat,
    output: StereoFrame,
)
    requires
        frames <= usize::MAX,
        base <= order::whole_part(position),
        order::whole_part(position) + 1 < base + frames,
        is_output(
            packet,
            mix,
            blend,
            previous,
            convert::frame_at(position, base, frames),
            output,
        ),
    ensures
        exists|first: StereoFrame, second: StereoFrame|
            is_mixed(packet, mix, (order::whole_part(position) - base) as nat, first) && is_mixed(
                packet,
                mix,
                (order::whole_part(position) + 1 - base) as nat,
                second,
            ) && #[trigger] call_ensures(
                blend,
                (first, second, convert::frame_at(position, base, frames).fraction),
                output,
            ),
{
    let place = convert::frame_at(position, base, frames);
    let (first, second) = choose|first: StereoFrame, second: StereoFrame|
        is_end(packet, mix, previous, place.first, first) && is_end(
            packet,
            mix,
            previous,
            place.second,
            second,
        ) && #[trigger] call_ensures(blend, (first, second, place.fraction), output);
    assert(call_ensures(blend, (first, second, place.fraction), output));
}

} // verus!
