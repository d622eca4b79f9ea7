//! Positions of a stateful linear resampler.
//!
//! The encoder wants frames at its own rate. Every output frame has a position
//! on the source timeline, and lies between the two source frames around that
//! position. Positions are double-precision numbers that grow by one rounded
//! step per frame. A [`Resampler`] keeps the position across source blocks, so
//! the end of a block does not show in the output.
use vstd::arithmetic::power2;
use vstd::prelude::*;

use crate::binary64;
use crate::binary64::error;
use crate::binary64::order;
use crate::binary64::{nearest_binary64, Binary64, Rounded};
use crate::natural::Natural;

verus! {

/// The number of source frames that a timeline can count exactly.
pub const TIMELINE_FRAMES: u64 = 0x20_0000_0000_0000;

/// The number of output frames that a flush adds at most.
pub const FLUSH_FRAMES: usize = 16;

/// A source frame that an output frame is made of.
#[derive(Clone, Copy, Debug, PartialEq, Eq, Structural)]
pub enum SourceFrame {
    /// The last frame of the block before.
    Previous,
    /// The frame with this index in the current block.
    Current(usize),
}

/// The place of one output frame between two source frames.
#[derive(Clone, Copy, Debug, PartialEq, Eq, Structural)]
pub struct OutputFrame {
    /// Source frame at or in front of the position.
    pub first: SourceFrame,
    /// Source frame behind the position.
    pub second: SourceFrame,
    /// Distance from the first source frame, below one.
    pub fraction: Binary64,
}

/// Places output frames on a continuous source timeline.
#[derive(Clone, Copy, Debug)]
pub struct Resampler {
    source_rate: u32,
    target_rate: u32,
    next_position: Binary64,
    total_source_frames: u64,
}

/// The mathematical value of a [`Resampler`].
pub struct ResamplerView {
    pub source_rate: nat,
    pub target_rate: nat,
    pub position: Rounded,
    pub total: nat,
}

/// The distance between output positions.
pub open spec fn step(source_rate: nat, target_rate: nat) -> Rounded {
    binary64::nearest(source_rate, target_rate)
}

/// The position a number of steps behind a position.
pub open spec fn position_after(start: Rounded, step: Rounded, count: nat) -> Rounded
    decreases count,
{
    if count == 0 {
        start
    } else {
        position_after(start, step, (count - 1) as nat).plus(step)
    }
}

/// Whether the source frames up to `last` are enough for an output frame at a
/// position. The position may exceed the last frame by a rounding error.
pub open spec fn is_due(position: Rounded, last: nat) -> bool {
    order::at_most(position, binary64::nearest(last, 1).plus(order::epsilon()))
}

/// Whether exactly `count` output frames are due when the timeline ends at `end`.
pub open spec fn emits(start: Rounded, step: Rounded, end: nat, count: nat) -> bool {
    &&& forall|i: nat| i < count ==> is_due(#[trigger] position_after(start, step, i), (end - 1) as nat)
    &&& !is_due(position_after(start, step, count), (end - 1) as nat)
}

/// The output frame at a position, for a block of `frames` frames behind `base`
/// frames. The last frame of a block has no frame behind it yet.
pub open spec fn frame_at(position: Rounded, base: nat, frames: nat) -> OutputFrame {
    let index = order::whole_part(position);
    let fraction = order::fraction(position);
    OutputFrame {
        first: if index < base {
            SourceFrame::Previous
        } else {
            SourceFrame::Current((index - base) as usize)
        },
        second: if index < base {
            SourceFrame::Current(0)
        } else if index - base + 1 < frames {
            SourceFrame::Current((index - base + 1) as usize)
        } else {
            SourceFrame::Current((index - base) as usize)
        },
        fraction: Binary64 {
            significand: fraction.significand as u64,
            exponent: fraction.exponent as i32,
        },
    }
}

impl View for Resampler {
    type V = ResamplerView;

    closed spec fn view(&self) -> ResamplerView {
        ResamplerView {
            source_rate: self.source_rate as nat,
            target_rate: self.target_rate as nat,
            position: self.next_position@,
            total: self.total_source_frames as nat,
        }
    }
}

impl ResamplerView {
    /// The distance between output positions.
    pub open spec fn step(self) -> Rounded {
        step(self.source_rate, self.target_rate)
    }

    /// The position a number of output frames ahead.
    pub open spec fn ahead(self, count: nat) -> Rounded {
        position_after(self.position, self.step(), count)
    }

    /// The start of a source timeline.
    pub open spec fn start(source_rate: nat, target_rate: nat) -> ResamplerView {
        ResamplerView {
            source_rate,
            target_rate,
            position: Rounded { significand: 0, exponent: 0 },
            total: 0,
        }
    }

    /// The timeline behind some source frames and some output frames.
    pub open spec fn behind(self, frames: nat, count: nat) -> ResamplerView {
        ResamplerView { position: self.ahead(count), total: self.total + frames, ..self }
    }

    /// Whether so many output frames fill the rest of the timeline, as far as a
    /// flush goes.
    pub open spec fn is_flushed(self, count: nat) -> bool {
        &&& count <= FLUSH_FRAMES
        &&& forall|i: nat| i < count ==> !order::reaches(#[trigger] self.ahead(i), self.total)
        &&& count < FLUSH_FRAMES ==> self.total == 0 || order::reaches(
            self.ahead(count),
            self.total,
        )
        &&& self.total == 0 ==> count == 0
    }
}

/// A position never moves backward.
proof fn lemma_position_grows(position: Rounded, step: Rounded, whole: nat)
    requires
        position.significand <= binary64::SIGNIFICANDS,
        position.exponent >= binary64::FINEST_EXPONENT,
        order::reaches(position, whole),
    ensures
        order::reaches(position.plus(step), whole),
{
    order::lemma_sums_do_not_shrink(position, step);
    binary64::lemma_denominator_is_positive(position);
    let next = position.plus(step);
    let (a, b) = (position.numerator(), position.denominator());
    let (c, d) = (next.numerator(), next.denominator());
    assert(c >= whole * d) by (nonlinear_arith)
        requires
            a * d <= c * b,
            a >= whole * b,
            b > 0,
    ;
}

/// A position that is not due lies behind the last source frame, and one that
/// is due does not reach the frame behind it.
proof fn lemma_due(position: Rounded, last: nat)
    requires
        last < TIMELINE_FRAMES,
    ensures
        is_due(position, last) ==> position.numerator() < (last + 1) * position.denominator(),
        is_due(position, last) && last >= 2 ==> position.numerator() <= last
            * position.denominator(),
        is_due(position, last) && last < 2 ==> position.numerator() * 0x10_0000_0000_0000 <= (last
            * 0x10_0000_0000_0000 + 1) * position.denominator(),
        !is_due(position, last) ==> position.numerator() > last * position.denominator(),
        !is_due(position, last) && last < 2 ==> position.numerator() * 0x10_0000_0000_0000 > (last
            * 0x10_0000_0000_0000 + 1) * position.denominator(),
{
    order::lemma_epsilon(last);
    binary64::lemma_denominator_is_positive(position);
    let limit = binary64::nearest(last, 1).plus(order::epsilon());
    let (a, b) = (position.numerator(), position.denominator());
    let (c, d) = (limit.numerator(), limit.denominator());
    let unit = 0x10_0000_0000_0000nat;
    if last >= 2 {
        assert((a * d <= c * b) == (a <= last * b)) by (nonlinear_arith)
            requires
                c == last * d,
                d > 0,
        ;
        assert(a <= last * b ==> a < (last + 1) * b) by (nonlinear_arith)
            requires
                b > 0,
        ;
    } else {
        let word = last * unit + 1;
        assert((a * d <= c * b) == (a * unit <= word * b)) by (nonlinear_arith)
            requires
                c * unit == word * d,
                d > 0,
                unit > 0,
        ;
        assert(a * unit <= word * b ==> a < (last + 1) * b) by (nonlinear_arith)
            requires
                b > 0,
                word == last * unit + 1,
                unit > 1,
        ;
        assert(a * unit > word * b ==> a > last * b) by (nonlinear_arith)
            requires
                b > 0,
                word == last * unit + 1,
                unit > 1,
        ;
    }
}

/// The next position is finite.
proof fn lemma_next_position(position: Rounded, step: Rounded)
    requires
        position.numerator() <= position.denominator() * power2::pow2(53),
        step.numerator() <= step.denominator() * power2::pow2(53),
    ensures
        !position.plus(step).overflows(),
        position.plus(step).numerator() <= position.plus(step).denominator() * power2::pow2(54),
{
    binary64::lemma_denominator_is_positive(position);
    binary64::lemma_denominator_is_positive(step);
    power2::lemma_pow2_unfold(54);
    let (a, b) = (position.numerator(), position.denominator());
    let (c, d) = (step.numerator(), step.denominator());
    let limit = power2::pow2(53);
    assert(a * d + c * b <= (b * d) * (2 * limit) && b * d > 0) by (nonlinear_arith)
        requires
            a <= b * limit,
            c <= d * limit,
            b > 0,
            d > 0,
    ;
    binary64::lemma_rounding_keeps_limit(a * d + c * b, b * d, 54);
}

/// Reports whether the source frames up to `last` are enough for a position.
fn due(position: &Binary64, last: u64) -> (result: bool)
    requires
        position.wf(),
        position@.is_below_power(64),
        last < TIMELINE_FRAMES,
    ensures
        result == is_due(position@, last as nat),
{
    let (whole, rest) = position.split();
    proof {
        lemma_due(position@, last as nat);
        binary64::lemma_denominator_is_positive(position@);
        vstd::arithmetic::div_mod::lemma_fundamental_div_mod(
            position@.numerator() as int,
            position@.denominator() as int,
        );
        let (a, b) = (position@.numerator(), position@.denominator());
        let (w, r) = (whole as nat, rest.significand as nat);
        assert(a == b * w + r && r < b);
        assert(w < last ==> a < last as nat * b) by (nonlinear_arith)
            requires
                a == b * w + r,
                r < b,
        ;
        assert(w > last ==> a >= (last as nat + 1) * b) by (nonlinear_arith)
            requires
                a == b * w + r,
        ;
        assert(w == last ==> a == last as nat * b + r) by (nonlinear_arith)
            requires
                a == b * w + r,
        ;
        let unit = 0x10_0000_0000_0000nat;
        assert(w == last ==> (a * unit <= (last as nat * unit + 1) * b) == (r * unit <= b))
            by (nonlinear_arith)
            requires
                w == last ==> a == last as nat * b + r,
        ;
        assert(w < last ==> a * unit <= (last as nat * unit + 1) * b) by (nonlinear_arith)
            requires
                w < last ==> a < last as nat * b,
                b > 0,
        ;
        assert((last as nat + 1) * b == last as nat * b + b) by (nonlinear_arith);
    }
    if whole < last {
        true
    } else if whole > last {
        false
    } else if last >= 2 {
        rest.significand == 0
    } else {
        within_epsilon(&rest)
    }
}

/// Reports whether a fraction below one is at most the smallest step behind one.
fn within_epsilon(rest: &Binary64) -> (result: bool)
    requires
        rest.wf(),
        rest.exponent <= 0,
    ensures
        result == (rest.significand as nat * 0x10_0000_0000_0000 <= rest@.denominator()),
{
    proof {
        power2::lemma2_to64();
        power2::lemma2_to64_rest();
    }
    let places: u32 = (-rest.exponent) as u32;
    if places >= 110 {
        proof {
            power2::lemma_pow2_adds(64, 46);
            if places > 110 {
                power2::lemma_pow2_strictly_increases(110, places as nat);
            }
        }
        return true;
    }
    let scale: u128 = binary64::power_word(places);
    rest.significand as u128 * 0x10_0000_0000_0000 <= scale
}

impl Resampler {
    /// Whether the state can place output frames.
    pub closed spec fn wf(self) -> bool {
        &&& self.source_rate > 0
        &&& self.target_rate > 0
        &&& self.next_position.wf()
        &&& self.next_position@.numerator() <= self.next_position@.denominator() * power2::pow2(54)
        &&& self.total_source_frames <= TIMELINE_FRAMES
        &&& self.total_source_frames > 0 ==> order::reaches(
            self.next_position@,
            (self.total_source_frames - 1) as nat,
        )
    }

    /// Creates a resampler at the start of a source timeline.
    pub fn new(source_rate: u32, target_rate: u32) -> (resampler: Resampler)
        requires
            source_rate > 0,
            target_rate > 0,
        ensures
            resampler.wf(),
            resampler@ == ResamplerView::start(source_rate as nat, target_rate as nat),
    {
        proof {
            power2::lemma2_to64();
            power2::lemma_pow2_pos(54);
            assert(0 * power2::pow2(0) == 0) by (nonlinear_arith);
            assert(0 <= 1 * power2::pow2(54)) by (nonlinear_arith)
                requires
                    power2::pow2(54) > 0,
            ;
        }
        Resampler {
            source_rate,
            target_rate,
            next_position: Binary64 { significand: 0, exponent: 0 },
            total_source_frames: 0,
        }
    }

    /// Returns the number of source frames on the timeline.
    pub fn total_source_frames(&self) -> (total: u64)
        ensures
            total == self@.total,
    {
        self.total_source_frames
    }

    /// Returns the distance between output positions.
    fn position_step(&self) -> (result: Binary64)
        requires
            self.wf(),
        ensures
            result@ == self@.step(),
            result.wf(),
            result@.numerator() <= result@.denominator() * power2::pow2(53),
    {
        proof {
            power2::lemma2_to64();
            power2::lemma2_to64_rest();
            let (n, d) = (self.source_rate as nat, self.target_rate as nat);
            let limit = power2::pow2(53);
            assert(n <= d * limit) by (nonlinear_arith)
                requires
                    n <= limit,
                    d >= 1,
            ;
            binary64::lemma_rounding_keeps_limit(n, d, 53);
        }
        match nearest_binary64(
            &Natural::from_word(self.source_rate as u64),
            &Natural::from_word(self.target_rate as u64),
        ) {
            Some(result) => result,
            None => Binary64 { significand: 0, exponent: 0 },
        }
    }

    /// Places the output frames of one source block without resetting the
    /// position. A block without frames changes nothing.
    pub fn process(&mut self, frames: usize) -> (output: Vec<OutputFrame>)
        requires
            old(self).wf(),
            old(self)@.total + frames <= TIMELINE_FRAMES,
        ensures
            final(self).wf(),
            frames == 0 ==> output@.len() == 0 && final(self)@ == old(self)@,
            frames > 0 ==> emits(
                old(self)@.position,
                old(self)@.step(),
                old(self)@.total + frames as nat,
                output@.len(),
            ),
            frames > 0 ==> final(self)@ == old(self)@.behind(frames as nat, output@.len()),
            forall|i: int|
                0 <= i < output@.len() ==> #[trigger] output@[i] == frame_at(
                    old(self)@.ahead(i as nat),
                    old(self)@.total,
                    frames as nat,
                ),
    {
        let mut output: Vec<OutputFrame> = Vec::new();
        if frames == 0 {
            return output;
        }
        let base: u64 = self.total_source_frames;
        let last: u64 = base + frames as u64 - 1;
        let distance = self.position_step();
        let mut position = self.next_position;
        let ghost start = self@;
        proof {
            power2::lemma2_to64();
            power2::lemma2_to64_rest();
            power2::lemma_pow2_unfold(54);
            lemma_below_word(position@);
        }
        while due(&position, last)
            invariant
                start.position == self.next_position@,
                start.total == base,
                start.step() == distance@,
                base + frames - 1 == last,
                frames > 0,
                last < TIMELINE_FRAMES,
                distance.wf(),
                distance@.numerator() <= distance@.denominator() * power2::pow2(53),
                power2::pow2(53) == TIMELINE_FRAMES,
                position.wf(),
                position@.numerator() <= position@.denominator() * power2::pow2(54),
                position@.is_below_power(64),
                base > 0 ==> order::reaches(position@, (base - 1) as nat),
                position@ == start.ahead(output@.len()),
                forall|i: nat|
                    i < output@.len() ==> is_due(#[trigger] start.ahead(i), last as nat),
                forall|i: int|
                    0 <= i < output@.len() ==> #[trigger] output@[i] == frame_at(
                        start.ahead(i as nat),
                        base as nat,
                        frames as nat,
                    ),
            decreases usize::MAX - output@.len(),
        {
            let (index, fraction) = position.split();
            proof {
                lemma_due(position@, last as nat);
                lemma_index(position@, last as nat);
                if base > 0 {
                    lemma_index_reaches(position@, (base - 1) as nat);
                }
            }
            let frame = if index < base {
                OutputFrame {
                    first: SourceFrame::Previous,
                    second: SourceFrame::Current(0),
                    fraction,
                }
            } else {
                let local: usize = (index - base) as usize;
                OutputFrame {
                    first: SourceFrame::Current(local),
                    second: if local + 1 < frames {
                        SourceFrame::Current(local + 1)
                    } else {
                        SourceFrame::Current(local)
                    },
                    fraction,
                }
            };
            proof {
                let (a, b) = (position@.numerator(), position@.denominator());
                let limit = power2::pow2(53);
                assert(a <= b * limit) by (nonlinear_arith)
                    requires
                        a < (last + 1) * b,
                        last + 1 <= limit,
                ;
                lemma_next_position(position@, distance@);
                lemma_below_word(position@.plus(distance@));
                if base > 0 {
                    lemma_position_grows(position@, distance@, (base - 1) as nat);
                }
            }
            let ghost before = output@;
            output.push(frame);
            let _length: usize = output.len();
            position = match position.plus(&distance) {
                Some(next) => next,
                None => position,
            };
            proof {
                assert(output@.len() <= usize::MAX);
                assert forall|i: nat| i < output@.len() implies is_due(
                    #[trigger] start.ahead(i),
                    last as nat,
                ) by {}
                assert forall|i: int| 0 <= i < output@.len() implies #[trigger] output@[i]
                    == frame_at(start.ahead(i as nat), base as nat, frames as nat) by {
                    if i < before.len() {
                        assert(output@[i] == before[i]);
                    }
                }
            }
        }
        self.next_position = position;
        self.total_source_frames = base + frames as u64;
        proof {
            lemma_due(position@, last as nat);
            assert forall|i: nat| i < output@.len() implies is_due(
                #[trigger] position_after(start.position, start.step(), i),
                last as nat,
            ) by {
                assert(is_due(start.ahead(i), last as nat));
            }
        }
        output
    }

    /// Returns the number of output frames that repeat the last source frame
    /// after capture stops. They fill the rest of the timeline, up to
    /// [`FLUSH_FRAMES`].
    pub fn flush(&mut self) -> (count: usize)
        requires
            old(self).wf(),
        ensures
            final(self).wf(),
            final(self)@ == old(self)@.behind(0, count as nat),
            old(self)@.is_flushed(count as nat),
    {
        let total: u64 = self.total_source_frames;
        if total == 0 {
            return 0;
        }
        let distance = self.position_step();
        let mut position = self.next_position;
        let mut count: usize = 0;
        let ghost start = self@;
        proof {
            power2::lemma2_to64();
            power2::lemma2_to64_rest();
            power2::lemma_pow2_unfold(54);
            lemma_below_word(position@);
        }
        while count < FLUSH_FRAMES && position.split().0 < total
            invariant
                0 < total <= TIMELINE_FRAMES,
                start.total == total,
                start.position == self.next_position@,
                start.step() == distance@,
                distance.wf(),
                distance@.numerator() <= distance@.denominator() * power2::pow2(53),
                power2::pow2(53) == TIMELINE_FRAMES,
                position.wf(),
                position@.numerator() <= position@.denominator() * power2::pow2(54),
                position@.is_below_power(64),
                order::reaches(position@, (total - 1) as nat),
                position@ == start.ahead(count as nat),
                count <= FLUSH_FRAMES,
                forall|i: nat|
                    i < count ==> !order::reaches(#[trigger] start.ahead(i), total as nat),
            decreases FLUSH_FRAMES - count,
        {
            proof {
                lemma_whole_part_decides(position@, total as nat);
                let (a, b) = (position@.numerator(), position@.denominator());
                let limit = power2::pow2(53);
                assert(a <= b * limit) by (nonlinear_arith)
                    requires
                        a < total * b,
                        total <= limit,
                ;
                lemma_next_position(position@, distance@);
                lemma_below_word(position@.plus(distance@));
                lemma_position_grows(position@, distance@, (total - 1) as nat);
            }
            position = match position.plus(&distance) {
                Some(next) => next,
                None => position,
            };
            count += 1;
        }
        proof {
            lemma_whole_part_decides(position@, total as nat);
        }
        self.next_position = position;
        count
    }
}

/// A bounded position fits a word.
proof fn lemma_below_word(position: Rounded)
    requires
        position.numerator() <= position.denominator() * power2::pow2(54),
    ensures
        position.is_below_power(64),
{
    binary64::lemma_wider_limit(position, 54, 64);
}

/// The whole part decides whether a number reaches a whole number.
proof fn lemma_whole_part_decides(position: Rounded, whole: nat)
    ensures
        order::reaches(position, whole) <==> order::whole_part(position) >= whole,
{
    binary64::lemma_denominator_is_positive(position);
    let (a, b) = (position.numerator(), position.denominator());
    vstd::arithmetic::div_mod::lemma_fundamental_div_mod(a as int, b as int);
    let w = a / b;
    assert((a >= whole * b) == (w >= whole)) by (nonlinear_arith)
        requires
            a == b * w + a % b,
            0 <= a % b < b,
    ;
}

/// A position that is due has its whole part on the timeline.
proof fn lemma_index(position: Rounded, last: nat)
    requires
        position.numerator() < (last + 1) * position.denominator(),
    ensures
        order::whole_part(position) <= last,
{
    lemma_whole_part_decides(position, last + 1);
}

/// The whole part of a position is at least every whole number that it reaches.
proof fn lemma_index_reaches(position: Rounded, whole: nat)
    requires
        order::reaches(position, whole),
    ensures
        order::whole_part(position) >= whole,
{
    lemma_whole_part_decides(position, whole);
}

/// Steps can be counted from anywhere on the way.
proof fn lemma_steps_join(start: Rounded, step: Rounded, first: nat, second: nat)
    ensures
        position_after(position_after(start, step, first), step, second) == position_after(
            start,
            step,
            first + second,
        ),
    decreases second,
{
    if second > 0 {
        lemma_steps_join(start, step, first, (second - 1) as nat);
    }
}

/// Splitting the source into blocks does not change the output positions: the
/// frames of two blocks in a row are those of one block with both.
pub proof fn law_resampling_is_contiguous_across_blocks(
    start: Rounded,
    step: Rounded,
    middle: nat,
    end: nat,
    first: nat,
    second: nat,
)
    requires
        0 < middle <= end <= TIMELINE_FRAMES,
        emits(start, step, middle, first),
        emits(position_after(start, step, first), step, end, second),
    ensures
        emits(start, step, end, first + second),
{
    let joined = position_after(start, step, first);
    assert forall|i: nat| i < first + second implies is_due(
        #[trigger] position_after(start, step, i),
        (end - 1) as nat,
    ) by {
        if i < first {
            lemma_due_stays(position_after(start, step, i), (middle - 1) as nat, (end - 1) as nat);
        } else {
            lemma_steps_join(start, step, first, (i - first) as nat);
            assert(is_due(position_after(joined, step, (i - first) as nat), (end - 1) as nat));
        }
    }
    lemma_steps_join(start, step, first, second);
}

/// A position that is due stays due when more source frames arrive.
proof fn lemma_due_stays(position: Rounded, last: nat, later: nat)
    requires
        last <= later < TIMELINE_FRAMES,
        is_due(position, last),
    ensures
        is_due(position, later),
{
    lemma_due(position, last);
    lemma_due(position, later);
    binary64::lemma_denominator_is_positive(position);
    let (a, b) = (position.numerator(), position.denominator());
    if last < later {
        assert(a <= later * b) by (nonlinear_arith)
            requires
                a < (last + 1) * b,
                last + 1 <= later,
        ;
        let unit = 0x10_0000_0000_0000nat;
        assert(a * unit <= (later * unit + 1) * b) by (nonlinear_arith)
            requires
                a <= later * b,
                b > 0,
        ;
    }
}

/// Every output frame lies between neighbouring source frames: its first source
/// frame is at its position, and the second follows directly. Only at the end
/// of a block, where no frame follows yet, both are the last frame; the
/// position is then at that frame, up to a rounding error.
pub proof fn law_output_frames_lie_between_neighbours(
    position: Rounded,
    base: nat,
    frames: nat,
)
    requires
        frames > 0,
        base + frames <= TIMELINE_FRAMES,
        frames <= usize::MAX,
        is_due(position, (base + frames - 1) as nat),
        base > 0 ==> order::reaches(position, (base - 1) as nat),
    ensures
        ({
            let frame = frame_at(position, base, frames);
            let index = order::whole_part(position);
            &&& index < base + frames
            &&& frame.first == SourceFrame::Previous ==> index + 1 == base && frame.second
                == SourceFrame::Current(0)
            &&& frame.first != SourceFrame::Previous ==> index >= base && frame.first
                == SourceFrame::Current((index - base) as usize)
            &&& frame.first != SourceFrame::Previous && index + 1 < base + frames ==> frame.second
                == SourceFrame::Current((index - base + 1) as usize)
            &&& index + 1 == base + frames ==> frame.second == frame.first && position.numerator()
                * 0x10_0000_0000_0000 <= (index * 0x10_0000_0000_0000 + 1) * position.denominator()
        }),
{
    let last = (base + frames - 1) as nat;
    lemma_due(position, last);
    lemma_index(position, last);
    if base > 0 {
        lemma_index_reaches(position, (base - 1) as nat);
    }
    binary64::lemma_denominator_is_positive(position);
    let index = order::whole_part(position);
    if index == last && last >= 2 {
        let (a, b) = (position.numerator(), position.denominator());
        let unit = 0x10_0000_0000_0000nat;
        assert(a * unit <= (last * unit + 1) * b) by (nonlinear_arith)
            requires
                a <= last * b,
                b > 0,
        ;
    }
}

/// The source frames of an output frame that is due are in the current block, or
/// the first one is the last frame before it.
pub proof fn lemma_source_frames_exist(position: Rounded, base: nat, frames: nat)
    requires
        frames > 0,
        base + frames <= TIMELINE_FRAMES,
        frames <= usize::MAX,
        is_due(position, (base + frames - 1) as nat),
    ensures
        frame_at(position, base, frames).first == SourceFrame::Previous ==> base > 0,
        frame_at(position, base, frames).first matches SourceFrame::Current(index) ==> index
            < frames,
        frame_at(position, base, frames).second matches SourceFrame::Current(index) && index
            < frames,
{
    let last = (base + frames - 1) as nat;
    lemma_due(position, last);
    lemma_index(position, last);
}

/// A whole position in a block is the place of that source frame.
pub proof fn lemma_whole_position_is_a_frame(
    position: Rounded,
    base: nat,
    frames: nat,
    index: nat,
)
    requires
        index < frames <= usize::MAX,
        order::is_whole(position, base + index),
    ensures
        frame_at(position, base, frames).first == SourceFrame::Current(index as usize),
        frame_at(position, base, frames).second is Current,
        frame_at(position, base, frames).fraction.significand == 0,
{
    binary64::lemma_denominator_is_positive(position);
    let (a, b) = (position.numerator(), position.denominator());
    vstd::arithmetic::div_mod::lemma_fundamental_div_mod_converse(
        a as int,
        b as int,
        (base + index) as int,
        0,
    );
}

/// The number of output frames that are due is unique.
pub proof fn lemma_emitted_count_is_unique(
    start: Rounded,
    step: Rounded,
    end: nat,
    left: nat,
    right: nat,
)
    requires
        emits(start, step, end, left),
        emits(start, step, end, right),
    ensures
        left == right,
{
    if left < right {
        assert(is_due(position_after(start, step, left), (end - 1) as nat));
    } else if right < left {
        assert(is_due(position_after(start, step, right), (end - 1) as nat));
    }
}

/// At equal rates every source frame becomes exactly one output frame.
pub proof fn law_equal_rates_copy_every_frame(start: Rounded, rate: nat, base: nat, frames: nat)
    requires
        rate > 0,
        frames > 0,
        order::is_whole(start, base),
        base + frames < TIMELINE_FRAMES,
    ensures
        emits(start, step(rate, rate), base + frames, frames),
        order::is_whole(position_after(start, step(rate, rate), frames), base + frames),
        forall|i: nat|
            i < frames ==> order::is_whole(
                #[trigger] position_after(start, step(rate, rate), i),
                base + i,
            ),
{
    let one = step(rate, rate);
    assert(1 * rate == rate);
    order::lemma_whole_fractions_are_exact(1, rate);
    assert forall|i: nat| i <= frames implies order::is_whole(
        #[trigger] position_after(start, one, i),
        base + i,
    ) by {
        lemma_whole_positions(start, one, base, i);
    }
    let last = (base + frames - 1) as nat;
    assert forall|i: nat| i < frames implies is_due(
        #[trigger] position_after(start, one, i),
        last,
    ) by {
        let position = position_after(start, one, i);
        lemma_whole_is_due(position, base + i, last);
    }
    let end = position_after(start, one, frames);
    lemma_whole_is_due(end, base + frames, last);
}

/// Steps of one frame keep a whole position whole.
proof fn lemma_whole_positions(start: Rounded, one: Rounded, base: nat, count: nat)
    requires
        order::is_whole(start, base),
        order::is_whole(one, 1),
        base + count < TIMELINE_FRAMES,
    ensures
        order::is_whole(position_after(start, one, count), base + count),
    decreases count,
{
    if count > 0 {
        lemma_whole_positions(start, one, base, (count - 1) as nat);
        order::lemma_whole_sums_are_exact(
            position_after(start, one, (count - 1) as nat),
            one,
            (base + count - 1) as nat,
            1,
        );
    }
}

/// A whole position is due exactly when its frame is on the timeline.
proof fn lemma_whole_is_due(position: Rounded, whole: nat, last: nat)
    requires
        order::is_whole(position, whole),
        last < TIMELINE_FRAMES,
    ensures
        is_due(position, last) <==> whole <= last,
{
    lemma_due(position, last);
    binary64::lemma_denominator_is_positive(position);
    let (a, b) = (position.numerator(), position.denominator());
    if whole <= last {
        assert(a <= last * b) by (nonlinear_arith)
            requires
                a == whole * b,
                whole <= last,
        ;
    } else {
        assert(a >= (last + 1) * b) by (nonlinear_arith)
            requires
                a == whole * b,
                whole >= last + 1,
        ;
    }
}

/// Output frames stand one step of the rates apart: the frame with a number
/// stands at that many source seconds, counted in target frames. The rounding of
/// each step adds three parts in 2^53.
pub proof fn law_output_frames_stand_at_their_time(source_rate: nat, target_rate: nat, count: nat)
    requires
        0 < source_rate <= u32::MAX,
        0 < target_rate <= u32::MAX,
        count <= 0x1_0000_0000_0000,
    ensures
        error::is_about(
            ResamplerView::start(source_rate, target_rate).ahead(count),
            count * source_rate,
            target_rate,
            3 * count + 2,
        ),
    decreases count,
{
    let start = ResamplerView::start(source_rate, target_rate);
    let step = start.step();
    power2::lemma2_to64();
    if count == 0 {
        assert(0 * power2::pow2(0) == 0) by (nonlinear_arith);
        let (n, d) = (start.position.numerator(), start.position.denominator());
        assert(0 * source_rate == 0) by (nonlinear_arith);
        let p = error::parts();
        assert(0 * target_rate * p == 0 && 0 * d * (p + 2) == 0) by (nonlinear_arith);
        assert(0 * d * p == 0 && 0 * target_rate * (p + 2) == 0) by (nonlinear_arith);
    } else {
        let before = (count - 1) as nat;
        law_output_frames_stand_at_their_time(source_rate, target_rate, before);
        error::lemma_ordinary_size(source_rate, target_rate);
        error::lemma_nearest_is_about(source_rate, target_rate);
        let slack = 3 * before + 2;
        let (n, d) = (step.numerator(), step.denominator());
        error::lemma_more_slack(n, d, source_rate, target_rate, 2, slack);
        error::lemma_more_slack(source_rate, target_rate, n, d, 2, slack);
        error::lemma_sum_is_about(
            start.ahead(before),
            step,
            before * source_rate,
            source_rate,
            target_rate,
            slack,
        );
        assert(before * source_rate + source_rate == count * source_rate) by (nonlinear_arith)
            requires
                count == before + 1,
        ;
    }
}

/// A recording keeps its length: so many source frames give as many output
/// frames as the rates ask for. The last output frame still stands in front of
/// the end of the source, and the next one would stand behind its last frame.
pub proof fn law_output_keeps_the_length(
    source_rate: nat,
    target_rate: nat,
    end: nat,
    count: nat,
)
    requires
        0 < source_rate <= u32::MAX,
        0 < target_rate <= u32::MAX,
        0 < end <= TIMELINE_FRAMES,
        count <= 0x1_0000_0000_0000,
        emits(
            ResamplerView::start(source_rate, target_rate).position,
            ResamplerView::start(source_rate, target_rate).step(),
            end,
            count,
        ),
    ensures
        error::about_at_most(
            (end - 1) as nat,
            1,
            count * source_rate,
            target_rate,
            3 * count + 2,
        ),
        count > 0 ==> error::about_at_most(
            (count - 1) as nat * source_rate,
            target_rate,
            end,
            1,
            3 * count + 2,
        ),
{
    let start = ResamplerView::start(source_rate, target_rate);
    let next = start.ahead(count);
    let last = (end - 1) as nat;
    let p = error::parts();
    law_output_frames_stand_at_their_time(source_rate, target_rate, count);
    lemma_due(next, last);
    binary64::lemma_denominator_is_positive(next);
    lemma_below_is_about(last, next.numerator(), next.denominator(), 0);
    lemma_chained(
        last,
        1,
        next.numerator(),
        next.denominator(),
        count * source_rate,
        target_rate,
        3 * count + 2,
    );
    if count > 0 {
        let before = (count - 1) as nat;
        let place = start.ahead(before);
        law_output_frames_stand_at_their_time(source_rate, target_rate, before);
        assert(is_due(place, last));
        lemma_due(place, last);
        binary64::lemma_denominator_is_positive(place);
        let (n, d) = (place.numerator(), place.denominator());
        let slack = 3 * before + 2;
        assert((before * source_rate) * 1 * p <= end * target_rate * (p + slack))
            by (nonlinear_arith)
            requires
                (before * source_rate) * d * p <= n * target_rate * (p + slack),
                n <= end * d,
                d > 0,
        ;
        error::lemma_more_slack(
            before * source_rate,
            target_rate,
            end,
            1,
            slack,
            3 * count + 2,
        );
    }
}

/// A whole number below a fraction.
proof fn lemma_below_is_about(whole: nat, n: nat, d: nat, slack: nat)
    requires
        whole * d <= n,
    ensures
        error::about_at_most(whole, 1, n, d, slack),
{
    let p = error::parts();
    assert(whole * d * p <= n * 1 * (p + slack)) by (nonlinear_arith)
        requires
            whole * d <= n,
    ;
}

/// An exact bound in front of one with slack.
proof fn lemma_chained(n: nat, d: nat, m: nat, e: nat, k: nat, f: nat, slack: nat)
    requires
        e > 0,
        n * e <= m * d,
        error::about_at_most(m, e, k, f, slack),
    ensures
        error::about_at_most(n, d, k, f, slack),
{
    let p = error::parts();
    let q = p + slack;
    assert((n * e) * (f * p) <= (m * d) * (f * p)) by (nonlinear_arith)
        requires
            n * e <= m * d,
    ;
    assert((m * f * p) * d <= (k * e * q) * d) by (nonlinear_arith)
        requires
            m * f * p <= k * e * q,
    ;
    assert((n * e) * (f * p) == e * (n * f * p)) by (nonlinear_arith);
    assert((m * d) * (f * p) == (m * f * p) * d) by (nonlinear_arith);
    assert((k * e * q) * d == e * (k * d * q)) by (nonlinear_arith);
    assert(n * f * p <= k * d * q) by (nonlinear_arith)
        requires
            e * (n * f * p) <= e * (k * d * q),
            e > 0,
    ;
}

/// The place of an output frame is exactly its position: the number of its first
/// source frame and the fraction add up to it, and the fraction is below one.
pub proof fn law_places_are_exact(position: Rounded, base: nat, frames: nat)
    requires
        position.significand <= binary64::SIGNIFICANDS,
        -1074 <= position.exponent <= 0,
        base <= order::whole_part(position) < base + frames,
        frames <= usize::MAX,
    ensures
        ({
            let place = frame_at(position, base, frames);
            let index = base + place.first->Current_0;
            &&& place.first is Current
            &&& place.fraction@.denominator() == position.denominator()
            &&& index * position.denominator() + place.fraction@.numerator()
                == position.numerator()
            &&& place.fraction@.numerator() < place.fraction@.denominator()
        }),
{
    power2::lemma2_to64();
    binary64::lemma_denominator_is_positive(position);
    let (a, b) = (position.numerator(), position.denominator());
    vstd::arithmetic::div_mod::lemma_fundamental_div_mod(a as int, b as int);
    vstd::arithmetic::div_mod::lemma_mod_bound(a as int, b as int);
    let index = order::whole_part(position);
    assert(b * index == index * b) by (nonlinear_arith);
    let rest = a % b;
    if position.exponent == 0 {
        assert(position.significand * 1 == position.significand) by (nonlinear_arith);
        assert(rest * power2::pow2(0) == rest) by (nonlinear_arith)
            requires
                power2::pow2(0) == 1,
        ;
    } else {
        assert(rest <= a);
    }
}

/// A flush fills the timeline to its end, frame by frame, and gives up behind
/// sixteen frames.
pub proof fn law_flushes_reach_the_end(resampler: ResamplerView, count: nat, index: nat)
    requires
        resampler.is_flushed(count),
        index < count,
    ensures
        count <= 16,
        resampler.ahead(index).numerator() < resampler.total * resampler.ahead(
            index,
        ).denominator(),
        count < 16 ==> resampler.ahead(count).numerator() >= resampler.total * resampler.ahead(
            count,
        ).denominator(),
{
    assert(!order::reaches(resampler.ahead(index), resampler.total));
}

/// The first block of a recording keeps its length: it gives as many output frames
/// as the two rates ask for, up to the frame at its end.
pub proof fn law_first_blocks_keep_the_length(
    source_rate: u32,
    target_rate: u32,
    start: Resampler,
    resampler: &mut Resampler,
    frames: usize,
    output: Vec<OutputFrame>,
)
    requires
        source_rate > 0,
        target_rate > 0,
        call_ensures(Resampler::new, (source_rate, target_rate), start),
        *old(resampler) == start,
        call_ensures(Resampler::process, (resampler, frames), output),
        0 < frames <= TIMELINE_FRAMES,
        output@.len() <= 0x1_0000_0000_0000,
    ensures
        error::about_at_most(
            (frames - 1) as nat,
            1,
            output@.len() * source_rate as nat,
            target_rate as nat,
            3 * output@.len() + 2,
        ),
        output@.len() > 0 ==> error::about_at_most(
            (output@.len() - 1) as nat * source_rate as nat,
            target_rate as nat,
            frames as nat,
            1,
            3 * output@.len() + 2,
        ),
        final(resampler)@.total == frames,
{
    law_output_keeps_the_length(
        source_rate as nat,
        target_rate as nat,
        frames as nat,
        output@.len(),
    );
}

/// At equal rates a block has as many output frames as source frames, and every
/// output frame is its source frame.
pub proof fn law_equal_rates_place_every_frame(
    resampler: &mut Resampler,
    frames: usize,
    output: Vec<OutputFrame>,
    index: int,
)
    requires
        call_ensures(Resampler::process, (resampler, frames), output),
        frames > 0,
        old(resampler)@.source_rate == old(resampler)@.target_rate,
        old(resampler)@.source_rate > 0,
        order::is_whole(old(resampler)@.position, old(resampler)@.total),
        old(resampler)@.total + frames < TIMELINE_FRAMES,
        0 <= index < output@.len(),
    ensures
        output@.len() == frames,
        output@[index].first == SourceFrame::Current(index as usize),
        final(resampler)@.total == old(resampler)@.total + frames,
        order::is_whole(final(resampler)@.position, final(resampler)@.total),
{
    let before = old(resampler)@;
    law_equal_rates_copy_every_frame(
        before.position,
        before.source_rate,
        before.total,
        frames as nat,
    );
    lemma_emitted_count_is_unique(
        before.position,
        before.step(),
        before.total + frames as nat,
        output@.len(),
        frames as nat,
    );
    let position = before.ahead(index as nat);
    lemma_whole_position_is_a_frame(position, before.total, frames as nat, index as nat);
    assert(output@[index] == frame_at(position, before.total, frames as nat));
}

/// The end of a recording repeats its last frame until the output has reached the
/// end of the source, and no further.
pub proof fn law_flushed_frames_end_the_timeline(
    resampler: &mut Resampler,
    count: usize,
    index: nat,
)
    requires
        call_ensures(Resampler::flush, (resampler,), count),
        index < count,
    ensures
        count <= 16,
        !order::reaches(old(resampler)@.ahead(index), old(resampler)@.total),
        count < 16 ==> order::reaches(old(resampler)@.ahead(count as nat), old(resampler)@.total),
        final(resampler)@.total == old(resampler)@.total,
{
}

} // verus!
