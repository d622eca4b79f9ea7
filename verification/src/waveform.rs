//! Rolling stereo sample history for the live terminal display.
//!
//! [`Waveform`] retains only the newest samples needed by the six-second scope.
//! It starts with a small allocation and grows with captured audio. This avoids
//! a large allocation before capture starts. Level peaks describe only the most
//! recently pushed block, while channel history spans the configured capacity.
use std::collections::VecDeque;

use vstd::prelude::*;

use crate::sample::Sample;

verus! {

/// Frames that a new history can hold without growing.
pub const STARTUP_CAPACITY: usize = 4_096;

/// Stores bounded left and right sample history plus current level peaks.
#[derive(Debug)]
pub struct Waveform {
    left: VecDeque<Sample>,
    right: VecDeque<Sample>,
    left_peak: Sample,
    right_peak: Sample,
    capacity: usize,
}

/// The mathematical value of a [`Waveform`].
#[verifier::ext_equal]
pub struct WaveformView {
    pub left: Seq<Sample>,
    pub right: Seq<Sample>,
    pub left_peak: Sample,
    pub right_peak: Sample,
    pub capacity: nat,
}

/// A block of samples, each limited to full scale.
pub open spec fn clamped_block(block: Seq<Sample>) -> Seq<Sample> {
    Seq::new(block.len(), |i: int| block[i].clamped())
}

/// The last `capacity` samples of a history.
pub open spec fn newest(history: Seq<Sample>, capacity: nat) -> Seq<Sample> {
    if history.len() <= capacity {
        history
    } else {
        history.skip(history.len() - capacity)
    }
}

/// The largest magnitude in a block of limited samples, or silence.
pub open spec fn peak(block: Seq<Sample>) -> Sample
    decreases block.len(),
{
    if block.len() == 0 {
        Sample { bits: 0 }
    } else {
        let rest = peak(block.drop_last());
        let code = block.last().clamped().code();
        if code > rest.bits {
            Sample { bits: code as u32 }
        } else {
            rest
        }
    }
}

impl WaveformView {
    /// The history after one more stereo block.
    pub open spec fn pushed(self, left: Seq<Sample>, right: Seq<Sample>) -> WaveformView {
        WaveformView {
            left: newest(self.left + clamped_block(left), self.capacity),
            right: newest(self.right + clamped_block(right), self.capacity),
            left_peak: peak(left),
            right_peak: peak(right),
            capacity: self.capacity,
        }
    }

    /// Both channels hold the same number of frames, and at most the capacity.
    pub open spec fn wf(self) -> bool {
        &&& 0 < self.capacity
        &&& self.left.len() == self.right.len()
        &&& self.left.len() <= self.capacity
    }
}

impl View for Waveform {
    type V = WaveformView;

    closed spec fn view(&self) -> WaveformView {
        WaveformView {
            left: self.left@,
            right: self.right@,
            left_peak: self.left_peak,
            right_peak: self.right_peak,
            capacity: self.capacity as nat,
        }
    }
}

impl Waveform {
    /// Creates an empty rolling history with the specified frame capacity.
    pub fn new(capacity: usize) -> (waveform: Waveform)
        requires
            capacity > 0,
        ensures
            waveform@ == (WaveformView {
                left: Seq::empty(),
                right: Seq::empty(),
                left_peak: Sample { bits: 0 },
                right_peak: Sample { bits: 0 },
                capacity: capacity as nat,
            }),
            waveform@.wf(),
    {
        let startup: usize = if capacity < STARTUP_CAPACITY {
            capacity
        } else {
            STARTUP_CAPACITY
        };
        Waveform {
            left: VecDeque::with_capacity(startup),
            right: VecDeque::with_capacity(startup),
            left_peak: Sample::silence(),
            right_peak: Sample::silence(),
            capacity,
        }
    }

    /// Appends one equal-length stereo block and limits samples to full scale.
    pub fn push(&mut self, left: &[Sample], right: &[Sample])
        requires
            left@.len() == right@.len(),
            old(self)@.wf(),
        ensures
            final(self)@ == old(self)@.pushed(left@, right@),
            final(self)@.wf(),
    {
        self.left_peak = Sample::silence();
        self.right_peak = Sample::silence();
        let mut index: usize = 0;
        proof {
            assert(clamped_block(left@.take(0)) =~= Seq::<Sample>::empty());
            assert(clamped_block(right@.take(0)) =~= Seq::<Sample>::empty());
            assert(self.left@ + Seq::<Sample>::empty() =~= self.left@);
            assert(self.right@ + Seq::<Sample>::empty() =~= self.right@);
        }
        while index < left.len()
            invariant
                index <= left.len(),
                left@.len() == right@.len(),
                self@.wf(),
                self@ == old(self)@.pushed(left@.take(index as int), right@.take(index as int)),
            decreases left.len() - index,
        {
            let ghost before = self@;
            if self.left.len() == self.capacity {
                self.left.pop_front();
                self.right.pop_front();
            }
            let left_sample = left[index].finite_sample();
            let right_sample = right[index].finite_sample();
            if left_sample.abs().bits > self.left_peak.bits {
                self.left_peak = left_sample.abs();
            }
            if right_sample.abs().bits > self.right_peak.bits {
                self.right_peak = right_sample.abs();
            }
            self.left.push_back(left_sample);
            self.right.push_back(right_sample);
            index += 1;
            proof {
                let i = index as int;
                assert(left@.take(i).drop_last() =~= left@.take(i - 1));
                assert(right@.take(i).drop_last() =~= right@.take(i - 1));
                lemma_one_more(old(self)@.left, left@.take(i), self@.capacity);
                lemma_one_more(old(self)@.right, right@.take(i), self@.capacity);
                assert(self@.left =~= newest(before.left.push(left_sample), self@.capacity));
                assert(self@.right =~= newest(before.right.push(right_sample), self@.capacity));
                assert(self@ =~= old(self)@.pushed(left@.take(i), right@.take(i)));
            }
        }
        proof {
            assert(left@.take(left@.len() as int) =~= left@);
            assert(right@.take(right@.len() as int) =~= right@);
        }
    }

    /// Borrows the left and right rolling histories.
    pub fn channels(&self) -> (channels: (&VecDeque<Sample>, &VecDeque<Sample>))
        ensures
            channels.0@ == self@.left,
            channels.1@ == self@.right,
    {
        (&self.left, &self.right)
    }

    /// Returns absolute peaks for the most recently pushed block.
    pub fn peaks(&self) -> (peaks: (Sample, Sample))
        ensures
            peaks == (self@.left_peak, self@.right_peak),
    {
        (self.left_peak, self.right_peak)
    }
}

/// Pushing a block one sample at a time keeps the same newest samples.
proof fn lemma_one_more(history: Seq<Sample>, block: Seq<Sample>, capacity: nat)
    requires
        block.len() > 0,
        capacity > 0,
    ensures
        newest(history + clamped_block(block), capacity) == newest(
            newest(history + clamped_block(block.drop_last()), capacity).push(
                block.last().clamped(),
            ),
            capacity,
        ),
{
    let shorter = history + clamped_block(block.drop_last());
    let whole = history + clamped_block(block);
    assert(whole =~= shorter.push(block.last().clamped()));
    let kept = newest(shorter, capacity).push(block.last().clamped());
    assert(newest(whole, capacity) =~= newest(kept, capacity));
}

/// Pushing two blocks keeps the same history as pushing them joined together;
/// the level peaks are those of the second block alone.
pub proof fn law_history_is_contiguous_across_blocks(
    waveform: WaveformView,
    left: Seq<Sample>,
    right: Seq<Sample>,
    next_left: Seq<Sample>,
    next_right: Seq<Sample>,
)
    requires
        waveform.wf(),
    ensures
        ({
            let apart = waveform.pushed(left, right).pushed(next_left, next_right);
            let joined = waveform.pushed(left + next_left, right + next_right);
            &&& apart.left == joined.left
            &&& apart.right == joined.right
            &&& apart.left_peak == peak(next_left)
            &&& apart.right_peak == peak(next_right)
        }),
{
    lemma_blocks_join(waveform.left, left, next_left, waveform.capacity);
    lemma_blocks_join(waveform.right, right, next_right, waveform.capacity);
}

/// The newest samples of two blocks are those of the joined block.
proof fn lemma_blocks_join(
    history: Seq<Sample>,
    block: Seq<Sample>,
    next: Seq<Sample>,
    capacity: nat,
)
    ensures
        newest(newest(history + clamped_block(block), capacity) + clamped_block(next), capacity)
            == newest(history + clamped_block(block + next), capacity),
{
    let whole = history + clamped_block(block + next);
    assert(whole =~= history + clamped_block(block) + clamped_block(next));
    let apart = newest(history + clamped_block(block), capacity) + clamped_block(next);
    assert(newest(apart, capacity) =~= newest(whole, capacity));
}

/// The history never exceeds its capacity, and its last samples are the last
/// samples of the pushed block.
pub proof fn law_history_keeps_the_newest_samples(
    waveform: WaveformView,
    left: Seq<Sample>,
    right: Seq<Sample>,
    back: nat,
)
    requires
        waveform.wf(),
        left.len() == right.len(),
        back < left.len(),
        back < waveform.capacity,
    ensures
        waveform.pushed(left, right).wf(),
        ({
            let after = waveform.pushed(left, right);
            &&& back < after.left.len()
            &&& after.left[after.left.len() - 1 - back] == left[left.len() - 1 - back].clamped()
            &&& after.right[after.right.len() - 1 - back] == right[right.len() - 1
                - back].clamped()
        }),
{
}

/// A level peak is the largest magnitude in its block: no limited sample lies
/// further from zero, and the peak is silence only when every sample is.
pub proof fn law_peak_is_the_largest_magnitude(block: Seq<Sample>)
    ensures
        peak(block).bits <= crate::sample::FULL_SCALE,
        forall|i: int|
            0 <= i < block.len() ==> (#[trigger] block[i]).clamped().magnitude() <= peak(
                block,
            ).magnitude(),
        peak(block).bits == 0 || exists|i: int|
            0 <= i < block.len() && (#[trigger] block[i]).clamped().code() == peak(block).bits,
    decreases block.len(),
{
    if block.len() > 0 {
        let front = block.drop_last();
        law_peak_is_the_largest_magnitude(front);
        let rest = peak(front);
        let code = block.last().clamped().code();
        assert((crate::sample::SIGN + crate::sample::FULL_SCALE) % crate::sample::SIGN as int
            == crate::sample::FULL_SCALE);
        assert(code <= crate::sample::FULL_SCALE);
        if code > rest.bits {
            crate::sample::law_codes_are_ordered_like_magnitudes(rest.code(), code);
            assert(block[block.len() - 1].clamped().code() == peak(block).bits);
        } else {
            if code < rest.bits {
                crate::sample::law_codes_are_ordered_like_magnitudes(code, rest.code());
            }
            if rest.bits != 0 {
                let i = choose|i: int|
                    0 <= i < front.len() && (#[trigger] front[i]).clamped().code() == rest.bits;
                assert(block[i] == front[i]);
            }
        }
        assert forall|i: int| 0 <= i < block.len() implies (
        #[trigger] block[i]).clamped().magnitude() <= peak(block).magnitude() by {
            if i < front.len() {
                assert(block[i] == front[i]);
            }
        }
    }
}

/// The distance between the samples that a bounded display draws.
pub open spec fn point_step(length: nat, maximum: nat) -> nat {
    let points = if maximum < 2 {
        2
    } else {
        maximum
    };
    ((length + points - 1) / points as int) as nat
}

/// Reduces a rolling sample history to a bounded list of display points.
///
/// Each point has its horizontal position and its sample. An empty history
/// draws the line of silence from position zero to position one.
pub fn waveform_points(samples: &VecDeque<Sample>, maximum: usize) -> (points: Vec<(usize, Sample)>)
    ensures
        samples@.len() == 0 ==> points@ == seq![
            (0usize, Sample { bits: 0 }),
            (1usize, Sample { bits: 0 }),
        ],
        samples@.len() > 0 ==> {
            let step = point_step(samples@.len(), maximum as nat);
            &&& step > 0
            &&& (points@.len() - 1) * step < samples@.len() <= points@.len() * step
            &&& forall|i: int|
                0 <= i < points@.len() ==> #[trigger] points@[i] == (
                    i as usize,
                    samples@[i * step],
                )
        },
{
    let length: usize = samples.len();
    let mut points: Vec<(usize, Sample)> = Vec::new();
    if length == 0 {
        points.push((0, Sample::silence()));
        points.push((1, Sample::silence()));
        proof {
            assert(points@ =~= seq![
                (0usize, Sample { bits: 0 }),
                (1usize, Sample { bits: 0 }),
            ]);
        }
        return points;
    }
    let bound: usize = if maximum < 2 {
        2
    } else {
        maximum
    };
    let step: usize = (length - 1) / bound + 1;
    proof {
        lemma_point_step(length as nat, maximum as nat);
        assert(step == point_step(length as nat, maximum as nat));
    }
    let mut position: usize = 0;
    let mut next: usize = 0;
    proof {
        assert(0 * step == 0) by (nonlinear_arith);
    }
    while next < length
        invariant
            length == samples@.len(),
            0 < step,
            position == points@.len(),
            position <= next,
            position == 0 ==> next == 0,
            position > 0 ==> (next == position * step || (next == length && position * step
                >= length)),
            position > 0 ==> (position - 1) * step < length,
            next <= length,
            forall|i: int|
                0 <= i < points@.len() ==> #[trigger] points@[i] == (
                    i as usize,
                    samples@[i * step],
                ),
        decreases length - next,
    {
        points.push((position, samples[next]));
        proof {
            assert(position * step == next) by {
                if position == 0 {
                    assert(0 * step == 0) by (nonlinear_arith);
                }
            }
            assert((position + 1) * step == position * step + step) by (nonlinear_arith);
        }
        position += 1;
        if step >= length - next {
            next = length;
        } else {
            next = next + step;
        }
        proof {
            assert(position <= next) by (nonlinear_arith)
                requires
                    next == length || next == position * step,
                    position >= 1,
                    step > 0,
                    (position - 1) * step < length,
            ;
        }
    }
    points
}

/// Rounding a quotient up equals one more than rounding the reduced quotient down.
proof fn lemma_point_step(length: nat, maximum: nat)
    requires
        length > 0,
    ensures
        point_step(length, maximum) == (length - 1) / (if maximum < 2 {
            2int
        } else {
            maximum as int
        }) + 1,
        point_step(length, maximum) > 0,
{
    let points = if maximum < 2 {
        2int
    } else {
        maximum as int
    };
    vstd::arithmetic::div_mod::lemma_div_plus_one(length - 1, points);
    assert(length + points - 1 == points + (length - 1));
    vstd::arithmetic::div_mod::lemma_div_pos_is_pos(length - 1, points);
}

/// A display never gets more points than its limit.
pub proof fn law_display_points_are_bounded(length: nat, maximum: nat, count: nat)
    requires
        length > 0,
        (count - 1) * point_step(length, maximum) < length,
    ensures
        count <= if maximum < 2 {
            2
        } else {
            maximum
        },
{
    lemma_point_step(length, maximum);
    let points = if maximum < 2 {
        2int
    } else {
        maximum as int
    };
    let step = point_step(length, maximum);
    vstd::arithmetic::div_mod::lemma_fundamental_div_mod(length - 1, points);
    assert(length <= step * points) by (nonlinear_arith)
        requires
            step == (length - 1) / points + 1,
            length - 1 == points * ((length - 1) / points) + (length - 1) % points,
            0 <= (length - 1) % points < points,
    ;
    assert(count <= points) by (nonlinear_arith)
        requires
            (count - 1) * step < length,
            length <= step * points,
            step > 0,
    ;
}

/// Older samples move back by the length of a new block and stay as they are,
/// as far as there is room for them.
pub proof fn law_older_samples_move_back(
    waveform: WaveformView,
    left: Seq<Sample>,
    right: Seq<Sample>,
    back: nat,
)
    requires
        waveform.wf(),
        left.len() == right.len(),
        back < waveform.left.len(),
        left.len() + back < waveform.capacity,
    ensures
        ({
            let after = waveform.pushed(left, right);
            let place = after.left.len() - 1 - left.len() - back;
            &&& 0 <= place
            &&& after.left[place] == waveform.left[waveform.left.len() - 1 - back]
            &&& after.right[place] == waveform.right[waveform.right.len() - 1 - back]
        }),
{
}

/// A history grows by every block until it is full, and is never longer.
pub proof fn law_histories_grow_until_they_are_full(
    waveform: WaveformView,
    left: Seq<Sample>,
    right: Seq<Sample>,
)
    requires
        waveform.wf(),
        left.len() == right.len(),
    ensures
        ({
            let after = waveform.pushed(left, right);
            let whole = waveform.left.len() + left.len();
            &&& after.left.len() == after.right.len()
            &&& whole <= waveform.capacity ==> after.left.len() == whole
            &&& whole > waveform.capacity ==> after.left.len() == waveform.capacity
            &&& after.capacity == waveform.capacity
        }),
{
}

/// The levels of the two channels do not mix, and say nothing of earlier blocks.
pub proof fn law_levels_belong_to_their_channel(
    waveform: WaveformView,
    other: WaveformView,
    left: Seq<Sample>,
    right: Seq<Sample>,
    another: Seq<Sample>,
)
    ensures
        waveform.pushed(left, right).left_peak == other.pushed(left, another).left_peak,
        waveform.pushed(left, right).right_peak == other.pushed(another, right).right_peak,
        waveform.pushed(left, right).left_peak == waveform.pushed(right, left).right_peak,
{
}

/// A history within the limit is drawn whole: one point for every sample.
pub proof fn law_short_histories_are_drawn_whole(
    samples: VecDeque<Sample>,
    maximum: usize,
    points: Vec<(usize, Sample)>,
)
    requires
        call_ensures(waveform_points, (&samples, maximum), points),
        0 < samples@.len() <= maximum || 0 < samples@.len() <= 2,
    ensures
        points@.len() == samples@.len(),
        forall|i: int| 0 <= i < points@.len() ==> #[trigger] points@[i] == (i as usize, samples@[i]),
{
    let length = samples@.len();
    lemma_point_step(length, maximum as nat);
    let bound = if maximum < 2 {
        2int
    } else {
        maximum as int
    };
    assert((length - 1) / bound == 0) by (nonlinear_arith)
        requires
            0 < length <= bound,
    ;
    assert(point_step(length, maximum as nat) == 1);
    assert((points@.len() - 1) * 1 == points@.len() - 1 && points@.len() * 1 == points@.len());
    assert forall|i: int| 0 <= i < points@.len() implies #[trigger] points@[i] == (
        i as usize,
        samples@[i],
    ) by {
        assert(i * 1 == i);
    }
}

/// A longer history is drawn with equal steps from its first sample on. The
/// points stand at the positions zero, one, two, and so on. There are no more
/// than the limit, and no smaller step would do.
pub proof fn law_long_histories_are_drawn_evenly(
    samples: VecDeque<Sample>,
    maximum: usize,
    points: Vec<(usize, Sample)>,
)
    requires
        call_ensures(waveform_points, (&samples, maximum), points),
        samples@.len() > maximum,
        maximum >= 2,
    ensures
        1 <= points@.len() <= maximum,
        points@[0] == (0usize, samples@[0]),
        exists|step: int|
            #![trigger samples@[step]]
            step >= 1 && (step - 1) * maximum < samples@.len() && forall|i: int|
                0 <= i < points@.len() ==> (#[trigger] points@[i]).0 == i && points@[i].1
                    == samples@[i * step],
{
    let length = samples@.len();
    let step = point_step(length, maximum as nat) as int;
    lemma_point_step(length, maximum as nat);
    assert(points@.len() >= 1) by {
        if points@.len() == 0 {
            assert(0 * step == 0) by (nonlinear_arith);
        }
    }
    law_display_points_are_bounded(length, maximum as nat, points@.len());
    assert(0 * step == 0) by (nonlinear_arith);
    assert(points@[0] == (0usize, samples@[0 * step]));
    vstd::arithmetic::div_mod::lemma_fundamental_div_mod(length - 1, maximum as int);
    assert((step - 1) * maximum < length) by (nonlinear_arith)
        requires
            step - 1 == (length - 1) / maximum as int,
            length - 1 == maximum * ((length - 1) / maximum as int) + (length - 1) % maximum as int,
            (length - 1) % maximum as int >= 0,
    ;
    let shown = samples@[step];
}

/// A pushed block ends both histories, in step and limited to full scale, and its
/// levels are those of its own samples.
pub proof fn law_pushed_blocks_end_the_history(
    waveform: &mut Waveform,
    left: &[Sample],
    right: &[Sample],
    back: nat,
)
    requires
        call_ensures(Waveform::push, (waveform, left, right), ()),
        old(waveform)@.wf(),
        left@.len() == right@.len(),
        back < left@.len(),
        back < old(waveform)@.capacity,
    ensures
        ({
            let after = final(waveform)@;
            &&& after.left.len() == after.right.len()
            &&& after.left.len() <= after.capacity && after.capacity == old(waveform)@.capacity
            &&& back < after.left.len()
            &&& after.left[after.left.len() - 1 - back] == left@[left@.len() - 1 - back].clamped()
            &&& after.right[after.right.len() - 1 - back] == right@[right@.len() - 1
                - back].clamped()
            &&& left@[left@.len() - 1 - back].clamped().magnitude() <= after.left_peak.magnitude()
            &&& right@[right@.len() - 1 - back].clamped().magnitude()
                <= after.right_peak.magnitude()
        }),
{
    law_history_keeps_the_newest_samples(old(waveform)@, left@, right@, back);
    law_peak_is_the_largest_magnitude(left@);
    law_peak_is_the_largest_magnitude(right@);
}

/// A new history is empty and silent, and has room for exactly its capacity.
pub proof fn law_new_histories_are_silent(
    capacity: usize,
    waveform: Waveform,
    peaks: (Sample, Sample),
)
    requires
        capacity > 0,
        call_ensures(Waveform::new, (capacity,), waveform),
        call_ensures(Waveform::peaks, (&waveform,), peaks),
    ensures
        waveform@.left.len() == 0 && waveform@.right.len() == 0,
        waveform@.capacity == capacity,
        peaks.0.bits == 0 && peaks.1.bits == 0,
{
}

} // verus!
