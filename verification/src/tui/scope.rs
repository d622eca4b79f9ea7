//! Drawing plan of one channel in the clip editor.
//!
//! Every waveform bin is a vertical line. Lines inside the selection stand out.
//! The positions on the horizontal axis are double-precision numbers, and the
//! plan decides with exactly these numbers which lines are selected.
use vstd::prelude::*;

use crate::binary64;
use crate::binary64::error;
use crate::binary64::order;
use crate::binary64::{count_number, count_ratio, Binary64, Rounded};
use crate::clip;
use crate::clip::peaks::WaveformBin;
use crate::clip::{ClipSelection, SelectionHandle};

verus! {

/// One vertical line of the plan.
#[derive(Clone, Copy, Debug, PartialEq, Eq, Structural)]
pub struct ScopeLine {
    /// Horizontal position.
    pub x: Binary64,
    /// Extremes of the line.
    pub bin: WaveformBin,
    /// Reports whether the line lies in the selection.
    pub selected: bool,
}

/// The drawing plan of one channel.
#[derive(Debug)]
pub struct ScopePlan {
    /// Largest horizontal position.
    pub width: Binary64,
    /// One line per waveform bin.
    pub lines: Vec<ScopeLine>,
    /// Horizontal position of the selection start.
    pub start: Binary64,
    /// Horizontal position of the selection end.
    pub end: Binary64,
    /// Boundary that the arrow keys move.
    pub active: SelectionHandle,
}

/// The largest horizontal position for a number of bins, which is at least one.
pub open spec fn scope_width(bins: nat) -> Rounded {
    binary64::nearest(
        if bins < 2 {
            1
        } else {
            (bins - 1) as nat
        },
        1,
    )
}

/// The horizontal position of a bin.
pub open spec fn bin_position(index: nat, bins: nat) -> Rounded {
    if bins == 1 {
        binary64::nearest(0, 1)
    } else {
        binary64::ratio_value(index, (bins - 1) as nat).multiplied(scope_width(bins))
    }
}

/// The horizontal position of a source position.
pub open spec fn source_position(
    selection: clip::SelectionView,
    position: nat,
    bins: nat,
) -> Rounded {
    selection.normalized(position).multiplied(scope_width(bins))
}

/// Whether the line of a bin lies between the boundaries of the selection.
pub open spec fn is_selected(selection: clip::SelectionView, index: nat, bins: nat) -> bool {
    let x = bin_position(index, bins);
    &&& order::at_most(source_position(selection, selection.start, bins), x)
    &&& order::at_most(x, source_position(selection, selection.end, bins))
}

/// Returns the horizontal position of a bin.
fn position_of(index: usize, bins: usize, width: &Binary64) -> (x: Binary64)
    requires
        index < bins,
        width@ == scope_width(bins as nat),
        width.wf(),
        -60 < width.exponent <= 64,
    ensures
        x@ == bin_position(index as nat, bins as nat),
        x.wf(),
{
    if bins == 1 {
        return count_number(0);
    }
    proof {
        binary64::lemma_zero_ratio((bins - 1) as nat);
    }
    count_ratio(index as u64, (bins - 1) as u64).multiplied(width)
}

/// Plans one full clip channel with its start and end handles. A channel
/// without bins has no plan.
pub fn scope_plan(bins: &Vec<WaveformBin>, selection: &ClipSelection) -> (plan: Option<ScopePlan>)
    ensures
        plan is None <==> bins@.len() == 0,
        plan is Some ==> {
            let drawn = plan->0;
            &&& drawn.width@ == scope_width(bins@.len())
            &&& drawn.start@ == source_position(selection@, selection@.start, bins@.len())
            &&& drawn.end@ == source_position(selection@, selection@.end, bins@.len())
            &&& drawn.active == selection@.active
            &&& drawn.lines@.len() == bins@.len()
            &&& forall|i: int|
                0 <= i < bins@.len() ==> (#[trigger] drawn.lines@[i]).x@ == bin_position(
                    i as nat,
                    bins@.len(),
                ) && drawn.lines@[i].bin == bins@[i] && drawn.lines@[i].selected == is_selected(
                    selection@,
                    i as nat,
                    bins@.len(),
                )
        },
{
    let count: usize = bins.len();
    if count == 0 {
        return None;
    }
    let width = count_number(
        if count < 2 {
            1
        } else {
            (count - 1) as u64
        },
    );
    let start = selection.normalized_start().multiplied(&width);
    let end = selection.normalized_end().multiplied(&width);
    let mut lines: Vec<ScopeLine> = Vec::new();
    let mut index: usize = 0;
    while index < count
        invariant
            index <= count,
            count == bins@.len(),
            width@ == scope_width(bins@.len()),
            width.wf(),
            -60 < width.exponent <= 64,
            start.wf(),
            end.wf(),
            start@ == source_position(selection@, selection@.start, bins@.len()),
            end@ == source_position(selection@, selection@.end, bins@.len()),
            lines@.len() == index,
            forall|i: int|
                0 <= i < index ==> (#[trigger] lines@[i]).x@ == bin_position(i as nat, bins@.len())
                    && lines@[i].bin == bins@[i] && lines@[i].selected == is_selected(
                    selection@,
                    i as nat,
                    bins@.len(),
                ),
        decreases count - index,
    {
        let x = position_of(index, count, &width);
        let selected = start.is_at_most(&x) && x.is_at_most(&end);
        lines.push(ScopeLine { x, bin: bins[index], selected });
        index += 1;
    }
    Some(ScopePlan { width, lines, start, end, active: selection.active_handle() })
}

/// Lines stand in the order of their bins.
pub proof fn law_lines_stand_in_order(left: nat, right: nat, bins: nat)
    requires
        left <= right < bins,
    ensures
        order::at_most(bin_position(left, bins), bin_position(right, bins)),
{
    if bins > 1 {
        order::lemma_ratios_are_monotone(left, right, (bins - 1) as nat);
        order::lemma_products_are_monotone(
            binary64::ratio_value(left, (bins - 1) as nat),
            binary64::ratio_value(right, (bins - 1) as nat),
            scope_width(bins),
        );
    }
}

/// The start of a selection stands in front of its end.
pub proof fn law_boundaries_stand_in_order(selection: clip::SelectionView, bins: nat)
    requires
        selection.wf(),
    ensures
        order::at_most(
            source_position(selection, selection.start, bins),
            source_position(selection, selection.end, bins),
        ),
{
    let length = (selection.source_end - selection.source_start) as nat;
    order::lemma_ratios_are_monotone(
        (selection.start - selection.source_start) as nat,
        (selection.end - selection.source_start) as nat,
        length,
    );
    order::lemma_products_are_monotone(
        selection.normalized(selection.start),
        selection.normalized(selection.end),
        scope_width(bins),
    );
}

/// The selected lines are next to each other: every line between two selected
/// lines is selected too.
pub proof fn law_selected_lines_are_contiguous(
    selection: clip::SelectionView,
    first: nat,
    middle: nat,
    last: nat,
    bins: nat,
)
    requires
        first <= middle <= last < bins,
        is_selected(selection, first, bins),
        is_selected(selection, last, bins),
    ensures
        is_selected(selection, middle, bins),
{
    law_lines_stand_in_order(first, middle, bins);
    law_lines_stand_in_order(middle, last, bins);
    let low = source_position(selection, selection.start, bins);
    let high = source_position(selection, selection.end, bins);
    order::lemma_at_most_is_transitive(low, bin_position(first, bins), bin_position(middle, bins));
    order::lemma_at_most_is_transitive(bin_position(middle, bins), bin_position(last, bins), high);
}

/// The line of a bin stands at the number of the bin, up to the rounding of
/// double precision.
pub proof fn law_lines_stand_at_their_numbers(
    bins: Vec<WaveformBin>,
    selection: ClipSelection,
    plan: Option<ScopePlan>,
    index: int,
)
    requires
        call_ensures(scope_plan, (&bins, &selection), plan),
        plan is Some,
        0 <= index < bins@.len(),
        bins@.len() <= u32::MAX,
    ensures
        plan->0.lines@.len() == bins@.len(),
        plan->0.lines@[index].bin == bins@[index],
        error::is_about(plan->0.lines@[index].x@, index as nat, 1, 14),
        bins@.len() > 1 ==> error::is_about(plan->0.width@, (bins@.len() - 1) as nat, 1, 2),
        bins@.len() == 1 ==> error::is_about(plan->0.width@, 1, 1, 2),
{
    let count = bins@.len();
    let line = plan->0.lines@[index];
    lemma_scope_width(count);
    if count == 1 {
        error::lemma_nearest_is_about(0, 1);
        let x = line.x@;
        error::lemma_more_slack(x.numerator(), x.denominator(), 0, 1, 2, 14);
        error::lemma_more_slack(0, 1, x.numerator(), x.denominator(), 2, 14);
    } else {
        let whole = (count - 1) as nat;
        error::lemma_count_ratio_is_about(index as nat, whole);
        error::lemma_product_is_about(
            binary64::ratio_value(index as nat, whole),
            scope_width(count),
            index as nat,
            whole,
            whole,
            1,
            8,
            2,
        );
        lemma_cancelled(line.x@, index as nat, 1, whole, 14);
    }
}

/// The boundaries of the selection stand at their share of the width, up to the
/// rounding of double precision, and the boundary that the keys move is marked.
pub proof fn law_boundaries_stand_at_their_share(
    bins: Vec<WaveformBin>,
    selection: ClipSelection,
    plan: Option<ScopePlan>,
)
    requires
        call_ensures(scope_plan, (&bins, &selection), plan),
        plan is Some,
        selection@.wf(),
        selection@.source_end <= u64::MAX,
        bins@.len() > 1,
        bins@.len() <= u32::MAX,
    ensures
        ({
            let length = (selection@.source_end - selection@.source_start) as nat;
            let width = (bins@.len() - 1) as nat;
            &&& error::is_about(
                plan->0.start@,
                (selection@.start - selection@.source_start) as nat * width,
                length,
                14,
            )
            &&& error::is_about(
                plan->0.end@,
                (selection@.end - selection@.source_start) as nat * width,
                length,
                14,
            )
            &&& plan->0.active == selection@.active
        }),
{
    let count = bins@.len();
    let length = (selection@.source_end - selection@.source_start) as nat;
    let width = (count - 1) as nat;
    lemma_scope_width(count);
    let first = (selection@.start - selection@.source_start) as nat;
    let last = (selection@.end - selection@.source_start) as nat;
    error::lemma_count_ratio_is_about(first, length);
    error::lemma_count_ratio_is_about(last, length);
    assert(length * 1 == length);
    error::lemma_product_is_about(
        binary64::ratio_value(first, length),
        scope_width(count),
        first,
        length,
        width,
        1,
        8,
        2,
    );
    error::lemma_product_is_about(
        binary64::ratio_value(last, length),
        scope_width(count),
        last,
        length,
        width,
        1,
        8,
        2,
    );
}

/// A line is selected when it stands between the two boundaries of the plan, and
/// the selection of the whole source selects every line.
pub proof fn law_selected_lines_stand_between_the_boundaries(
    bins: Vec<WaveformBin>,
    selection: ClipSelection,
    plan: Option<ScopePlan>,
    index: int,
)
    requires
        call_ensures(scope_plan, (&bins, &selection), plan),
        plan is Some,
        selection@.wf(),
        0 <= index < bins@.len(),
    ensures
        ({
            let line = plan->0.lines@[index];
            &&& line.selected <==> order::at_most(plan->0.start@, line.x@) && order::at_most(
                line.x@,
                plan->0.end@,
            )
            &&& selection@.start == selection@.source_start && selection@.end
                == selection@.source_end ==> line.selected
        }),
{
    let count = bins@.len();
    let line = plan->0.lines@[index];
    if selection@.start == selection@.source_start && selection@.end == selection@.source_end {
        let length = (selection@.source_end - selection@.source_start) as nat;
        lemma_whole_selections_select(length, index as nat, count);
    }
}

/// With both boundaries at the ends of the source, every line lies between them.
proof fn lemma_whole_selections_select(length: nat, index: nat, count: nat)
    requires
        length > 0,
        index < count,
    ensures
        order::at_most(
            binary64::ratio_value(0, length).multiplied(scope_width(count)),
            bin_position(index, count),
        ),
        order::at_most(
            bin_position(index, count),
            binary64::ratio_value(length, length).multiplied(scope_width(count)),
        ),
{
    let width = scope_width(count);
    let low = binary64::ratio_value(0, length);
    let high = binary64::ratio_value(length, length);
    binary64::lemma_zero_ratio(length);
    binary64::lemma_denominator_is_positive(width);
    binary64::lemma_denominator_is_positive(low);
    binary64::lemma_denominator_is_positive(high);
    if low.exponent >= 0 {
        assert(0 * vstd::arithmetic::power2::pow2(low.exponent as nat) == 0) by (nonlinear_arith);
    }
    assert(low.numerator() == 0);
    let share = if count > 1 {
        binary64::ratio_value(index, (count - 1) as nat)
    } else {
        low
    };
    let below = (low.numerator() * width.numerator(), low.denominator() * width.denominator());
    let above = (high.numerator() * width.numerator(), high.denominator() * width.denominator());
    assert(below.0 == 0) by (nonlinear_arith)
        requires
            below.0 == low.numerator() * width.numerator(),
            low.numerator() == 0,
    ;
    assert(below.1 > 0) by (nonlinear_arith)
        requires
            below.1 == low.denominator() * width.denominator(),
            low.denominator() > 0,
            width.denominator() > 0,
    ;
    assert(above.1 > 0) by (nonlinear_arith)
        requires
            above.1 == high.denominator() * width.denominator(),
            high.denominator() > 0,
            width.denominator() > 0,
    ;
    if count == 1 {
        assert(0 * 1 <= 0 * below.1) by (nonlinear_arith);
        order::lemma_nearest_is_monotone(below.0, below.1, 0, 1);
        assert(0 * above.1 <= above.0 * 1) by (nonlinear_arith);
        order::lemma_nearest_is_monotone(0, 1, above.0, above.1);
    } else {
        let whole = (count - 1) as nat;
        let full = binary64::ratio_value(whole, whole);
        assert(0 * share.denominator() <= share.numerator() * low.denominator())
            by (nonlinear_arith);
        order::lemma_products_are_monotone(low, share, width);
        order::lemma_ratios_are_monotone(index, whole, whole);
        order::lemma_products_are_monotone(share, full, width);
        lemma_full_ratios_agree(whole, length);
        order::lemma_products_are_monotone(full, high, width);
        order::lemma_at_most_is_transitive(
            share.multiplied(width),
            full.multiplied(width),
            high.multiplied(width),
        );
    }
}

/// The whole of one count is as much as the whole of another.
proof fn lemma_full_ratios_agree(first: nat, second: nat)
    requires
        first > 0,
        second > 0,
    ensures
        order::at_most(
            binary64::ratio_value(first, first),
            binary64::ratio_value(second, second),
        ),
{
    let a = binary64::nearest(first, 1);
    let b = binary64::nearest(second, 1);
    lemma_counts_are_positive(first);
    lemma_counts_are_positive(second);
    let p = a.numerator() * a.denominator();
    let q = b.numerator() * b.denominator();
    assert(a.denominator() * a.numerator() == p && p > 0) by (nonlinear_arith)
        requires
            p == a.numerator() * a.denominator(),
            a.numerator() > 0,
            a.denominator() > 0,
    ;
    assert(b.denominator() * b.numerator() == q && q > 0) by (nonlinear_arith)
        requires
            q == b.numerator() * b.denominator(),
            b.numerator() > 0,
            b.denominator() > 0,
    ;
    assert(p * q <= q * p) by (nonlinear_arith);
    order::lemma_nearest_is_monotone(p, p, q, q);
}

/// A rounded count is not zero.
proof fn lemma_counts_are_positive(count: nat)
    requires
        count > 0,
    ensures
        binary64::nearest(count, 1).numerator() > 0,
        binary64::nearest(count, 1).denominator() > 0,
{
    let number = binary64::nearest(count, 1);
    let one = Rounded { significand: 1, exponent: 0 };
    vstd::arithmetic::power2::lemma2_to64();
    assert(1 * vstd::arithmetic::power2::pow2(0) == 1);
    assert(one.numerator() * 1 <= count * one.denominator()) by (nonlinear_arith)
        requires
            one.numerator() == 1,
            one.denominator() == 1,
            count > 0,
    ;
    order::lemma_nearest_reaches(one, count, 1);
    binary64::lemma_denominator_is_positive(number);
    assert(one.numerator() * number.denominator() > 0) by (nonlinear_arith)
        requires
            one.numerator() == 1,
            number.denominator() > 0,
    ;
}

/// The width is close to its whole number.
proof fn lemma_scope_width(bins: nat)
    ensures
        error::is_about(
            scope_width(bins),
            if bins < 2 {
                1
            } else {
                (bins - 1) as nat
            },
            1,
            2,
        ),
{
    let whole: nat = if bins < 2 {
        1
    } else {
        (bins - 1) as nat
    };
    error::lemma_ordinary_size(whole, 1);
    error::lemma_nearest_is_about(whole, 1);
}

/// A common factor of both sides of a fraction does not matter.
proof fn lemma_cancelled(number: Rounded, n: nat, d: nat, factor: nat, slack: nat)
    requires
        factor > 0,
        error::is_about(number, n * factor, factor * d, slack),
    ensures
        error::is_about(number, n, d, slack),
{
    let (a, b, p) = (number.numerator(), number.denominator(), error::parts());
    assert(a * d * p <= n * b * (p + slack)) by (nonlinear_arith)
        requires
            a * (factor * d) * p <= (n * factor) * b * (p + slack),
            factor > 0,
    ;
    assert(n * b * p <= a * d * (p + slack)) by (nonlinear_arith)
        requires
            (n * factor) * b * p <= a * (factor * d) * (p + slack),
            factor > 0,
    ;
}

} // verus!
