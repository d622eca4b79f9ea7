//! Layout of the frequency display.
//!
//! A transform reads a window of the newest samples. The window is filled from
//! its end, so a short history leaves silence in front. The values of the
//! window and its transform are floating-point work of the terminal display.
use vstd::prelude::*;

verus! {

/// Whether a transform size is a power of two with at least one frequency bin.
pub open spec fn is_transform_size(size: nat) -> bool {
    exists|exponent: nat| exponent > 0 && size == #[trigger] vstd::arithmetic::power2::pow2(exponent)
}

/// Reports whether a transform size is a power of two with at least one bin.
pub fn transform_size_is_valid(size: usize) -> (valid: bool)
    ensures
        valid == is_transform_size(size as nat),
{
    let mut rest: usize = size;
    let ghost mut halvings: nat = 0;
    proof {
        vstd::arithmetic::power2::lemma2_to64();
        assert(size as nat == rest as nat * vstd::arithmetic::power2::pow2(0));
    }
    while rest >= 2 && rest % 2 == 0
        invariant
            size as nat == rest as nat * vstd::arithmetic::power2::pow2(halvings),
        decreases rest,
    {
        let ghost before = rest as nat;
        rest = rest / 2;
        proof {
            let scale = vstd::arithmetic::power2::pow2(halvings);
            vstd::arithmetic::power2::lemma_pow2_unfold(halvings + 1);
            assert(before * scale == (before / 2) * (2 * scale)) by (nonlinear_arith)
                requires
                    before % 2 == 0,
            ;
            halvings = halvings + 1;
        }
    }
    proof {
        let scale = vstd::arithmetic::power2::pow2(halvings);
        if size >= 2 && rest == 1 {
            assert(1 * scale == scale);
            if halvings == 0 {
                vstd::arithmetic::power2::lemma2_to64();
            }
            assert(size as nat == vstd::arithmetic::power2::pow2(halvings));
            assert(is_transform_size(size as nat));
        } else if is_transform_size(size as nat) {
            let exponent = choose|exponent: nat|
                exponent > 0 && size as nat == #[trigger] vstd::arithmetic::power2::pow2(exponent);
            lemma_odd_part(rest as nat, halvings, exponent);
            vstd::arithmetic::power2::lemma_pow2_pos((exponent - 1) as nat);
            vstd::arithmetic::power2::lemma_pow2_unfold(exponent);
        }
    }
    size >= 2 && rest == 1
}

/// A power of two has no odd factor but one.
proof fn lemma_odd_part(odd: nat, halvings: nat, exponent: nat)
    requires
        odd < 2 || odd % 2 == 1,
        odd * vstd::arithmetic::power2::pow2(halvings) == vstd::arithmetic::power2::pow2(exponent),
    ensures
        odd == 1,
    decreases halvings,
{
    vstd::arithmetic::power2::lemma_pow2_pos(exponent);
    vstd::arithmetic::power2::lemma2_to64();
    if odd == 0 {
        assert(0 * vstd::arithmetic::power2::pow2(halvings) == 0) by (nonlinear_arith);
    } else if halvings == 0 {
        assert(odd * 1 == odd);
        if exponent > 0 {
            vstd::arithmetic::power2::lemma_pow2_unfold(exponent);
        }
    } else if exponent == 0 {
        vstd::arithmetic::power2::lemma_pow2_unfold(halvings);
        let half = vstd::arithmetic::power2::pow2((halvings - 1) as nat);
        vstd::arithmetic::power2::lemma_pow2_pos((halvings - 1) as nat);
        assert(odd * (2 * half) >= 2) by (nonlinear_arith)
            requires
                odd >= 1,
                half >= 1,
        ;
    } else {
        vstd::arithmetic::power2::lemma_pow2_unfold(halvings);
        vstd::arithmetic::power2::lemma_pow2_unfold(exponent);
        let half = vstd::arithmetic::power2::pow2((halvings - 1) as nat);
        let other = vstd::arithmetic::power2::pow2((exponent - 1) as nat);
        assert(odd * half == other) by (nonlinear_arith)
            requires
                odd * (2 * half) == 2 * other,
        ;
        lemma_odd_part(odd, (halvings - 1) as nat, (exponent - 1) as nat);
    }
}

/// The sample that a slot of the window holds. The last slot holds the newest
/// sample. Slots in front of the whole history hold silence.
pub open spec fn window_sample(samples: nat, size: nat, slot: nat) -> Option<nat> {
    if size - slot > samples {
        None
    } else {
        Some((samples - (size - slot)) as nat)
    }
}

/// Returns the position of the sample that a slot of the window holds.
pub fn window_source(samples: usize, size: usize, slot: usize) -> (position: Option<usize>)
    requires
        slot < size,
    ensures
        position is Some == window_sample(samples as nat, size as nat, slot as nat) is Some,
        position is Some ==> position->0 == window_sample(
            samples as nat,
            size as nat,
            slot as nat,
        )->0 && position->0 < samples,
{
    let distance: usize = size - slot;
    if distance > samples {
        None
    } else {
        Some(samples - distance)
    }
}

/// The window holds the newest samples in their order: neighbouring slots hold
/// neighbouring samples, and the last slot holds the newest one.
pub proof fn law_the_window_holds_the_newest_samples(samples: nat, size: nat, slot: nat)
    requires
        slot < size,
    ensures
        samples > 0 ==> window_sample(samples, size, (size - 1) as nat) == Some(
            (samples - 1) as nat,
        ),
        window_sample(samples, size, slot) is Some && slot + 1 < size ==> window_sample(
            samples,
            size,
            slot + 1,
        ) == Some(window_sample(samples, size, slot)->0 + 1),
        window_sample(samples, size, slot) is None <==> slot + samples < size,
{
}

/// The valid transform sizes are two and its doubles: the double of a valid size
/// is valid, and half of a valid size above two is. No odd size is valid.
pub proof fn law_transform_sizes_are_doubles_of_two(
    size: usize,
    double: usize,
    valid: bool,
    double_valid: bool,
)
    requires
        double == 2 * size,
        call_ensures(transform_size_is_valid, (size,), valid),
        call_ensures(transform_size_is_valid, (double,), double_valid),
    ensures
        size < 2 ==> !valid,
        size == 1 ==> double_valid,
        size >= 2 ==> (valid <==> double_valid),
        size % 2 == 1 ==> !valid,
{
    vstd::arithmetic::power2::lemma2_to64();
    if valid {
        let exponent = choose|exponent: nat|
            exponent > 0 && size as nat == #[trigger] vstd::arithmetic::power2::pow2(exponent);
        vstd::arithmetic::power2::lemma_pow2_unfold(exponent);
        vstd::arithmetic::power2::lemma_pow2_pos((exponent - 1) as nat);
        vstd::arithmetic::power2::lemma_pow2_unfold(exponent + 1);
        assert(double as nat == vstd::arithmetic::power2::pow2(exponent + 1));
    }
    if double_valid {
        let exponent = choose|exponent: nat|
            exponent > 0 && double as nat == #[trigger] vstd::arithmetic::power2::pow2(exponent);
        vstd::arithmetic::power2::lemma_pow2_unfold(exponent);
        assert(size as nat == vstd::arithmetic::power2::pow2((exponent - 1) as nat));
    }
    if size == 1 {
        assert(double as nat == vstd::arithmetic::power2::pow2(1));
    }
}

/// The slots of a window end with the newest sample and go back one by one.
pub proof fn law_slots_count_from_the_end(
    samples: usize,
    size: usize,
    slot: usize,
    position: Option<usize>,
)
    requires
        slot < size,
        call_ensures(window_source, (samples, size, slot), position),
    ensures
        position is Some <==> size - slot <= samples,
        position is Some ==> samples - position->0 == size - slot,
{
}

} // verus!
