//! Comparisons, whole parts, and the order that rounding keeps.
use vstd::arithmetic::power2;
use vstd::prelude::*;

use super::{power_word, sum, Binary64, Rounded, FINEST_EXPONENT, SIGNIFICANDS};
use crate::binary64;

verus! {

/// Whether one number is at most another.
pub open spec fn at_most(left: Rounded, right: Rounded) -> bool {
    left.numerator() * right.denominator() <= right.numerator() * left.denominator()
}

/// Whether a number is exactly a whole number.
pub open spec fn is_whole(number: Rounded, whole: nat) -> bool {
    number.numerator() == whole * number.denominator()
}

/// Whether a number is at least a whole number.
pub open spec fn reaches(number: Rounded, whole: nat) -> bool {
    number.numerator() >= whole * number.denominator()
}

/// The whole part of a number.
pub open spec fn whole_part(number: Rounded) -> nat {
    number.numerator() / number.denominator()
}

/// The part of a number behind its whole part.
pub open spec fn fraction(number: Rounded) -> Rounded {
    Rounded {
        significand: number.numerator() % number.denominator(),
        exponent: if number.exponent < 0 {
            number.exponent
        } else {
            0
        },
    }
}

/// A number that is at most one that is at most a third is at most the third.
pub proof fn lemma_at_most_is_transitive(low: Rounded, middle: Rounded, high: Rounded)
    requires
        at_most(low, middle),
        at_most(middle, high),
    ensures
        at_most(low, high),
{
    binary64::lemma_denominator_is_positive(low);
    binary64::lemma_denominator_is_positive(middle);
    binary64::lemma_denominator_is_positive(high);
    let (a, b) = (low.numerator(), low.denominator());
    let (c, d) = (middle.numerator(), middle.denominator());
    let (e, f) = (high.numerator(), high.denominator());
    assert(a * f <= e * b) by (nonlinear_arith)
        requires
            a * d <= c * b,
            c * f <= e * d,
            b > 0,
            d > 0,
            f > 0,
    ;
}

/// Equal exponents compare by their significands.
proof fn lemma_same_exponent(left: nat, right: nat, exponent: int)
    requires
        left <= right,
    ensures
        (Rounded { significand: left, exponent }).numerator() <= (Rounded {
            significand: right,
            exponent,
        }).numerator(),
{
    if exponent >= 0 {
        let scale = power2::pow2(exponent as nat);
        assert(left * scale <= right * scale) by (nonlinear_arith)
            requires
                left <= right,
        ;
    }
}

/// Rounding a fraction to a whole number does not go below a whole number
/// that the fraction reaches.
proof fn lemma_rounding_is_above(numerator: nat, denominator: nat, limit: nat)
    requires
        denominator > 0,
        limit * denominator <= numerator,
    ensures
        limit <= binary64::round_half_even(numerator, denominator),
{
    assert(limit <= numerator / denominator) by (nonlinear_arith)
        requires
            denominator > 0,
            limit * denominator <= numerator,
    ;
}

/// Rounding does not go below a number of the format that the fraction reaches.
pub proof fn lemma_nearest_reaches(number: Rounded, n: nat, d: nat)
    requires
        d > 0,
        number.significand <= SIGNIFICANDS,
        number.exponent >= FINEST_EXPONENT,
        number.numerator() * d <= n * number.denominator(),
    ensures
        at_most(number, binary64::nearest(n, d)),
{
    binary64::lemma_spacing_exists(n, d, FINEST_EXPONENT as int);
    let spacing = binary64::spacing(n, d);
    assert(binary64::is_spacing(n, d, spacing));
    let result = binary64::nearest(n, d);
    let exponent = number.exponent;
    let sn = binary64::scaled_numerator(n, spacing);
    let sd = binary64::scaled_denominator(d, spacing);
    binary64::lemma_scaled_denominator_is_positive(d, spacing);
    if spacing <= exponent {
        let count = number.significand * power2::pow2((exponent - spacing) as nat);
        let same = Rounded { significand: count, exponent: spacing };
        sum::lemma_finer(number.significand, exponent, spacing);
        sum::lemma_in_spacings(count, spacing, spacing);
        power2::lemma2_to64();
        assert(count * 1 == count);
        let (a, b) = (number.numerator(), number.denominator());
        let (p, q) = (same.numerator(), same.denominator());
        assert(p * d <= n * q) by (nonlinear_arith)
            requires
                a * d <= n * b,
                a * q == p * b,
                b > 0,
                q > 0,
        ;
        let sp = binary64::scaled_numerator(p, spacing);
        let sq = binary64::scaled_denominator(q, spacing);
        assert(sp * sd <= sn * sq) by {
            if spacing < 0 {
                let scale = power2::pow2((-spacing) as nat);
                assert(p * scale * d <= n * scale * q) by (nonlinear_arith)
                    requires
                        p * d <= n * q,
                ;
            } else {
                let scale = power2::pow2(spacing as nat);
                assert(p * (d * scale) <= n * (q * scale)) by (nonlinear_arith)
                    requires
                        p * d <= n * q,
                ;
            }
        }
        assert(sp == count * sq) by (nonlinear_arith)
            requires
                sp * 1 == count * sq,
        ;
        assert(count * sd <= sn) by (nonlinear_arith)
            requires
                sp * sd <= sn * sq,
                sp == count * sq,
                sq > 0,
        ;
        lemma_rounding_is_above(sn, sd, count);
        lemma_same_exponent(count, result.significand, spacing);
        let r = result.numerator();
        assert(a * q <= r * b) by (nonlinear_arith)
            requires
                a * q == p * b,
                p <= r,
        ;
    } else {
        binary64::lemma_fits_at_next(n, d, spacing - 1);
        let half = 0x10_0000_0000_0000nat;
        assert(half * sd <= sn) by (nonlinear_arith)
            requires
                2 * sn >= sd * (2 * half),
        ;
        lemma_rounding_is_above(sn, sd, half);
        let up = power2::pow2((spacing - exponent) as nat);
        power2::lemma2_to64();
        if spacing - exponent > 1 {
            power2::lemma_pow2_strictly_increases(1, (spacing - exponent) as nat);
        }
        assert(number.significand <= half * up) by (nonlinear_arith)
            requires
                number.significand <= 2 * half,
                up >= 2,
        ;
        sum::lemma_finer(half, spacing, exponent);
        lemma_same_exponent(number.significand, half * up, exponent);
        lemma_same_exponent(half, result.significand, spacing);
        let (a, b) = (number.numerator(), number.denominator());
        let least = Rounded { significand: half, exponent: spacing };
        let same = Rounded { significand: half * up, exponent };
        let (l, q) = (least.numerator(), least.denominator());
        let r = result.numerator();
        let s = same.numerator();
        assert(a * q <= r * b) by (nonlinear_arith)
            requires
                l * b == s * q,
                a <= s,
                l <= r,
        ;
    }
}

/// Rounding to a whole number keeps the order of fractions.
proof fn lemma_rounding_is_monotone(n: nat, d: nat, m: nat, e: nat)
    requires
        d > 0,
        e > 0,
        n * e <= m * d,
    ensures
        binary64::round_half_even(n, d) <= binary64::round_half_even(m, e),
{
    vstd::arithmetic::div_mod::lemma_fundamental_div_mod(n as int, d as int);
    vstd::arithmetic::div_mod::lemma_fundamental_div_mod(m as int, e as int);
    let (q, r) = (n / d, n % d);
    let (p, s) = (m / e, m % e);
    assert(q <= p) by (nonlinear_arith)
        requires
            n * e <= m * d,
            n == d * q + r,
            m == e * p + s,
            0 <= r < d,
            0 <= s < e,
    ;
    if q == p {
        assert(r * e <= s * d) by (nonlinear_arith)
            requires
                n * e <= m * d,
                n == d * q + r,
                m == e * p + s,
                q == p,
        ;
        assert((2 * r > d ==> 2 * s > e) && (2 * r == d ==> 2 * s >= e)) by (nonlinear_arith)
            requires
                r * e <= s * d,
                d > 0,
                e > 0,
        ;
    }
}

/// Rounding to double precision keeps the order of fractions.
pub proof fn lemma_nearest_is_monotone(n: nat, d: nat, m: nat, e: nat)
    requires
        d > 0,
        e > 0,
        n * e <= m * d,
    ensures
        at_most(binary64::nearest(n, d), binary64::nearest(m, e)),
{
    binary64::lemma_spacing_exists(n, d, FINEST_EXPONENT as int);
    binary64::lemma_spacing_exists(m, e, FINEST_EXPONENT as int);
    let low = binary64::nearest(n, d);
    let high = binary64::nearest(m, e);
    let (k, l) = (low.exponent, high.exponent);
    assert(binary64::is_spacing(n, d, k));
    assert(binary64::is_spacing(m, e, l));
    if l <= k {
        lemma_scaled_order(n, d, m, e, l);
        assert(binary64::fits(n, d, l));
        if l < k {
            binary64::lemma_fits_when_coarser(n, d, l, k - 1);
        }
        binary64::lemma_scaled_denominator_is_positive(d, l);
        binary64::lemma_scaled_denominator_is_positive(e, l);
        lemma_rounding_is_monotone(
            binary64::scaled_numerator(n, l),
            binary64::scaled_denominator(d, l),
            binary64::scaled_numerator(m, l),
            binary64::scaled_denominator(e, l),
        );
        lemma_same_exponent(low.significand, high.significand, l);
        let q = low.denominator();
        let (a, b) = (low.numerator(), high.numerator());
        assert(a * q <= b * q) by (nonlinear_arith)
            requires
                a <= b,
        ;
    } else {
        binary64::lemma_significand_limit(n, d);
        let coarse = Rounded { significand: 0x10_0000_0000_0000, exponent: l };
        binary64::lemma_fits_at_next(m, e, l - 1);
        let sn = binary64::scaled_numerator(m, l);
        let sd = binary64::scaled_denominator(e, l);
        binary64::lemma_scaled_denominator_is_positive(e, l);
        let half = 0x10_0000_0000_0000nat;
        assert(half * sd <= sn) by (nonlinear_arith)
            requires
                2 * sn >= sd * (2 * half),
        ;
        lemma_rounding_is_above(sn, sd, half);
        lemma_common_spacing(low, high, k);
        let up = power2::pow2((l - k) as nat);
        power2::lemma2_to64();
        if l - k > 1 {
            power2::lemma_pow2_strictly_increases(1, (l - k) as nat);
        }
        let (s, t) = (low.significand, high.significand);
        assert(s * 1 <= t * up) by (nonlinear_arith)
            requires
                s <= 2 * half,
                t >= half,
                up >= 2,
        ;
    }
}

/// Scaling keeps the order of fractions.
proof fn lemma_scaled_order(n: nat, d: nat, m: nat, e: nat, exponent: int)
    requires
        d > 0,
        e > 0,
        n * e <= m * d,
    ensures
        binary64::scaled_numerator(n, exponent) * binary64::scaled_denominator(e, exponent)
            <= binary64::scaled_numerator(m, exponent) * binary64::scaled_denominator(d, exponent),
        binary64::fits(m, e, exponent) ==> binary64::fits(n, d, exponent),
{
    if exponent < 0 {
        let scale = power2::pow2((-exponent) as nat);
        assert(n * scale * e <= m * scale * d) by (nonlinear_arith)
            requires
                n * e <= m * d,
        ;
    } else {
        let scale = power2::pow2(exponent as nat);
        assert(n * (e * scale) <= m * (d * scale)) by (nonlinear_arith)
            requires
                n * e <= m * d,
        ;
    }
    binary64::lemma_scaled_denominator_is_positive(d, exponent);
    binary64::lemma_scaled_denominator_is_positive(e, exponent);
    let (a, b) = (
        binary64::scaled_numerator(n, exponent),
        binary64::scaled_denominator(d, exponent),
    );
    let (f, g) = (
        binary64::scaled_numerator(m, exponent),
        binary64::scaled_denominator(e, exponent),
    );
    let limit = SIGNIFICANDS as nat;
    assert(f < g * limit ==> a < b * limit) by (nonlinear_arith)
        requires
            a * g <= f * b,
            b > 0,
            g > 0,
    ;
}

/// Quotients keep the order of their first numbers.
pub proof fn lemma_quotients_are_monotone(left: Rounded, right: Rounded, divisor: Rounded)
    requires
        at_most(left, right),
        divisor.numerator() > 0,
    ensures
        at_most(left.divided_by(divisor), right.divided_by(divisor)),
{
    binary64::lemma_denominator_is_positive(left);
    binary64::lemma_denominator_is_positive(right);
    binary64::lemma_denominator_is_positive(divisor);
    let (a, b) = (left.numerator(), left.denominator());
    let (c, d) = (right.numerator(), right.denominator());
    let (e, f) = (divisor.numerator(), divisor.denominator());
    assert((a * f) * (d * e) <= (c * f) * (b * e) && b * e > 0 && d * e > 0) by (nonlinear_arith)
        requires
            a * d <= c * b,
            b > 0,
            d > 0,
            e > 0,
            f > 0,
    ;
    lemma_nearest_is_monotone(a * f, b * e, c * f, d * e);
}

/// Products keep the order of their first numbers.
pub proof fn lemma_products_are_monotone(left: Rounded, right: Rounded, factor: Rounded)
    requires
        at_most(left, right),
    ensures
        at_most(left.multiplied(factor), right.multiplied(factor)),
{
    binary64::lemma_denominator_is_positive(left);
    binary64::lemma_denominator_is_positive(right);
    binary64::lemma_denominator_is_positive(factor);
    let (a, b) = (left.numerator(), left.denominator());
    let (c, d) = (right.numerator(), right.denominator());
    let (e, f) = (factor.numerator(), factor.denominator());
    assert((a * e) * (d * f) <= (c * e) * (b * f) && b * f > 0 && d * f > 0) by (nonlinear_arith)
        requires
            a * d <= c * b,
            b > 0,
            d > 0,
            f > 0,
    ;
    lemma_nearest_is_monotone(a * e, b * f, c * e, d * f);
}

/// A larger share of the same whole has a larger ratio.
pub proof fn lemma_ratios_are_monotone(low: nat, high: nat, whole: nat)
    requires
        low <= high,
        whole > 0,
    ensures
        at_most(binary64::ratio_value(low, whole), binary64::ratio_value(high, whole)),
{
    lemma_nearest_is_monotone(low, 1, high, 1);
    let one = Rounded { significand: 1, exponent: 0 };
    power2::lemma2_to64();
    assert(1 * power2::pow2(0) == 1);
    lemma_nearest_reaches(one, whole, 1);
    binary64::lemma_denominator_is_positive(binary64::nearest(whole, 1));
    lemma_quotients_are_monotone(
        binary64::nearest(low, 1),
        binary64::nearest(high, 1),
        binary64::nearest(whole, 1),
    );
}

/// A sum is at least each of its parts.
pub proof fn lemma_sums_do_not_shrink(left: Rounded, right: Rounded)
    requires
        left.significand <= SIGNIFICANDS,
        left.exponent >= FINEST_EXPONENT,
    ensures
        at_most(left, left.plus(right)),
{
    binary64::lemma_denominator_is_positive(left);
    binary64::lemma_denominator_is_positive(right);
    let (a, b) = (left.numerator(), left.denominator());
    let (c, d) = (right.numerator(), right.denominator());
    assert(a * (b * d) <= (a * d + c * b) * b && b * d > 0) by (nonlinear_arith)
        requires
            b > 0,
            d > 0,
    ;
    lemma_nearest_reaches(left, a * d + c * b, b * d);
}

/// A whole number plus a whole number is exact below two to the power of 53.
pub proof fn lemma_whole_sums_are_exact(left: Rounded, right: Rounded, first: nat, second: nat)
    requires
        is_whole(left, first),
        is_whole(right, second),
        first + second < SIGNIFICANDS,
    ensures
        is_whole(left.plus(right), first + second),
{
    binary64::lemma_denominator_is_positive(left);
    binary64::lemma_denominator_is_positive(right);
    let (b, d) = (left.denominator(), right.denominator());
    let whole = first + second;
    assert(left.numerator() * d + right.numerator() * b == whole * (b * d) && b * d > 0)
        by (nonlinear_arith)
        requires
            left.numerator() == first * b,
            right.numerator() == second * d,
            whole == first + second,
            b > 0,
            d > 0,
    ;
    lemma_whole_fractions_are_exact(whole, b * d);
}

/// A fraction that is a whole number stays that whole number.
pub proof fn lemma_whole_fractions_are_exact(whole: nat, denominator: nat)
    requires
        denominator > 0,
        whole < SIGNIFICANDS,
    ensures
        is_whole(binary64::nearest(whole * denominator, denominator), whole),
{
    power2::lemma2_to64();
    binary64::lemma_whole_number_is_exact(whole, denominator);
    let value = binary64::nearest(whole * denominator, denominator);
    if value.exponent == 0 {
        assert(value.significand * 1 == value.significand);
        assert(whole * 1 == whole);
    }
}

/// The distance from one to the next number of the format.
pub open spec fn epsilon() -> Rounded {
    Rounded { significand: 1, exponent: -52 }
}

/// The power of two below a whole number.
proof fn lemma_leading_power(number: nat) -> (power: nat)
    requires
        number > 0,
    ensures
        power2::pow2(power) <= number < power2::pow2(power + 1),
    decreases number,
{
    power2::lemma2_to64();
    if number == 1 {
        0
    } else {
        let power = lemma_leading_power(number / 2);
        power2::lemma_pow2_unfold(power + 1);
        power2::lemma_pow2_unfold(power + 2);
        power + 1
    }
}

/// A whole number plus [`epsilon`] is exact below two. From two on, the sum is
/// the whole number.
pub proof fn lemma_epsilon(whole: nat)
    requires
        whole < SIGNIFICANDS,
    ensures
        ({
            let sum = binary64::nearest(whole, 1).plus(epsilon());
            &&& sum.denominator() > 0
            &&& whole >= 2 ==> is_whole(sum, whole)
            &&& whole < 2 ==> sum.numerator() * 0x10_0000_0000_0000 == (whole
                * 0x10_0000_0000_0000 + 1) * sum.denominator()
        }),
{
    power2::lemma2_to64();
    power2::lemma2_to64_rest();
    let unit = 0x10_0000_0000_0000nat;
    assert(whole * 1 == whole);
    lemma_whole_fractions_are_exact(whole, 1);
    let value = binary64::nearest(whole, 1);
    binary64::lemma_denominator_is_positive(value);
    let scale = value.denominator();
    let word = whole * unit + 1;
    let n = value.numerator() * unit + 1 * scale;
    let d = scale * unit;
    assert(n * unit == word * d && d > 0) by (nonlinear_arith)
        requires
            value.numerator() == whole * scale,
            n == value.numerator() * unit + 1 * scale,
            d == scale * unit,
            word == whole * unit + 1,
            scale > 0,
            unit > 0,
    ;
    let exact = Rounded { significand: word, exponent: -52 };
    assert(exact.denominator() == unit && exact.numerator() == word);
    sum::lemma_nearest_equal_fractions(n, d, word, unit);
    let result = value.plus(epsilon());
    assert(result == binary64::nearest(n, d));
    if whole == 0 {
        assert(1 * power2::pow2(52) == power2::pow2(52));
        sum::lemma_word_is_nearest(1, -52, -104);
        assert(unit * 1 == unit);
        binary64::lemma_exact_rounding(unit, 1);
        power2::lemma_pow2_adds(52, 52);
        assert(result.denominator() == unit * unit);
        assert(unit * unit == 1 * (unit * unit)) by (nonlinear_arith);
    } else if whole == 1 {
        assert(word * 1 == word);
        sum::lemma_word_is_nearest(word, -52, -52);
        binary64::lemma_exact_rounding(word, 1);
    } else {
        let power = lemma_leading_power(whole);
        if power >= 53 {
            if power > 53 {
                power2::lemma_pow2_strictly_increases(53, power);
            }
            assert(false);
        }
        if power == 0 {
            assert(false);
        }
        let low = power2::pow2(power);
        power2::lemma_pow2_unfold(power + 1);
        power2::lemma_pow2_adds(power, (52 - power) as nat);
        let high = power2::pow2((52 - power) as nat);
        assert(unit == low * high);
        assert(word < low * SIGNIFICANDS as nat && 2 * word >= low * SIGNIFICANDS as nat)
            by (nonlinear_arith)
            requires
                word == whole * unit + 1,
                low <= whole < 2 * low,
                unit == 0x10_0000_0000_0000,
                SIGNIFICANDS as nat == 2 * unit,
        ;
        sum::lemma_word_is_nearest(word, -52, power as int - 52);
        let count = whole * high;
        assert(word == count * low + 1) by (nonlinear_arith)
            requires
                word == whole * unit + 1,
                unit == low * high,
                count == whole * high,
        ;
        if power > 1 {
            power2::lemma_pow2_strictly_increases(1, power);
        }
        vstd::arithmetic::div_mod::lemma_fundamental_div_mod_converse(
            word as int,
            low as int,
            count as int,
            1,
        );
        if power == 1 {
            power2::lemma_pow2_unfold(51);
            let quarter = power2::pow2(50);
            assert(whole * (2 * quarter) == 2 * (whole * quarter)) by (nonlinear_arith);
        }
        assert(result.significand == count);
        if power == 52 {
            assert(count == whole * 1);
            assert(count * 1 == count);
        }
    }
}

/// Numbers compare like their counts of a common spacing.
proof fn lemma_common_spacing(left: Rounded, right: Rounded, finer: int)
    requires
        finer <= left.exponent,
        finer <= right.exponent,
    ensures
        at_most(left, right) <==> left.significand * power2::pow2((left.exponent - finer) as nat)
            <= right.significand * power2::pow2((right.exponent - finer) as nat),
{
    let first = left.significand * power2::pow2((left.exponent - finer) as nat);
    let second = right.significand * power2::pow2((right.exponent - finer) as nat);
    sum::lemma_finer(left.significand, left.exponent, finer);
    sum::lemma_finer(right.significand, right.exponent, finer);
    let a = Rounded { significand: first, exponent: finer };
    let b = Rounded { significand: second, exponent: finer };
    if first <= second {
        lemma_same_exponent(first, second, finer);
    } else if finer >= 0 {
        let scale = power2::pow2(finer as nat);
        power2::lemma_pow2_pos(finer as nat);
        assert(second * scale < first * scale) by (nonlinear_arith)
            requires
                second < first,
                scale > 0,
        ;
    }
    let (n, d) = (left.numerator(), left.denominator());
    let (m, e) = (right.numerator(), right.denominator());
    let (x, y, q) = (a.numerator(), b.numerator(), a.denominator());
    assert((n * e <= m * d) == (x <= y)) by (nonlinear_arith)
        requires
            n * q == x * d,
            m * q == y * e,
            d > 0,
            e > 0,
            q > 0,
    ;
}

impl Binary64 {
    /// Reports whether this number is at most another.
    pub fn is_at_most(&self, other: &Binary64) -> (result: bool)
        requires
            self.wf(),
            other.wf(),
        ensures
            result == at_most(self@, other@),
    {
        if self.significand == 0 {
            proof {
                if self.exponent >= 0 {
                    assert(0 * power2::pow2(self.exponent as nat) == 0) by (nonlinear_arith);
                }
                let d = other@.denominator();
                assert(0 * d == 0) by (nonlinear_arith);
            }
            return true;
        }
        if self.exponent - other.exponent <= 60 && other.exponent - self.exponent <= 60 {
            let finer: i32 = if self.exponent < other.exponent {
                self.exponent
            } else {
                other.exponent
            };
            let first_up: u128 = power_word((self.exponent - finer) as u32);
            let second_up: u128 = power_word((other.exponent - finer) as u32);
            proof {
                lemma_common_spacing(self@, other@, finer as int);
                power2::lemma2_to64();
                power2::lemma2_to64_rest();
                if self.exponent - finer < 60 {
                    power2::lemma_pow2_strictly_increases((self.exponent - finer) as nat, 60);
                }
                if other.exponent - finer < 60 {
                    power2::lemma_pow2_strictly_increases((other.exponent - finer) as nat, 60);
                }
                assert(self.significand * first_up <= 0x20_0000_0000_0000 * 0x1000_0000_0000_0000
                    && other.significand * second_up <= 0x20_0000_0000_0000 * 0x1000_0000_0000_0000)
                    by (nonlinear_arith)
                    requires
                        self.significand <= 0x20_0000_0000_0000,
                        other.significand <= 0x20_0000_0000_0000,
                        first_up <= 0x1000_0000_0000_0000,
                        second_up <= 0x1000_0000_0000_0000,
                ;
            }
            return self.significand as u128 * first_up <= other.significand as u128 * second_up;
        }
        let left = super::shifted(&self.natural_numerator(), other.places());
        let right = super::shifted(&other.natural_numerator(), self.places());
        !right.is_below(&left)
    }

    /// Splits a number below two to the power of 64 into its whole part and the
    /// rest.
    pub fn split(&self) -> (parts: (u64, Binary64))
        requires
            self.wf(),
            self@.is_below_power(64),
        ensures
            parts.0 == whole_part(self@),
            parts.1@ == fraction(self@),
            parts.1.wf(),
    {
        proof {
            power2::lemma2_to64();
            power2::lemma2_to64_rest();
        }
        if self.exponent >= 0 {
            proof {
                let scale = power2::pow2(self.exponent as nat);
                power2::lemma_pow2_pos(self.exponent as nat);
                let number = self.significand as nat;
                if number > 0 {
                    assert(number * scale >= scale) by (nonlinear_arith)
                        requires
                            number >= 1,
                    ;
                    if self.exponent >= 64 {
                        if self.exponent > 64 {
                            power2::lemma_pow2_strictly_increases(64, self.exponent as nat);
                        }
                        assert(false);
                    }
                } else {
                    assert(0 * scale == 0) by (nonlinear_arith);
                }
            }
            let whole: u64 = if self.significand == 0 {
                0
            } else {
                let scale: u128 = power_word(self.exponent as u32);
                proof {
                    assert(self.significand * scale < 0x1_0000_0000_0000_0000);
                }
                (self.significand as u128 * scale) as u64
            };
            return (whole, Binary64 { significand: 0, exponent: 0 });
        }
        let places: u32 = (-self.exponent) as u32;
        if places >= 64 {
            proof {
                if places > 64 {
                    power2::lemma_pow2_strictly_increases(64, places as nat);
                }
                let scale = power2::pow2(places as nat);
                vstd::arithmetic::div_mod::lemma_basic_div(self.significand as int, scale as int);
                vstd::arithmetic::div_mod::lemma_small_mod(self.significand as nat, scale);
            }
            return (0, Binary64 { significand: self.significand, exponent: self.exponent });
        }
        let scale: u128 = power_word(places);
        proof {
            power2::lemma_pow2_pos(places as nat);
            assert(self.significand as u128 / scale <= self.significand && self.significand as u128
                % scale <= self.significand) by (nonlinear_arith)
                requires
                    scale >= 1,
            ;
        }
        let whole: u64 = (self.significand as u128 / scale) as u64;
        let rest: u64 = (self.significand as u128 % scale) as u64;
        (whole, Binary64 { significand: rest, exponent: self.exponent })
    }
}

/// Two numbers are always in order one way or the other, and both ways only when
/// they are equal as fractions.
pub proof fn law_numbers_are_in_order(left: Binary64, right: Binary64, forth: bool, back: bool)
    requires
        call_ensures(Binary64::is_at_most, (&left, &right), forth),
        call_ensures(Binary64::is_at_most, (&right, &left), back),
    ensures
        forth || back,
        forth && back <==> left@.numerator() * right@.denominator() == right@.numerator()
            * left@.denominator(),
        !forth ==> left@.numerator() * right@.denominator() > right@.numerator()
            * left@.denominator(),
{
}

/// A number is its whole part and a rest below one.
pub proof fn law_numbers_are_split_exactly(number: Binary64, parts: (u64, Binary64))
    requires
        call_ensures(Binary64::split, (&number,), parts),
    ensures
        parts.0 * number@.denominator() <= number@.numerator(),
        number@.numerator() < (parts.0 + 1) * number@.denominator(),
        parts.1@.significand == number@.numerator() - parts.0 * number@.denominator(),
{
    binary64::lemma_denominator_is_positive(number@);
    let (n, d) = (number@.numerator(), number@.denominator());
    vstd::arithmetic::div_mod::lemma_fundamental_div_mod(n as int, d as int);
    let whole = n / d;
    let rest = n % d;
    assert(whole * d <= n && n < (whole + 1) * d && rest == n - whole * d) by (nonlinear_arith)
        requires
            n == d * whole + rest,
            0 <= rest < d,
    ;
}

} // verus!
