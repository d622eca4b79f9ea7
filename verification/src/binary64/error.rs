//! How far rounding moves a number.
//!
//! A rounded number is off by at most one part in 2^53. Several roundings in a
//! row add up. The laws here compare fractions up to some such parts.
use vstd::arithmetic::power2;
use vstd::prelude::*;

use crate::binary64;
use crate::binary64::{
    checked_frame_duration, count_ratio, duration_milliseconds, duration_seconds, Binary64, Rounded,
};
use crate::time::Duration;

verus! {

/// The parts of a number by which rounding errors are counted: 2^53.
pub open spec fn parts() -> nat {
    0x20_0000_0000_0000
}

/// Whether a fraction is at most another one, up to so many parts of it.
pub open spec fn about_at_most(n: nat, d: nat, m: nat, e: nat, slack: nat) -> bool {
    n * e * parts() <= m * d * (parts() + slack)
}

/// Whether a number is a fraction, up to so many parts of it.
pub open spec fn is_about(number: Rounded, n: nat, d: nat, slack: nat) -> bool {
    &&& about_at_most(number.numerator(), number.denominator(), n, d, slack)
    &&& about_at_most(n, d, number.numerator(), number.denominator(), slack)
}

/// The nearest whole number is off by at most one half, and a tie is even.
pub proof fn law_nearest_wholes_are_off_by_half(numerator: nat, denominator: nat)
    requires
        denominator > 0,
    ensures
        ({
            let whole = binary64::round_half_even(numerator, denominator);
            &&& 2 * (whole * denominator) <= 2 * numerator + denominator
            &&& 2 * numerator <= 2 * (whole * denominator) + denominator
            &&& 2 * (whole * denominator) == 2 * numerator + denominator || 2 * numerator == 2 * (
            whole * denominator) + denominator ==> whole % 2 == 0
        }),
{
    let quotient = numerator / denominator;
    let remainder = numerator % denominator;
    vstd::arithmetic::div_mod::lemma_fundamental_div_mod(numerator as int, denominator as int);
    assert(denominator * quotient == quotient * denominator) by (nonlinear_arith);
    assert((quotient + 1) * denominator == quotient * denominator + denominator)
        by (nonlinear_arith);
}

/// A double-precision number is off by at most one part in 2^53 of the fraction
/// that it stands for, unless the fraction is tiny.
pub proof fn law_rounding_is_close(n: nat, d: nat)
    requires
        d > 0,
        n == 0 || d <= n * power2::pow2(1000),
    ensures
        ({
            let number = binary64::nearest(n, d);
            let exact = n * number.denominator();
            let rounded = number.numerator() * d;
            &&& parts() * rounded <= parts() * exact + exact
            &&& parts() * exact <= parts() * rounded + exact
        }),
{
    power2::lemma2_to64();
    power2::lemma2_to64_rest();
    binary64::lemma_spacing_exists(n, d, binary64::FINEST_EXPONENT as int);
    let exponent = binary64::spacing(n, d);
    assert(binary64::is_spacing(n, d, exponent));
    let top = binary64::scaled_numerator(n, exponent);
    let bottom = binary64::scaled_denominator(d, exponent);
    binary64::lemma_scaled_denominator_is_positive(d, exponent);
    let whole = binary64::round_half_even(top, bottom);
    law_nearest_wholes_are_off_by_half(top, bottom);
    let number = binary64::nearest(n, d);
    if n > 0 {
        if exponent == -1074 {
            power2::lemma_pow2_adds(1000, 74);
            let small = power2::pow2(1000);
            let rest = power2::pow2(74);
            power2::lemma_pow2_adds(64, 10);
            assert(n * (small * rest) >= n * small * parts()) by (nonlinear_arith)
                requires
                    rest >= parts(),
                    n * small >= 0,
            ;
            assert(d * parts() <= n * small * parts()) by (nonlinear_arith)
                requires
                    d <= n * small,
            ;
            assert(false);
        }
        binary64::lemma_fits_at_next(n, d, exponent - 1);
        if exponent - 1 >= 0 {
            let half = binary64::scaled_denominator(d, exponent - 1);
            assert(top >= half * parts());
            assert(2 * top >= bottom * parts()) by (nonlinear_arith)
                requires
                    bottom == 2 * half,
                    top >= half * parts(),
            ;
        }
        assert(2 * top >= bottom * parts());
    } else {
        let scale = power2::pow2((-exponent) as nat);
        assert(0 * scale == 0) by (nonlinear_arith);
        assert(top == 0);
        assert(whole == 0) by {
            vstd::arithmetic::div_mod::lemma_div_basics(bottom as int);
            vstd::arithmetic::div_mod::lemma_small_mod(0, bottom);
        }
        assert(whole * bottom == 0) by (nonlinear_arith)
            requires
                whole == 0,
        ;
    }
    let scale = if exponent < 0 {
        power2::pow2((-exponent) as nat)
    } else {
        power2::pow2(exponent as nat)
    };
    assert(number.numerator() * d == whole * bottom && n * number.denominator() == top) by {
        if exponent >= 0 {
            assert(whole * scale * d == whole * (d * scale)) by (nonlinear_arith);
            assert(n * 1 == n);
        }
    }
    assert(parts() * (whole * bottom) <= parts() * top + top && parts() * top <= parts() * (whole
        * bottom) + top) by (nonlinear_arith)
        requires
            2 * (whole * bottom) <= 2 * top + bottom,
            2 * top <= 2 * (whole * bottom) + bottom,
            2 * top >= bottom * parts() || (top == 0 && whole * bottom == 0),
            parts() > 0,
    ;
}

/// A rounded fraction is that fraction up to two parts.
pub proof fn lemma_nearest_is_about(n: nat, d: nat)
    requires
        d > 0,
        n == 0 || d <= n * power2::pow2(1000),
    ensures
        is_about(binary64::nearest(n, d), n, d, 2),
{
    law_rounding_is_close(n, d);
    let number = binary64::nearest(n, d);
    let exact = n * number.denominator();
    let rounded = number.numerator() * d;
    assert(rounded * parts() <= exact * (parts() + 2) && exact * parts() <= rounded * (parts()
        + 2)) by (nonlinear_arith)
        requires
            parts() * rounded <= parts() * exact + exact,
            parts() * exact <= parts() * rounded + exact,
            parts() == 0x20_0000_0000_0000,
            exact >= 0,
            rounded >= 0,
    ;
    assert(number.numerator() * d == rounded && n * number.denominator() == exact);
}

/// Slacks add up.
pub proof fn lemma_slacks_add_up(
    n: nat,
    d: nat,
    m: nat,
    e: nat,
    k: nat,
    f: nat,
    first: nat,
    second: nat,
)
    requires
        e > 0,
        first * second <= parts(),
        about_at_most(n, d, m, e, first),
        about_at_most(m, e, k, f, second),
    ensures
        about_at_most(n, d, k, f, first + second + 1),
{
    let p = parts();
    let (a, b) = (p + first, p + second);
    // The two bounds, multiplied into each other.
    assert(n * e * p * (f * p) <= m * d * a * (f * p)) by (nonlinear_arith)
        requires
            n * e * p <= m * d * a,
            f * p >= 0,
    ;
    assert(m * d * a * (f * p) == (m * f * p) * (d * a)) by (nonlinear_arith);
    assert((m * f * p) * (d * a) <= (k * e * b) * (d * a)) by (nonlinear_arith)
        requires
            m * f * p <= k * e * b,
            d * a >= 0,
    ;
    assert(n * e * p * (f * p) == e * (n * f * (p * p))) by (nonlinear_arith);
    assert((k * e * b) * (d * a) == e * (k * d * (a * b))) by (nonlinear_arith);
    assert(n * f * (p * p) <= k * d * (a * b)) by (nonlinear_arith)
        requires
            e * (n * f * (p * p)) <= e * (k * d * (a * b)),
            e > 0,
    ;
    assert(a * b <= p * (p + first + second + 1)) by (nonlinear_arith)
        requires
            a == p + first,
            b == p + second,
            first * second <= p,
    ;
    assert(k * d * (a * b) <= k * d * (p * (p + first + second + 1))) by (nonlinear_arith)
        requires
            a * b <= p * (p + first + second + 1),
            k * d >= 0,
    ;
    assert(n * f * (p * p) == p * (n * f * p)) by (nonlinear_arith);
    assert(k * d * (p * (p + first + second + 1)) == p * (k * d * (p + first + second + 1)))
        by (nonlinear_arith);
    assert(n * f * p <= k * d * (p + first + second + 1)) by (nonlinear_arith)
        requires
            p * (n * f * p) <= p * (k * d * (p + first + second + 1)),
            p > 0,
    ;
}

/// Dividing both fractions by the same number keeps their order.
pub proof fn lemma_slacks_survive_division(n: nat, d: nat, m: nat, e: nat, divisor: nat, slack: nat)
    requires
        about_at_most(n, d, m, e, slack),
    ensures
        about_at_most(n, d * divisor, m, e * divisor, slack),
{
    let p = parts();
    assert(n * (e * divisor) * p == (n * e * p) * divisor) by (nonlinear_arith);
    assert(m * (d * divisor) * (p + slack) == (m * d * (p + slack)) * divisor) by (nonlinear_arith);
    assert((n * e * p) * divisor <= (m * d * (p + slack)) * divisor) by (nonlinear_arith)
        requires
            n * e * p <= m * d * (p + slack),
            divisor >= 0,
    ;
}

/// More slack is fine.
pub proof fn lemma_more_slack(n: nat, d: nat, m: nat, e: nat, less: nat, more: nat)
    requires
        about_at_most(n, d, m, e, less),
        less <= more,
    ensures
        about_at_most(n, d, m, e, more),
{
    assert(m * d * (parts() + less) <= m * d * (parts() + more)) by (nonlinear_arith)
        requires
            less <= more,
            m * d >= 0,
    ;
}

/// A fraction with an ordinary denominator is not tiny.
pub proof fn lemma_ordinary_size(numerator: nat, denominator: nat)
    requires
        denominator <= 0x1_0000_0000_0000_0000,
    ensures
        numerator == 0 || denominator <= numerator * power2::pow2(1000),
{
    let large = power2::pow2(1000);
    power2::lemma2_to64();
    power2::lemma2_to64_rest();
    power2::lemma_pow2_strictly_increases(64, 1000);
    if numerator > 0 {
        assert(denominator <= numerator * large) by (nonlinear_arith)
            requires
                denominator <= large,
                numerator >= 1,
        ;
    }
}

/// Rounding a fraction that is about another one gives a number that is about
/// it, with a little more slack.
pub proof fn lemma_rounding_adds_slack(n: nat, d: nat, m: nat, e: nat, slack: nat)
    requires
        d > 0,
        1 <= e <= 0x1_0000_0000_0000_0000,
        2 * slack <= parts(),
        about_at_most(n, d, m, e, slack),
        about_at_most(m, e, n, d, slack),
    ensures
        is_about(binary64::nearest(n, d), n, d, 2),
        is_about(binary64::nearest(n, d), m, e, slack + 3),
{
    let p = parts();
    let large = power2::pow2(1000);
    power2::lemma2_to64();
    power2::lemma2_to64_rest();
    power2::lemma_pow2_adds(64, 1);
    power2::lemma_pow2_strictly_increases(65, 1000);
    if n > 0 {
        if m == 0 {
            assert(n * e * p >= 1) by (nonlinear_arith)
                requires
                    n >= 1,
                    e >= 1,
                    p >= 1,
            ;
            assert(0 * d * (p + slack) == 0) by (nonlinear_arith);
        }
        assert(d * p <= n * e * (p + slack)) by (nonlinear_arith)
            requires
                m * d * p <= n * e * (p + slack),
                m >= 1,
                d >= 0,
                p >= 0,
        ;
        assert(d <= n * (2 * e)) by (nonlinear_arith)
            requires
                d * p <= n * e * (p + slack),
                slack <= p,
                p >= 1,
                n * e >= 0,
        ;
        assert(n * (2 * e) <= n * large) by (nonlinear_arith)
            requires
                2 * e <= large,
                n >= 0,
        ;
    }
    lemma_nearest_is_about(n, d);
    let number = binary64::nearest(n, d);
    lemma_slacks_add_up(number.numerator(), number.denominator(), n, d, m, e, 2, slack);
    lemma_slacks_add_up(m, e, n, d, number.numerator(), number.denominator(), slack, 2);
}

/// A rounded quotient of a number that is about a fraction.
pub proof fn lemma_quotient_is_about(number: Rounded, n: nat, d: nat, divisor: nat, slack: nat)
    requires
        d >= 1,
        d <= u32::MAX,
        1 <= divisor <= u32::MAX,
        2 * slack <= parts(),
        is_about(number, n, d, slack),
    ensures
        is_about(number.over(divisor), n, d * divisor, slack + 3),
        is_about(
            number.over(divisor),
            number.numerator(),
            number.denominator() * divisor,
            2,
        ),
{
    let (a, b) = (number.numerator(), number.denominator());
    binary64::lemma_denominator_is_positive(number);
    assert(b * divisor > 0) by (nonlinear_arith)
        requires
            b > 0,
            divisor > 0,
    ;
    assert(1 <= d * divisor <= 0x1_0000_0000 * 0x1_0000_0000) by (nonlinear_arith)
        requires
            1 <= d <= 0x1_0000_0000,
            1 <= divisor <= 0x1_0000_0000,
    ;
    lemma_slacks_survive_division(a, b, n, d, divisor, slack);
    lemma_slacks_survive_division(n, d, a, b, divisor, slack);
    lemma_rounding_adds_slack(a, b * divisor, n, d * divisor, slack);
}

/// The same products in another order.
proof fn lemma_regrouped(
    units: nat,
    a: nat,
    b: nat,
    d: nat,
    p: nat,
    n: nat,
    q: nat,
    factor: nat,
)
    ensures
        2 * (units * b) * (d * p) == b * (2 * (units * d) * p),
        (2 * (a * factor) + b) * (d * p) == (a * d * p) * (2 * factor) + b * (d * p),
        (n * b * q) * (2 * factor) + b * (d * p) == b * (2 * (n * factor) * q + d * p),
        (n * b * p) * (2 * factor) == b * (2 * (n * factor) * p),
        (a * d * q) * (2 * factor) == 2 * (a * factor) * (d * q),
        (2 * (units * b) + b) * (d * q) == b * ((2 * units + 1) * d * q),
{
    assert(2 * (units * b) * (d * p) == b * (2 * (units * d) * p)) by (nonlinear_arith);
    assert((2 * (a * factor) + b) * (d * p) == (a * d * p) * (2 * factor) + b * (d * p))
        by (nonlinear_arith);
    assert((n * b * q) * (2 * factor) + b * (d * p) == b * (2 * (n * factor) * q + d * p))
        by (nonlinear_arith);
    assert((n * b * p) * (2 * factor) == b * (2 * (n * factor) * p)) by (nonlinear_arith);
    assert((a * d * q) * (2 * factor) == 2 * (a * factor) * (d * q)) by (nonlinear_arith);
    assert((2 * (units * b) + b) * (d * q) == b * ((2 * units + 1) * d * q)) by (nonlinear_arith);
}

/// The units of a number that is about a fraction are about the units of that
/// fraction, to the nearest whole one.
pub proof fn lemma_units_are_close(number: Rounded, n: nat, d: nat, slack: nat, factor: nat)
    requires
        is_about(number, n, d, slack),
    ensures
        ({
            let units = number.units(factor);
            &&& 2 * (units * d) * parts() <= 2 * (n * factor) * (parts() + slack) + d * parts()
            &&& 2 * (n * factor) * parts() <= (2 * units + 1) * d * (parts() + slack)
        }),
{
    let units = number.units(factor);
    let (a, b) = (number.numerator(), number.denominator());
    let p = parts();
    binary64::lemma_denominator_is_positive(number);
    if number.exponent < 0 {
        law_nearest_wholes_are_off_by_half(number.significand * factor, b);
    } else {
        assert(units * 1 == a * factor);
    }
    assert(2 * (units * b) <= 2 * (a * factor) + b && 2 * (a * factor) <= 2 * (units * b) + b);
    let q = p + slack;
    assert(2 * (units * b) * (d * p) <= (2 * (a * factor) + b) * (d * p)) by (nonlinear_arith)
        requires
            2 * (units * b) <= 2 * (a * factor) + b,
            d * p >= 0,
    ;
    assert((a * d * p) * (2 * factor) <= (n * b * q) * (2 * factor)) by (nonlinear_arith)
        requires
            a * d * p <= n * b * q,
            factor >= 0,
    ;
    lemma_regrouped(units, a, b, d, p, n, q, factor);
    assert((n * b * p) * (2 * factor) <= (a * d * q) * (2 * factor)) by (nonlinear_arith)
        requires
            n * b * p <= a * d * q,
            factor >= 0,
    ;
    assert(2 * (a * factor) * (d * q) <= (2 * (units * b) + b) * (d * q)) by (nonlinear_arith)
        requires
            2 * (a * factor) <= 2 * (units * b) + b,
            d * q >= 0,
    ;
    assert(2 * (units * d) * p <= 2 * (n * factor) * q + d * p) by (nonlinear_arith)
        requires
            b * (2 * (units * d) * p) <= b * (2 * (n * factor) * q + d * p),
            b > 0,
    ;
    assert(2 * (n * factor) * p <= (2 * units + 1) * d * q) by (nonlinear_arith)
        requires
            b * (2 * (n * factor) * p) <= b * ((2 * units + 1) * d * q),
            b > 0,
    ;
}

/// The length of a run of frames is its frames divided by its rate, to the
/// nearest nanosecond and up to five parts in 2^53.
pub proof fn law_frame_lengths_are_close(frames: u64, rate: u32, duration: Option<Duration>)
    requires
        rate > 0,
        call_ensures(checked_frame_duration, (frames, rate), duration),
        duration is Some,
    ensures
        2 * (duration->0@ * rate) * parts() <= 2 * (frames as nat * 1_000_000_000) * (parts() + 5)
            + rate * parts(),
        2 * (frames as nat * 1_000_000_000) * parts() <= (2 * duration->0@ + 1) * rate * (parts()
            + 5),
{
    lemma_frame_lengths_are_close(frames as nat, rate as nat);
}

/// The length of a run of frames is close to its frames divided by its rate.
pub proof fn lemma_frame_lengths_are_close(frames: nat, rate: nat)
    requires
        1 <= rate <= u32::MAX,
    ensures
        2 * (binary64::frame_nanoseconds(frames, rate) * rate) * parts() <= 2 * (frames
            * 1_000_000_000) * (parts() + 5) + rate * parts(),
        2 * (frames * 1_000_000_000) * parts() <= (2 * binary64::frame_nanoseconds(frames, rate)
            + 1) * rate * (parts() + 5),
{
    let count = binary64::nearest(frames, 1);
    lemma_ordinary_size(frames, 1);
    lemma_nearest_is_about(frames, 1);
    lemma_quotient_is_about(count, frames, 1, rate, 2);
    assert(1 * rate == rate);
    lemma_units_are_close(count.over(rate), frames, rate, 5, 1_000_000_000);
}

/// Two bounds, multiplied into each other.
proof fn lemma_bounded_product(low: nat, high: nat, less: nat, more: nat, p: nat, q: nat)
    requires
        low * p <= high * q,
        less * p <= more * q,
        q * q <= p * (p + 5),
        p > 0,
    ensures
        (low * less) * p <= (high * more) * (p + 5),
{
    assert((low * p) * (less * p) <= (high * q) * (more * q)) by (nonlinear_arith)
        requires
            low * p <= high * q,
            less * p <= more * q,
    ;
    assert((low * p) * (less * p) == p * ((low * less) * p)) by (nonlinear_arith);
    assert((high * q) * (more * q) == (high * more) * (q * q)) by (nonlinear_arith);
    assert((high * more) * (q * q) <= (high * more) * (p * (p + 5))) by (nonlinear_arith)
        requires
            q * q <= p * (p + 5),
    ;
    assert((high * more) * (p * (p + 5)) == p * ((high * more) * (p + 5))) by (nonlinear_arith);
    assert((low * less) * p <= (high * more) * (p + 5)) by (nonlinear_arith)
        requires
            p * ((low * less) * p) <= p * ((high * more) * (p + 5)),
            p > 0,
    ;
}

/// The quotient of two counts, up to eight parts in 2^53.
pub proof fn law_count_ratios_are_close(count: u64, whole: u64, ratio: Binary64)
    requires
        whole > 0,
        call_ensures(count_ratio, (count, whole), ratio),
    ensures
        is_about(ratio@, count as nat, whole as nat, 8),
{
    lemma_count_ratio_is_about(count as nat, whole as nat);
}

/// The quotient of two counts is about their fraction.
pub proof fn lemma_count_ratio_is_about(count: nat, whole: nat)
    requires
        0 < whole <= u64::MAX,
    ensures
        is_about(binary64::ratio_value(count, whole), count, whole, 8),
{
    let above = binary64::nearest(count, 1);
    let below = binary64::nearest(whole, 1);
    lemma_ordinary_size(count, 1);
    lemma_ordinary_size(whole, 1);
    lemma_nearest_is_about(count, 1);
    lemma_nearest_is_about(whole, 1);
    let (a, b) = (above.numerator(), above.denominator());
    let (c, d) = (below.numerator(), below.denominator());
    let (k, m) = (count, whole);
    let p = parts();
    binary64::lemma_denominator_is_positive(above);
    binary64::lemma_denominator_is_positive(below);
    assert(c > 0) by (nonlinear_arith)
        requires
            m * d * p <= c * 1 * (p + 2),
            m >= 1,
            d >= 1,
            p >= 1,
            c >= 0,
    ;
    assert(b * c > 0) by (nonlinear_arith)
        requires
            b > 0,
            c > 0,
    ;
    let q = p + 2;
    assert(q * q <= p * (p + 5)) by (nonlinear_arith)
        requires
            q == p + 2,
            p == 0x20_0000_0000_0000,
    ;
    lemma_bounded_product(a, k * b, m * d, c, p, q);
    assert(a * (m * d) == (a * d) * m) by (nonlinear_arith);
    assert((k * b) * c == k * (b * c)) by (nonlinear_arith);
    lemma_bounded_product(k * b, a, c, m * d, p, q);
    lemma_rounding_adds_slack(a * d, b * c, k, m, 5);
}

/// The seconds of a duration, up to five parts in 2^53.
pub proof fn law_duration_seconds_are_close(duration: Duration, seconds: Binary64)
    requires
        call_ensures(duration_seconds, (&duration,), seconds),
    ensures
        is_about(seconds@, duration@, 1_000_000_000, 5),
{
    lemma_seconds_are_about(duration@);
}

/// Two bounds, added up.
proof fn lemma_bounded_sum(
    low: nat,
    high: nat,
    less: nat,
    more: nat,
    b: nat,
    d: nat,
    g: nat,
    p: nat,
    q: nat,
)
    requires
        low * p <= high * q,
        less * p <= more * q,
    ensures
        (low * d * g + less * b) * p <= (high * d * g + more * b) * q,
{
    assert((low * p) * (d * g) <= (high * q) * (d * g)) by (nonlinear_arith)
        requires
            low * p <= high * q,
    ;
    assert((less * p) * b <= (more * q) * b) by (nonlinear_arith)
        requires
            less * p <= more * q,
    ;
    assert((low * d * g + less * b) * p == (low * p) * (d * g) + (less * p) * b)
        by (nonlinear_arith);
    assert((high * d * g + more * b) * q == (high * q) * (d * g) + (more * q) * b)
        by (nonlinear_arith);
}

/// The seconds of a nanosecond count, up to five parts in 2^53.
proof fn lemma_seconds_are_about(nanoseconds: nat)
    ensures
        is_about(binary64::seconds_value(nanoseconds), nanoseconds, 1_000_000_000, 5),
{
    let whole = nanoseconds / 1_000_000_000;
    let part = nanoseconds % 1_000_000_000;
    let first = binary64::nearest(whole, 1);
    let second = binary64::nearest(part, 1_000_000_000);
    lemma_ordinary_size(whole, 1);
    lemma_ordinary_size(part, 1_000_000_000);
    lemma_nearest_is_about(whole, 1);
    lemma_nearest_is_about(part, 1_000_000_000);
    let (a, b) = (first.numerator(), first.denominator());
    let (c, d) = (second.numerator(), second.denominator());
    let p = parts();
    let q = p + 2;
    let g = 1_000_000_000nat;
    binary64::lemma_denominator_is_positive(first);
    binary64::lemma_denominator_is_positive(second);
    assert(b * d > 0) by (nonlinear_arith)
        requires
            b > 0,
            d > 0,
    ;
    assert(nanoseconds == whole * g + part);
    lemma_bounded_sum(a, whole * b, c * g, part * d, b, d, g, p, q);
    lemma_bounded_sum(whole * b, a, part * d, c * g, b, d, g, p, q);
    assert(a * d * g + c * g * b == (a * d + c * b) * g) by (nonlinear_arith);
    assert(whole * b * d * g + part * d * b == nanoseconds * (b * d)) by (nonlinear_arith)
        requires
            nanoseconds == whole * g + part,
    ;
    lemma_rounding_adds_slack(a * d + c * b, b * d, nanoseconds, g, 2);
}

/// The milliseconds of a duration, up to eight parts in 2^53.
pub proof fn law_duration_milliseconds_are_close(duration: Duration, milliseconds: Binary64)
    requires
        call_ensures(duration_milliseconds, (&duration,), milliseconds),
    ensures
        is_about(milliseconds@, duration@, 1_000_000, 8),
{
    let seconds = binary64::seconds_value(duration@);
    lemma_seconds_are_about(duration@);
    let (n, d) = (seconds.numerator(), seconds.denominator());
    let p = parts();
    binary64::lemma_denominator_is_positive(seconds);
    assert((n * 1_000) * 1_000_000 * p == n * 1_000_000_000 * p) by (nonlinear_arith);
    assert((n * 1_000) * 1_000_000 * (p + 5) == n * 1_000_000_000 * (p + 5)) by (nonlinear_arith);
    lemma_rounding_adds_slack(n * 1_000, d, duration@, 1_000_000, 5);
}

/// A rounded sum of two numbers that are about fractions with one denominator.
pub proof fn lemma_sum_is_about(
    left: Rounded,
    right: Rounded,
    m: nat,
    k: nat,
    e: nat,
    slack: nat,
)
    requires
        1 <= e <= 0x1_0000_0000_0000_0000,
        2 * slack <= parts(),
        is_about(left, m, e, slack),
        is_about(right, k, e, slack),
    ensures
        is_about(left.plus(right), m + k, e, slack + 3),
{
    let (a, b) = (left.numerator(), left.denominator());
    let (c, d) = (right.numerator(), right.denominator());
    let p = parts();
    let q = p + slack;
    binary64::lemma_denominator_is_positive(left);
    binary64::lemma_denominator_is_positive(right);
    assert(b * d > 0) by (nonlinear_arith)
        requires
            b > 0,
            d > 0,
    ;
    lemma_bounded_sum(a * e, m * b, c * e, k * d, b, d, 1, p, q);
    lemma_bounded_sum(m * b, a * e, k * d, c * e, b, d, 1, p, q);
    assert(a * e * d * 1 + c * e * b == (a * d + c * b) * e) by (nonlinear_arith);
    assert(m * b * d * 1 + k * d * b == (m + k) * (b * d)) by (nonlinear_arith);
    lemma_rounding_adds_slack(a * d + c * b, b * d, m + k, e, slack);
}

/// A rounded product of two numbers that are about fractions.
pub proof fn lemma_product_is_about(
    left: Rounded,
    right: Rounded,
    m: nat,
    e: nat,
    k: nat,
    f: nat,
    slack: nat,
    other: nat,
)
    requires
        e >= 1,
        f >= 1,
        e * f <= 0x1_0000_0000_0000_0000,
        slack <= 1000,
        other <= 1000,
        is_about(left, m, e, slack),
        is_about(right, k, f, other),
    ensures
        is_about(left.multiplied(right), m * k, e * f, slack + other + 4),
{
    let (a, b) = (left.numerator(), left.denominator());
    let (c, d) = (right.numerator(), right.denominator());
    let p = parts();
    binary64::lemma_denominator_is_positive(left);
    binary64::lemma_denominator_is_positive(right);
    assert(b * d > 0) by (nonlinear_arith)
        requires
            b > 0,
            d > 0,
    ;
    assert(e * f >= 1) by (nonlinear_arith)
        requires
            e >= 1,
            f >= 1,
    ;
    assert(slack * other <= 1_000_000) by (nonlinear_arith)
        requires
            slack <= 1000,
            other <= 1000,
    ;
    let q = p + slack;
    let r = p + other;
    assert(q * r <= p * (p + slack + other + 1)) by (nonlinear_arith)
        requires
            q == p + slack,
            r == p + other,
            slack * other <= p,
    ;
    lemma_bounds_multiply(a * e, m * b, c * f, k * d, p, q, r, slack + other + 1);
    lemma_bounds_multiply(m * b, a * e, k * d, c * f, p, q, r, slack + other + 1);
    assert((a * e) * (c * f) == (a * c) * (e * f)) by (nonlinear_arith);
    assert((m * b) * (k * d) == (m * k) * (b * d)) by (nonlinear_arith);
    lemma_rounding_adds_slack(a * c, b * d, m * k, e * f, slack + other + 1);
}

/// Two bounds with their own slack, multiplied into each other.
proof fn lemma_bounds_multiply(
    low: nat,
    high: nat,
    less: nat,
    more: nat,
    p: nat,
    q: nat,
    r: nat,
    slack: nat,
)
    requires
        low * p <= high * q,
        less * p <= more * r,
        q * r <= p * (p + slack),
        p > 0,
    ensures
        (low * less) * p <= (high * more) * (p + slack),
{
    assert((low * p) * (less * p) <= (high * q) * (more * r)) by (nonlinear_arith)
        requires
            low * p <= high * q,
            less * p <= more * r,
    ;
    assert((low * p) * (less * p) == p * ((low * less) * p)) by (nonlinear_arith);
    assert((high * q) * (more * r) == (high * more) * (q * r)) by (nonlinear_arith);
    assert((high * more) * (q * r) <= (high * more) * (p * (p + slack))) by (nonlinear_arith)
        requires
            q * r <= p * (p + slack),
    ;
    assert((high * more) * (p * (p + slack)) == p * ((high * more) * (p + slack)))
        by (nonlinear_arith);
    assert((low * less) * p <= (high * more) * (p + slack)) by (nonlinear_arith)
        requires
            p * ((low * less) * p) <= p * ((high * more) * (p + slack)),
            p > 0,
    ;
}

/// A factor on both sides keeps a bound.
pub proof fn lemma_factor_keeps_slack(n: nat, d: nat, m: nat, e: nat, factor: nat, slack: nat)
    requires
        about_at_most(n, d, m, e, slack),
    ensures
        about_at_most(n * factor, d, m * factor, e, slack),
{
    let p = parts();
    assert((n * factor) * e * p == (n * e * p) * factor) by (nonlinear_arith);
    assert((m * factor) * d * (p + slack) == (m * d * (p + slack)) * factor) by (nonlinear_arith);
    assert((n * e * p) * factor <= (m * d * (p + slack)) * factor) by (nonlinear_arith)
        requires
            n * e * p <= m * d * (p + slack),
    ;
}

/// Sums, products, multiples, and quotients of numbers that stand for fractions
/// stand for the sum, product, multiple, and quotient of the fractions, up to a
/// few parts in 2^53.
pub proof fn law_arithmetic_is_close(
    left: Binary64,
    right: Binary64,
    m: nat,
    k: nat,
    e: nat,
    sum: Option<Binary64>,
    product: Binary64,
)
    requires
        1 <= e <= u32::MAX,
        is_about(left@, m, e, 8),
        is_about(right@, k, e, 8),
        call_ensures(Binary64::plus, (&left, &right), sum),
        call_ensures(Binary64::multiplied, (&left, &right), product),
    ensures
        sum is Some ==> is_about(sum->0@, m + k, e, 11),
        is_about(product@, m * k, e * e, 20),
{
    assert(e * e <= 0x1_0000_0000_0000_0000) by (nonlinear_arith)
        requires
            e <= u32::MAX,
    ;
    lemma_sum_is_about(left@, right@, m, k, e, 8);
    lemma_product_is_about(left@, right@, m, e, k, e, 8, 8);
}

/// Multiples and quotients by a whole number are close to the exact ones.
pub proof fn law_whole_factors_are_close(
    number: Binary64,
    n: nat,
    d: nat,
    factor: u32,
    multiple: Option<Binary64>,
    quotient: Option<Binary64>,
)
    requires
        1 <= d <= u32::MAX,
        factor > 0,
        is_about(number@, n, d, 8),
        call_ensures(Binary64::times, (&number, factor), multiple),
        call_ensures(Binary64::over, (&number, factor), quotient),
    ensures
        multiple is Some ==> is_about(multiple->0@, n * factor as nat, d, 11),
        quotient is Some ==> is_about(quotient->0@, n, d * factor as nat, 11),
{
    binary64::lemma_denominator_is_positive(number@);
    lemma_factor_keeps_slack(
        number@.numerator(),
        number@.denominator(),
        n,
        d,
        factor as nat,
        8,
    );
    lemma_factor_keeps_slack(
        n,
        d,
        number@.numerator(),
        number@.denominator(),
        factor as nat,
        8,
    );
    lemma_rounding_adds_slack(
        number@.numerator() * factor as nat,
        number@.denominator(),
        n * factor as nat,
        d,
        8,
    );
    lemma_quotient_is_about(number@, n, d, factor as nat, 8);
}

/// A bit pattern with one more in its exponent stands for twice the number. The
/// patterns from 0x7FF0000000000000 on stand for no number, and the pattern of
/// one stands for one.
pub proof fn law_exponents_double_the_number(
    bits: u64,
    next: u64,
    number: Option<Binary64>,
    double: Option<Binary64>,
)
    requires
        call_ensures(Binary64::from_bits, (bits,), number),
        call_ensures(Binary64::from_bits, (next,), double),
        0x10_0000_0000_0000 <= bits,
        next == bits + 0x10_0000_0000_0000,
    ensures
        bits >= 0x7FF0_0000_0000_0000 ==> number is None,
        bits < 0x7FF0_0000_0000_0000 ==> number is Some,
        number is Some && double is Some ==> double->0@.numerator() * number->0@.denominator()
            == 2 * (number->0@.numerator() * double->0@.denominator()),
        bits == 0x3FF0_0000_0000_0000 ==> number->0@.numerator() == number->0@.denominator(),
{
    assert(next / 0x10_0000_0000_0000 == bits / 0x10_0000_0000_0000 + 1);
    assert(next % 0x10_0000_0000_0000 == bits % 0x10_0000_0000_0000);
    if number is Some && double is Some {
        let a = number->0@;
        let b = double->0@;
        assert(b.exponent == a.exponent + 1 && b.significand == a.significand);
        lemma_next_exponent(a, b);
    }
    if bits == 0x3FF0_0000_0000_0000 {
        assert(bits / 0x10_0000_0000_0000 == 1_023 && bits % 0x10_0000_0000_0000 == 0);
        power2::lemma2_to64_rest();
    }
}

/// One more in the exponent doubles a number.
proof fn lemma_next_exponent(a: Rounded, b: Rounded)
    requires
        b.exponent == a.exponent + 1,
        b.significand == a.significand,
    ensures
        b.numerator() * a.denominator() == 2 * (a.numerator() * b.denominator()),
{
    let s = a.significand;
    power2::lemma2_to64();
    if b.exponent < 0 {
        power2::lemma_pow2_unfold((-a.exponent) as nat);
        let low = power2::pow2((-b.exponent) as nat);
        assert(s * (2 * low) == 2 * (s * low)) by (nonlinear_arith);
    } else if a.exponent < 0 {
        power2::lemma_pow2_unfold(1);
        assert(s * power2::pow2(0) == s);
        assert((s * power2::pow2(0)) * 2 == 2 * (s * 1));
    } else {
        power2::lemma_pow2_unfold(b.exponent as nat);
        let low = power2::pow2(a.exponent as nat);
        assert((s * (2 * low)) * 1 == 2 * ((s * low) * 1)) by (nonlinear_arith);
    }
}

} // verus!
