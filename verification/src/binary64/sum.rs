//! Sums of numbers with similar exponents in one machine word.
//!
//! A running position grows by one step for every output frame. Such a sum
//! fits a 128-bit word, so it needs no arithmetic on longer numbers.
use vstd::arithmetic::power2;
use vstd::prelude::*;

use super::{power_word, Binary64, Rounded, FINEST_EXPONENT, SIGNIFICANDS};
use crate::binary64;

verus! {

/// Equal fractions round to the same whole number.
proof fn lemma_round_equal_fractions(n: nat, d: nat, m: nat, e: nat)
    requires
        d > 0,
        e > 0,
        n * e == m * d,
    ensures
        binary64::round_half_even(n, d) == binary64::round_half_even(m, e),
{
    let q = n / d;
    let r = n % d;
    vstd::arithmetic::div_mod::lemma_fundamental_div_mod(n as int, d as int);
    let s: int = m - q * e;
    assert(s * d == r * e && 0 <= s < e) by (nonlinear_arith)
        requires
            d > 0,
            e > 0,
            n * e == m * d,
            n == d * q + r,
            0 <= r < d,
            s == m - q * e,
    ;
    vstd::arithmetic::div_mod::lemma_fundamental_div_mod_converse(m as int, e as int, q as int, s);
    assert((2 * r < d) == (2 * s < e) && (2 * r == d) == (2 * s == e)) by (nonlinear_arith)
        requires
            d > 0,
            e > 0,
            s * d == r * e,
    ;
}

/// Equal fractions fit the same spacings.
proof fn lemma_fits_equal_fractions(n: nat, d: nat, m: nat, e: nat, exponent: int)
    requires
        d > 0,
        e > 0,
        n * e == m * d,
    ensures
        binary64::fits(n, d, exponent) == binary64::fits(m, e, exponent),
        binary64::scaled_numerator(n, exponent) * binary64::scaled_denominator(e, exponent) == binary64::scaled_numerator(
            m,
            exponent,
        ) * binary64::scaled_denominator(d, exponent),
{
    binary64::lemma_scaled_denominator_is_positive(d, exponent);
    binary64::lemma_scaled_denominator_is_positive(e, exponent);
    let (a, b) = (binary64::scaled_numerator(n, exponent), binary64::scaled_denominator(d, exponent));
    let (f, g) = (binary64::scaled_numerator(m, exponent), binary64::scaled_denominator(e, exponent));
    if exponent < 0 {
        let scale = power2::pow2((-exponent) as nat);
        assert(n * scale * e == m * scale * d) by (nonlinear_arith)
            requires
                n * e == m * d,
        ;
    } else {
        let scale = power2::pow2(exponent as nat);
        assert(n * (e * scale) == m * (d * scale)) by (nonlinear_arith)
            requires
                n * e == m * d,
        ;
    }
    let limit = SIGNIFICANDS as nat;
    assert((a < b * limit) == (f < g * limit)) by (nonlinear_arith)
        requires
            a * g == f * b,
            b > 0,
            g > 0,
    ;
}

/// Equal fractions have the same nearest double-precision number.
pub(crate) proof fn lemma_nearest_equal_fractions(n: nat, d: nat, m: nat, e: nat)
    requires
        d > 0,
        e > 0,
        n * e == m * d,
    ensures
        binary64::nearest(n, d) == binary64::nearest(m, e),
{
    binary64::lemma_spacing_exists(n, d, FINEST_EXPONENT as int);
    let exponent = binary64::spacing(n, d);
    assert(binary64::is_spacing(n, d, exponent));
    lemma_fits_equal_fractions(n, d, m, e, exponent);
    lemma_fits_equal_fractions(n, d, m, e, exponent - 1);
    binary64::lemma_spacing_is_unique(m, e, exponent);
    binary64::lemma_scaled_denominator_is_positive(d, exponent);
    binary64::lemma_scaled_denominator_is_positive(e, exponent);
    lemma_round_equal_fractions(
        binary64::scaled_numerator(n, exponent),
        binary64::scaled_denominator(d, exponent),
        binary64::scaled_numerator(m, exponent),
        binary64::scaled_denominator(e, exponent),
    );
}

/// A word times a power of two, in spacings of another power of two.
pub(crate) open spec fn in_spacings(word: nat, exponent: int, spacing: int) -> (nat, nat) {
    if spacing <= exponent {
        (word * power2::pow2((exponent - spacing) as nat), 1)
    } else {
        (word, power2::pow2((spacing - exponent) as nat))
    }
}

/// The count of spacings is the scaled fraction of a number.
pub(crate) proof fn lemma_in_spacings(word: nat, exponent: int, spacing: int)
    ensures
        ({
            let number = Rounded { significand: word, exponent };
            let (a, b) = in_spacings(word, exponent, spacing);
            &&& b > 0
            &&& number.denominator() > 0
            &&& binary64::scaled_denominator(number.denominator(), spacing) > 0
            &&& binary64::scaled_numerator(number.numerator(), spacing) * b == a * binary64::scaled_denominator(
                number.denominator(),
                spacing,
            )
        }),
{
    power2::lemma2_to64();
    let number = Rounded { significand: word, exponent };
    binary64::lemma_denominator_is_positive(number);
    binary64::lemma_scaled_denominator_is_positive(number.denominator(), spacing);
    if spacing > exponent {
        power2::lemma_pow2_pos((spacing - exponent) as nat);
    }
    if exponent < 0 {
        let den = power2::pow2((-exponent) as nat);
        if spacing <= exponent {
            power2::lemma_pow2_adds((exponent - spacing) as nat, (-exponent) as nat);
            let up = power2::pow2((exponent - spacing) as nat);
            assert(word * (up * den) * 1 == word * up * den) by (nonlinear_arith);
        } else if spacing < 0 {
            power2::lemma_pow2_adds((-spacing) as nat, (spacing - exponent) as nat);
            let up = power2::pow2((-spacing) as nat);
            let rest = power2::pow2((spacing - exponent) as nat);
            assert(word * up * rest == word * (up * rest)) by (nonlinear_arith);
        } else {
            power2::lemma_pow2_adds((-exponent) as nat, spacing as nat);
        }
    } else {
        let up = power2::pow2(exponent as nat);
        if spacing < 0 {
            power2::lemma_pow2_adds(exponent as nat, (-spacing) as nat);
            let more = power2::pow2((-spacing) as nat);
            assert(word * up * more * 1 == word * (up * more) * 1) by (nonlinear_arith);
        } else if spacing <= exponent {
            power2::lemma_pow2_adds((exponent - spacing) as nat, spacing as nat);
            let part = power2::pow2((exponent - spacing) as nat);
            let rest = power2::pow2(spacing as nat);
            assert(word * (part * rest) * 1 == word * part * (1 * rest)) by (nonlinear_arith);
        } else {
            power2::lemma_pow2_adds(exponent as nat, (spacing - exponent) as nat);
            let rest = power2::pow2((spacing - exponent) as nat);
            assert(word * up * rest == word * (1 * (up * rest))) by (nonlinear_arith);
        }
    }
}

/// A number fits a spacing when its count of spacings does.
proof fn lemma_word_fits(word: nat, exponent: int, spacing: int)
    ensures
        ({
            let number = Rounded { significand: word, exponent };
            let (a, b) = in_spacings(word, exponent, spacing);
            &&& binary64::fits(number.numerator(), number.denominator(), spacing) == (a < b
                * SIGNIFICANDS as nat)
            &&& binary64::round_half_even(
                binary64::scaled_numerator(number.numerator(), spacing),
                binary64::scaled_denominator(number.denominator(), spacing),
            ) == binary64::round_half_even(a, b)
        }),
{
    lemma_in_spacings(word, exponent, spacing);
    let number = Rounded { significand: word, exponent };
    let (a, b) = in_spacings(word, exponent, spacing);
    let n = binary64::scaled_numerator(number.numerator(), spacing);
    let d = binary64::scaled_denominator(number.denominator(), spacing);
    lemma_round_equal_fractions(n, d, a, b);
    let limit = SIGNIFICANDS as nat;
    assert((n < d * limit) == (a < b * limit)) by (nonlinear_arith)
        requires
            n * b == a * d,
            b > 0,
            d > 0,
    ;
}

/// A count of spacings that uses the full width of a significand is rounded.
pub(crate) proof fn lemma_word_is_nearest(word: nat, exponent: int, spacing: int)
    requires
        FINEST_EXPONENT <= spacing,
        ({
            let (a, b) = in_spacings(word, exponent, spacing);
            &&& a < b * SIGNIFICANDS as nat
            &&& spacing == FINEST_EXPONENT || 2 * a >= b * SIGNIFICANDS as nat
        }),
    ensures
        ({
            let number = Rounded { significand: word, exponent };
            let (a, b) = in_spacings(word, exponent, spacing);
            binary64::nearest(number.numerator(), number.denominator()) == (Rounded {
                significand: binary64::round_half_even(a, b),
                exponent: spacing,
            })
        }),
{
    let number = Rounded { significand: word, exponent };
    lemma_word_fits(word, exponent, spacing);
    if spacing > FINEST_EXPONENT {
        lemma_word_fits(word, exponent, spacing - 1);
        let (a, b) = in_spacings(word, exponent, spacing);
        let (c, d) = in_spacings(word, exponent, spacing - 1);
        power2::lemma2_to64();
        if spacing <= exponent {
            power2::lemma_pow2_unfold((exponent - spacing + 1) as nat);
            let half = power2::pow2((exponent - spacing) as nat);
            assert(word * (2 * half) == 2 * (word * half)) by (nonlinear_arith);
            assert(c == 2 * a && d == b);
        } else {
            power2::lemma_pow2_unfold((spacing - exponent) as nat);
            if spacing - 1 <= exponent {
                assert(word * 1 == word);
            }
            assert(b == 2 * d && c == a);
        }
    }
    binary64::lemma_spacing_is_unique(number.numerator(), number.denominator(), spacing);
}

/// Returns the double-precision number nearest to a word times a power of two.
fn rounded_word(word: u128, exponent: i32) -> (result: Binary64)
    requires
        word < 0x40_0000_0000_0000_0000_0000_0000_0000,
        FINEST_EXPONENT <= exponent <= 800,
    ensures
        ({
            let number = Rounded { significand: word as nat, exponent: exponent as int };
            &&& result@ == binary64::nearest(number.numerator(), number.denominator())
            &&& result.wf()
            &&& result.exponent <= 900
        }),
{
    let mut wide: u128 = word;
    let mut spacing: i32 = exponent;
    proof {
        power2::lemma2_to64();
        assert(word as nat * 1 == word as nat);
    }
    while wide < 0x10_0000_0000_0000 && spacing > FINEST_EXPONENT
        invariant
            FINEST_EXPONENT <= spacing <= exponent <= 800,
            wide == word * power2::pow2((exponent - spacing) as nat),
            wide < 0x20_0000_0000_0000 || (spacing == exponent && wide == word),
            word < 0x40_0000_0000_0000_0000_0000_0000_0000,
        decreases spacing - FINEST_EXPONENT,
    {
        proof {
            power2::lemma_pow2_unfold((exponent - spacing + 1) as nat);
            let scale = power2::pow2((exponent - spacing) as nat);
            assert(word as nat * (2 * scale) == 2 * (word as nat * scale)) by (nonlinear_arith);
        }
        wide = wide * 2;
        spacing = spacing - 1;
    }
    if wide < 0x20_0000_0000_0000 {
        proof {
            lemma_word_is_nearest(word as nat, exponent as int, spacing as int);
            assert(wide as nat * 1 == wide as nat);
            binary64::lemma_exact_rounding(wide as nat, 1);
        }
        return Binary64 { significand: wide as u64, exponent: spacing };
    }
    let mut part: u128 = 1;
    let mut dropped: u32 = 0;
    while word / part >= 0x20_0000_0000_0000
        invariant
            part == power2::pow2(dropped as nat),
            part >= 1,
            dropped <= 70,
            word >= 0x20_0000_0000_0000,
            word < 0x40_0000_0000_0000_0000_0000_0000_0000,
            dropped > 0 ==> 2 * word >= part * 0x20_0000_0000_0000,
        decreases 70 - dropped,
    {
        proof {
            assert(word >= part * 0x20_0000_0000_0000) by (nonlinear_arith)
                requires
                    word / part >= 0x20_0000_0000_0000,
                    part >= 1,
            ;
            power2::lemma_pow2_unfold(dropped as nat + 1);
            assert(part <= 0x2_0000_0000_0000_0000);
            power2::lemma2_to64();
            power2::lemma2_to64_rest();
            power2::lemma_pow2_unfold(65);
            power2::lemma_pow2_unfold(66);
            if dropped >= 66 {
                if dropped > 66 {
                    power2::lemma_pow2_strictly_increases(66, dropped as nat);
                }
            }
        }
        part = part * 2;
        dropped = dropped + 1;
    }
    let quotient: u128 = word / part;
    let remainder: u128 = word % part;
    let up = !(2 * remainder < part || (2 * remainder == part && quotient % 2 == 0));
    proof {
        assert(word < part * 0x20_0000_0000_0000) by (nonlinear_arith)
            requires
                word / part < 0x20_0000_0000_0000,
                part >= 1,
        ;
        assert(dropped > 0) by {
            if dropped == 0 {
                power2::lemma2_to64();
            }
        }
        lemma_word_is_nearest(word as nat, exponent as int, exponent + dropped as int);
    }
    let rounded: u64 = if up {
        quotient as u64 + 1
    } else {
        quotient as u64
    };
    Binary64 { significand: rounded, exponent: exponent + dropped as i32 }
}

/// The same number in finer spacings.
pub(crate) proof fn lemma_finer(significand: nat, exponent: int, finer: int)
    requires
        finer <= exponent,
    ensures
        ({
            let number = Rounded { significand, exponent };
            let same = Rounded {
                significand: significand * power2::pow2((exponent - finer) as nat),
                exponent: finer,
            };
            &&& number.denominator() > 0
            &&& same.denominator() > 0
            &&& number.numerator() * same.denominator() == same.numerator() * number.denominator()
        }),
{
    let number = Rounded { significand, exponent };
    let up = power2::pow2((exponent - finer) as nat);
    let same = Rounded { significand: significand * up, exponent: finer };
    binary64::lemma_denominator_is_positive(number);
    binary64::lemma_denominator_is_positive(same);
    if finer >= 0 {
        power2::lemma_pow2_adds((exponent - finer) as nat, finer as nat);
        let rest = power2::pow2(finer as nat);
        assert(significand * (up * rest) * 1 == significand * up * rest * 1) by (nonlinear_arith);
    } else if exponent >= 0 {
        power2::lemma_pow2_adds(exponent as nat, (-finer) as nat);
        let a = power2::pow2(exponent as nat);
        let b = power2::pow2((-finer) as nat);
        assert(significand * a * b == significand * (a * b) * 1) by (nonlinear_arith);
    } else {
        power2::lemma_pow2_adds((exponent - finer) as nat, (-exponent) as nat);
        let b = power2::pow2((-exponent) as nat);
        assert(significand * (up * b) == significand * up * b) by (nonlinear_arith);
    }
}

/// Adds two numbers whose exponents are close to each other.
pub(crate) fn near_sum(left: &Binary64, right: &Binary64) -> (sum: Binary64)
    requires
        left.wf(),
        right.wf(),
        -60 <= left.exponent - right.exponent <= 60,
        left.exponent <= 800,
        right.exponent <= 800,
    ensures
        sum@ == left@.plus(right@),
        sum.wf(),
        !left@.plus(right@).overflows(),
{
    let finer: i32 = if left.exponent < right.exponent {
        left.exponent
    } else {
        right.exponent
    };
    let left_up: u128 = power_word((left.exponent - finer) as u32);
    let right_up: u128 = power_word((right.exponent - finer) as u32);
    proof {
        power2::lemma2_to64();
        power2::lemma2_to64_rest();
        if left.exponent - finer < 60 {
            power2::lemma_pow2_strictly_increases((left.exponent - finer) as nat, 60);
        }
        if right.exponent - finer < 60 {
            power2::lemma_pow2_strictly_increases((right.exponent - finer) as nat, 60);
        }
        assert(left.significand * left_up <= 0x20_0000_0000_0000 * 0x1000_0000_0000_0000
            && right.significand * right_up <= 0x20_0000_0000_0000 * 0x1000_0000_0000_0000)
            by (nonlinear_arith)
            requires
                left.significand <= 0x20_0000_0000_0000,
                right.significand <= 0x20_0000_0000_0000,
                left_up <= 0x1000_0000_0000_0000,
                right_up <= 0x1000_0000_0000_0000,
        ;
    }
    let first: u128 = left.significand as u128 * left_up;
    let second: u128 = right.significand as u128 * right_up;
    let sum = rounded_word(first + second, finer);
    proof {
        lemma_finer(left.significand as nat, left.exponent as int, finer as int);
        lemma_finer(right.significand as nat, right.exponent as int, finer as int);
        let exact = Rounded { significand: (first + second) as nat, exponent: finer as int };
        let a = Rounded { significand: first as nat, exponent: finer as int };
        let b = Rounded { significand: second as nat, exponent: finer as int };
        let (nl, dl) = (left@.numerator(), left@.denominator());
        let (nr, dr) = (right@.numerator(), right@.denominator());
        let d = exact.denominator();
        assert(exact.numerator() == a.numerator() + b.numerator()) by {
            if finer >= 0 {
                let up = power2::pow2(finer as nat);
                assert((first + second) * up == first * up + second * up) by (nonlinear_arith);
            }
        }
        let (x, y) = (a.numerator(), b.numerator());
        assert((nl * dr + nr * dl) * d == (x + y) * (dl * dr)) by (nonlinear_arith)
            requires
                nl * d == x * dl,
                nr * d == y * dr,
        ;
        assert(dl * dr > 0) by (nonlinear_arith)
            requires
                dl > 0,
                dr > 0,
        ;
        lemma_nearest_equal_fractions(nl * dr + nr * dl, dl * dr, x + y, d);
        binary64::lemma_overflow_test(sum.significand as nat, sum.exponent as int);
    }
    sum
}

impl Binary64 {
    /// Multiplies two numbers of ordinary size and rounds.
    pub fn multiplied(&self, other: &Binary64) -> (product: Binary64)
        requires
            self.wf(),
            other.wf(),
            self.significand == 0 || other.significand == 0 || FINEST_EXPONENT <= self.exponent
                + other.exponent <= 800,
        ensures
            product@ == self@.multiplied(other@),
            product.wf(),
    {
        proof {
            binary64::lemma_denominator_is_positive(self@);
            binary64::lemma_denominator_is_positive(other@);
        }
        let ghost n = self@.numerator() * other@.numerator();
        let ghost d = self@.denominator() * other@.denominator();
        if self.significand == 0 || other.significand == 0 {
            proof {
                let (a, b) = (self@.numerator(), other@.numerator());
                let (c, e) = (self@.denominator(), other@.denominator());
                if self.significand == 0 && self.exponent >= 0 {
                    assert(0 * power2::pow2(self.exponent as nat) == 0) by (nonlinear_arith);
                }
                if other.significand == 0 && other.exponent >= 0 {
                    assert(0 * power2::pow2(other.exponent as nat) == 0) by (nonlinear_arith);
                }
                assert(a * b == 0 && c * e > 0) by (nonlinear_arith)
                    requires
                        a == 0 || b == 0,
                        c > 0,
                        e > 0,
                ;
                power2::lemma_pow2_pos(1074);
                assert(0 * power2::pow2(1075) == 0) by (nonlinear_arith);
                binary64::lemma_tiny_fraction_vanishes(0, c * e);
            }
            return Binary64 { significand: 0, exponent: FINEST_EXPONENT };
        }
        proof {
            assert(self.significand * other.significand <= 0x20_0000_0000_0000
                * 0x20_0000_0000_0000) by (nonlinear_arith)
                requires
                    self.significand <= 0x20_0000_0000_0000,
                    other.significand <= 0x20_0000_0000_0000,
            ;
        }
        let word: u128 = self.significand as u128 * other.significand as u128;
        let exponent: i32 = self.exponent + other.exponent;
        proof {
            lemma_product(self@, other@);
            let exact = Rounded { significand: word as nat, exponent: exponent as int };
            let (a, b) = (self@.denominator(), other@.denominator());
            binary64::lemma_denominator_is_positive(exact);
            assert(a * b > 0) by (nonlinear_arith)
                requires
                    a > 0,
                    b > 0,
            ;
            lemma_nearest_equal_fractions(n, d, exact.numerator(), exact.denominator());
        }
        rounded_word(word, exponent)
    }
}

/// Significands multiply and exponents add.
proof fn lemma_product(left: Rounded, right: Rounded)
    ensures
        ({
            let exact = Rounded {
                significand: left.significand * right.significand,
                exponent: left.exponent + right.exponent,
            };
            left.numerator() * right.numerator() * exact.denominator() == exact.numerator() * (
            left.denominator() * right.denominator())
        }),
{
    power2::lemma2_to64();
    let (s, t) = (left.significand, right.significand);
    let (e, f) = (left.exponent, right.exponent);
    if e < 0 && f < 0 {
        power2::lemma_pow2_adds((-e) as nat, (-f) as nat);
    } else if e >= 0 && f >= 0 {
        power2::lemma_pow2_adds(e as nat, f as nat);
        let (p, q) = (power2::pow2(e as nat), power2::pow2(f as nat));
        assert((s * p) * (t * q) * 1 == (s * t) * (p * q) * (1 * 1)) by (nonlinear_arith);
    } else if e < 0 {
        let (p, q) = (power2::pow2((-e) as nat), power2::pow2(f as nat));
        if e + f < 0 {
            power2::lemma_pow2_adds((-(e + f)) as nat, f as nat);
            let r = power2::pow2((-(e + f)) as nat);
            assert(s * (t * q) * r == (s * t) * ((r * q) * 1)) by (nonlinear_arith);
        } else {
            power2::lemma_pow2_adds((e + f) as nat, (-e) as nat);
            let r = power2::pow2((e + f) as nat);
            assert(s * (t * (r * p)) * 1 == (s * t) * r * (p * 1)) by (nonlinear_arith);
        }
    } else {
        let (p, q) = (power2::pow2(e as nat), power2::pow2((-f) as nat));
        if e + f < 0 {
            power2::lemma_pow2_adds((-(e + f)) as nat, e as nat);
            let r = power2::pow2((-(e + f)) as nat);
            assert((s * p) * t * r == (s * t) * (1 * (r * p))) by (nonlinear_arith);
        } else {
            power2::lemma_pow2_adds((e + f) as nat, (-f) as nat);
            let r = power2::pow2((e + f) as nat);
            assert((s * (r * q)) * t * 1 == (s * t) * r * (1 * q)) by (nonlinear_arith);
        }
    }
}

} // verus!
