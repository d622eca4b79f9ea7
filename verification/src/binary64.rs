//! Exact rounding to double-precision numbers.
//!
//! Media lengths pass through IEEE 754 double-precision arithmetic: a length
//! typed by a user, and a frame count divided by a sample rate. This module
//! states what that arithmetic yields in whole numbers, and computes it without
//! any loss. A non-negative [`Binary64`] is a significand and a power of two.
pub mod error;
pub mod order;
mod sum;

use vstd::arithmetic::power2;
use vstd::prelude::*;

use crate::natural::Natural;
use crate::time::Duration;
use crate::time::NANOS_PER_SECOND;

verus! {

/// The number of significands that one exponent can hold.
pub const SIGNIFICANDS: u64 = 0x20_0000_0000_0000;

/// The exponent of the finest double-precision spacing.
pub const FINEST_EXPONENT: i32 = -1074;

/// The exponent of the coarsest finite double-precision spacing.
pub const COARSEST_EXPONENT: i32 = 971;

/// A non-negative number: a significand times a power of two.
#[derive(Clone, Copy, Debug, PartialEq, Eq, Structural)]
pub struct Binary64 {
    /// Whole number of spacings.
    pub significand: u64,
    /// Power of two of one spacing.
    pub exponent: i32,
}

/// The mathematical form of a rounded number.
pub struct Rounded {
    pub significand: nat,
    pub exponent: int,
}

/// The whole number nearest to a fraction. A tie goes to the even number.
pub open spec fn round_half_even(numerator: nat, denominator: nat) -> nat {
    let quotient = numerator / denominator;
    let remainder = numerator % denominator;
    if 2 * remainder < denominator || (2 * remainder == denominator && quotient % 2 == 0) {
        quotient
    } else {
        quotient + 1
    }
}

/// The numerator of a fraction that is divided by a power of two.
pub open spec fn scaled_numerator(numerator: nat, exponent: int) -> nat {
    if exponent < 0 {
        numerator * power2::pow2((-exponent) as nat)
    } else {
        numerator
    }
}

/// The denominator of a fraction that is divided by a power of two.
pub open spec fn scaled_denominator(denominator: nat, exponent: int) -> nat {
    if exponent < 0 {
        denominator
    } else {
        denominator * power2::pow2(exponent as nat)
    }
}

/// Whether a fraction needs fewer spacings of this size than a significand can count.
pub open spec fn fits(numerator: nat, denominator: nat, exponent: int) -> bool {
    scaled_numerator(numerator, exponent) < scaled_denominator(denominator, exponent)
        * SIGNIFICANDS as nat
}

/// Whether this is the finest spacing that can represent the size of a fraction.
pub open spec fn is_spacing(numerator: nat, denominator: nat, exponent: int) -> bool {
    &&& FINEST_EXPONENT <= exponent
    &&& fits(numerator, denominator, exponent)
    &&& exponent == FINEST_EXPONENT || !fits(numerator, denominator, exponent - 1)
}

/// The exponent of the finest spacing that can represent the size of a fraction.
pub open spec fn spacing(numerator: nat, denominator: nat) -> int {
    choose|exponent: int| is_spacing(numerator, denominator, exponent)
}

/// The double-precision number nearest to a fraction, without an upper limit.
pub open spec fn nearest(numerator: nat, denominator: nat) -> Rounded {
    let exponent = spacing(numerator, denominator);
    Rounded {
        significand: round_half_even(
            scaled_numerator(numerator, exponent),
            scaled_denominator(denominator, exponent),
        ),
        exponent,
    }
}

impl Rounded {
    /// Whether the number is beyond the largest finite double-precision number.
    pub open spec fn overflows(self) -> bool {
        self.exponent >= 0 && self.significand * power2::pow2(self.exponent as nat)
            >= power2::pow2(1024)
    }

    /// Whether the number is below a power of two.
    pub open spec fn is_below_power(self, bits: nat) -> bool {
        self.numerator() < self.denominator() * power2::pow2(bits)
    }

    /// The whole number nearest to the number times a factor.
    pub open spec fn units(self, factor: nat) -> nat {
        if self.exponent < 0 {
            round_half_even(
                self.significand * factor,
                power2::pow2((-self.exponent) as nat),
            )
        } else {
            self.significand * power2::pow2(self.exponent as nat) * factor
        }
    }

    /// The nanoseconds nearest to the number as a count of seconds.
    pub open spec fn nanoseconds(self) -> nat {
        self.units(NANOS_PER_SECOND as nat)
    }

    /// The numerator of the number as a fraction.
    pub open spec fn numerator(self) -> nat {
        if self.exponent < 0 {
            self.significand
        } else {
            self.significand * power2::pow2(self.exponent as nat)
        }
    }

    /// The denominator of the number as a fraction.
    pub open spec fn denominator(self) -> nat {
        if self.exponent < 0 {
            power2::pow2((-self.exponent) as nat)
        } else {
            1
        }
    }

    /// The sum of two numbers, rounded again.
    pub open spec fn plus(self, other: Rounded) -> Rounded {
        nearest(
            self.numerator() * other.denominator() + other.numerator() * self.denominator(),
            self.denominator() * other.denominator(),
        )
    }

    /// The number times a whole number, rounded again.
    pub open spec fn times(self, factor: nat) -> Rounded {
        nearest(self.numerator() * factor, self.denominator())
    }

    /// The product of two numbers, rounded again.
    pub open spec fn multiplied(self, other: Rounded) -> Rounded {
        nearest(
            self.numerator() * other.numerator(),
            self.denominator() * other.denominator(),
        )
    }

    /// The quotient of two numbers, rounded again.
    pub open spec fn divided_by(self, other: Rounded) -> Rounded {
        nearest(
            self.numerator() * other.denominator(),
            self.denominator() * other.numerator(),
        )
    }

    /// The number divided by a whole number, rounded again.
    pub open spec fn over(self, divisor: nat) -> Rounded {
        nearest(self.numerator(), self.denominator() * divisor)
    }
}

impl View for Binary64 {
    type V = Rounded;

    open spec fn view(&self) -> Rounded {
        Rounded { significand: self.significand as nat, exponent: self.exponent as int }
    }
}

impl Binary64 {
    /// Whether the significand and the exponent are in double-precision range.
    pub open spec fn wf(self) -> bool {
        &&& self.significand <= SIGNIFICANDS
        &&& FINEST_EXPONENT <= self.exponent <= COARSEST_EXPONENT
    }
}

/// Doubling both sides of the size test changes nothing.
proof fn lemma_fits_at_next(numerator: nat, denominator: nat, exponent: int)
    ensures
        exponent < 0 ==> scaled_numerator(numerator, exponent) == 2 * scaled_numerator(
            numerator,
            exponent + 1,
        ) && scaled_denominator(denominator, exponent) == scaled_denominator(
            denominator,
            exponent + 1,
        ),
        exponent >= 0 ==> scaled_numerator(numerator, exponent + 1) == scaled_numerator(
            numerator,
            exponent,
        ) && scaled_denominator(denominator, exponent + 1) == 2 * scaled_denominator(
            denominator,
            exponent,
        ),
        fits(numerator, denominator, exponent) ==> fits(numerator, denominator, exponent + 1),
{
    power2::lemma2_to64();
    if exponent < 0 {
        let steps = (-exponent) as nat;
        power2::lemma_pow2_unfold(steps);
        let half = power2::pow2((steps - 1) as nat);
        assert(numerator * (2 * half) == 2 * (numerator * half)) by (nonlinear_arith);
        if exponent == -1 {
            assert(power2::pow2(0) == 1);
            assert(numerator * 1 == numerator);
            assert(denominator * 1 == denominator);
        }
    } else {
        let steps = exponent as nat;
        power2::lemma_pow2_unfold(steps + 1);
        let whole = power2::pow2(steps);
        assert(denominator * (2 * whole) == 2 * (denominator * whole)) by (nonlinear_arith);
        let scaled = denominator * whole;
        assert(scaled * SIGNIFICANDS as nat <= (2 * scaled) * SIGNIFICANDS as nat)
            by (nonlinear_arith)
            requires
                scaled >= 0,
        ;
    }
}

/// A size that fits one spacing fits every coarser spacing.
proof fn lemma_fits_when_coarser(numerator: nat, denominator: nat, finer: int, coarser: int)
    requires
        finer <= coarser,
        fits(numerator, denominator, finer),
    ensures
        fits(numerator, denominator, coarser),
    decreases coarser - finer,
{
    if finer < coarser {
        lemma_fits_when_coarser(numerator, denominator, finer, coarser - 1);
        lemma_fits_at_next(numerator, denominator, coarser - 1);
    }
}

/// Only one spacing is the finest that fits.
proof fn lemma_spacing_is_unique(numerator: nat, denominator: nat, exponent: int)
    requires
        is_spacing(numerator, denominator, exponent),
    ensures
        spacing(numerator, denominator) == exponent,
{
    let other = spacing(numerator, denominator);
    assert(is_spacing(numerator, denominator, other));
    if other < exponent {
        lemma_fits_when_coarser(numerator, denominator, other, exponent - 1);
    } else if exponent < other {
        lemma_fits_when_coarser(numerator, denominator, exponent, other - 1);
    }
}

/// Half of the significands, the number of bits below the leading one.
const HALF_SIGNIFICANDS: u64 = 0x10_0000_0000_0000;

/// Divides a number by `divisor` and rounds the quotient to the nearest whole
/// number, where `low` is the divisor times [`HALF_SIGNIFICANDS`].
fn rounded_quotient(number: Natural, low: &Natural, Ghost(divisor): Ghost<nat>) -> (quotient: u64)
    requires
        divisor > 0,
        low@ == divisor * HALF_SIGNIFICANDS,
        number@ < divisor * SIGNIFICANDS,
    ensures
        quotient == round_half_even(number@, divisor),
        quotient <= SIGNIFICANDS,
{
    let ghost whole = number@;
    let ghost high = 2 * low@;
    let mut rest = number;
    let mut quotient: u64 = 0;
    let mut bits: u32 = 0;
    proof {
        power2::lemma2_to64();
        assert(whole * power2::pow2(0) == whole) by (nonlinear_arith)
            requires
                power2::pow2(0) == 1,
        ;
        assert(quotient * high == 0) by (nonlinear_arith)
            requires
                quotient == 0,
        ;
        assert(power2::pow2(53) == SIGNIFICANDS) by {
            power2::lemma2_to64_rest();
        }
    }
    while bits < 53
        invariant
            bits <= 53,
            high == 2 * low@,
            whole * power2::pow2(bits as nat) == quotient * high + rest@,
            rest@ < high,
            quotient < power2::pow2(bits as nat),
            power2::pow2(53) == SIGNIFICANDS,
        decreases 53 - bits,
    {
        let ghost earlier = quotient;
        proof {
            power2::lemma_pow2_unfold((bits + 1) as nat);
            if bits + 1 < 53 {
                power2::lemma_pow2_strictly_increases((bits + 1) as nat, 53);
            }
            let scale = power2::pow2(bits as nat);
            assert(whole * (2 * scale) == 2 * (whole * scale)) by (nonlinear_arith);
            assert(2 * (earlier * high) == (2 * earlier) * high) by (nonlinear_arith);
            assert((2 * earlier + 1) * high == (2 * earlier) * high + high) by (nonlinear_arith);
        }
        if rest.is_below(low) {
            quotient = 2 * quotient;
        } else {
            rest.subtract(low);
            quotient = 2 * quotient + 1;
        }
        rest.double();
        bits += 1;
    }
    proof {
        lemma_long_division(whole, divisor, quotient as nat, rest@);
    }
    let down = rest.is_below(low);
    let up = low.is_below(&rest);
    if down || (!up && quotient % 2 == 0) {
        quotient
    } else {
        quotient + 1
    }
}

/// Long division over all significand bits yields the quotient, and the rest
/// tells on which side of the midpoint the remainder lies.
proof fn lemma_long_division(whole: nat, divisor: nat, quotient: nat, rest: nat)
    requires
        divisor > 0,
        whole * SIGNIFICANDS == quotient * (2 * (divisor * HALF_SIGNIFICANDS)) + rest,
        rest < 2 * (divisor * HALF_SIGNIFICANDS),
    ensures
        quotient == whole / divisor,
        rest < divisor * HALF_SIGNIFICANDS <==> 2 * (whole % divisor) < divisor,
        rest == divisor * HALF_SIGNIFICANDS <==> 2 * (whole % divisor) == divisor,
{
    let remainder: int = whole - quotient * divisor;
    assert(rest == remainder * SIGNIFICANDS && 0 <= remainder < divisor) by (nonlinear_arith)
        requires
            divisor > 0,
            whole * SIGNIFICANDS == quotient * (2 * (divisor * HALF_SIGNIFICANDS)) + rest,
            0 <= rest < 2 * (divisor * HALF_SIGNIFICANDS),
            remainder == whole - quotient * divisor,
            SIGNIFICANDS == 2 * HALF_SIGNIFICANDS,
            HALF_SIGNIFICANDS > 0,
    ;
    assert(whole == divisor * quotient + remainder) by (nonlinear_arith)
        requires
            remainder == whole - quotient * divisor,
    ;
    vstd::arithmetic::div_mod::lemma_fundamental_div_mod_converse(
        whole as int,
        divisor as int,
        quotient as int,
        remainder,
    );
}

/// Rounds a fraction to the nearest double-precision number, or reports that
/// the number is beyond the largest finite one.
pub fn nearest_binary64(numerator: &Natural, denominator: &Natural) -> (result: Option<Binary64>)
    requires
        denominator@ > 0,
    ensures
        result is None <==> nearest(numerator@, denominator@).overflows(),
        result is Some ==> result->0@ == nearest(numerator@, denominator@) && result->0.wf(),
{
    let ghost n = numerator@;
    let ghost d = denominator@;
    let mut number = numerator.clone();
    let mut low = denominator.clone();
    let mut step: u32 = 0;
    proof {
        power2::lemma2_to64();
        assert(d * power2::pow2(0) == d) by (nonlinear_arith)
            requires
                power2::pow2(0) == 1,
        ;
    }
    while step < 52
        invariant
            step <= 52,
            d == denominator@,
            low@ == d * power2::pow2(step as nat),
        decreases 52 - step,
    {
        low.double();
        proof {
            power2::lemma_pow2_unfold((step + 1) as nat);
            let scale = power2::pow2(step as nat);
            assert(d * (2 * scale) == 2 * (d * scale)) by (nonlinear_arith);
        }
        step += 1;
    }
    let mut high = low.clone();
    high.double();
    let mut exponent: i32 = 0;
    proof {
        power2::lemma2_to64_rest();
        assert(d * SIGNIFICANDS == 2 * (d * HALF_SIGNIFICANDS)) by (nonlinear_arith)
            requires
                SIGNIFICANDS == 2 * HALF_SIGNIFICANDS,
        ;
    }
    while exponent <= COARSEST_EXPONENT && !number.is_below(&high)
        invariant
            0 <= exponent <= COARSEST_EXPONENT + 1,
            number@ == n,
            n == numerator@,
            d == denominator@,
            low@ == scaled_denominator(d, exponent as int) * HALF_SIGNIFICANDS,
            high@ == scaled_denominator(d, exponent as int) * SIGNIFICANDS,
            exponent > 0 ==> !fits(n, d, exponent - 1),
        decreases COARSEST_EXPONENT + 1 - exponent,
    {
        proof {
            lemma_fits_at_next(n, d, exponent as int);
            let scaled = scaled_denominator(d, exponent as int);
            assert((2 * scaled) * HALF_SIGNIFICANDS == 2 * (scaled * HALF_SIGNIFICANDS))
                by (nonlinear_arith);
            assert((2 * scaled) * SIGNIFICANDS == 2 * (scaled * SIGNIFICANDS)) by (nonlinear_arith);
        }
        low.double();
        high.double();
        exponent += 1;
    }
    if exponent > COARSEST_EXPONENT {
        proof {
            lemma_too_coarse_overflows(n, d);
        }
        return None;
    }
    while exponent > FINEST_EXPONENT && number.is_below(&low)
        invariant
            FINEST_EXPONENT <= exponent <= COARSEST_EXPONENT,
            number@ == scaled_numerator(n, exponent as int),
            low@ == scaled_denominator(d, exponent as int) * HALF_SIGNIFICANDS,
            fits(n, d, exponent as int),
            exponent > 0 ==> !fits(n, d, exponent - 1),
        decreases exponent - FINEST_EXPONENT,
    {
        proof {
            lemma_fits_at_next(n, d, exponent - 1);
            let scaled = scaled_denominator(d, exponent - 1);
            assert(scaled * SIGNIFICANDS == 2 * (scaled * HALF_SIGNIFICANDS)) by (nonlinear_arith)
                requires
                    SIGNIFICANDS == 2 * HALF_SIGNIFICANDS,
            ;
        }
        number.double();
        exponent -= 1;
    }
    proof {
        let scaled = scaled_denominator(d, exponent as int);
        if exponent > FINEST_EXPONENT {
            lemma_fits_at_next(n, d, exponent - 1);
            assert(scaled * SIGNIFICANDS == 2 * (scaled * HALF_SIGNIFICANDS)) by (nonlinear_arith)
                requires
                    SIGNIFICANDS == 2 * HALF_SIGNIFICANDS,
            ;
        }
        lemma_spacing_is_unique(n, d, exponent as int);
        lemma_scaled_denominator_is_positive(d, exponent as int);
    }
    let significand: u64 = rounded_quotient(
        number,
        &low,
        Ghost(scaled_denominator(d, exponent as int)),
    );
    proof {
        lemma_overflow_test(significand as nat, exponent as int);
    }
    if exponent == COARSEST_EXPONENT && significand == SIGNIFICANDS {
        None
    } else {
        Some(Binary64 { significand, exponent })
    }
}

/// Scaling keeps a denominator positive.
proof fn lemma_scaled_denominator_is_positive(denominator: nat, exponent: int)
    requires
        denominator > 0,
    ensures
        scaled_denominator(denominator, exponent) > 0,
{
    if exponent >= 0 {
        power2::lemma_pow2_pos(exponent as nat);
        let scale = power2::pow2(exponent as nat);
        assert(denominator * scale > 0) by (nonlinear_arith)
            requires
                denominator > 0,
                scale > 0,
        ;
    }
}

/// In double-precision range, only one significand at the coarsest spacing overflows.
pub proof fn lemma_overflow_test(significand: nat, exponent: int)
    requires
        significand <= SIGNIFICANDS,
        exponent <= COARSEST_EXPONENT,
    ensures
        (Rounded { significand, exponent }).overflows() <==> exponent == COARSEST_EXPONENT
            && significand == SIGNIFICANDS,
{
    power2::lemma2_to64_rest();
    power2::lemma_pow2_adds(53, 971);
    power2::lemma_pow2_pos(971);
    if exponent >= 0 {
        let scale = power2::pow2(exponent as nat);
        let coarsest = power2::pow2(971);
        power2::lemma_pow2_pos(exponent as nat);
        if exponent < 971 {
            power2::lemma_pow2_strictly_increases(exponent as nat, 971);
            assert(significand * scale < SIGNIFICANDS * coarsest) by (nonlinear_arith)
                requires
                    significand <= SIGNIFICANDS,
                    0 < SIGNIFICANDS,
                    scale < coarsest,
            ;
        } else if significand < SIGNIFICANDS {
            assert(significand * coarsest < SIGNIFICANDS * coarsest) by (nonlinear_arith)
                requires
                    significand < SIGNIFICANDS,
                    coarsest > 0,
            ;
        }
    }
}

/// A power of two exceeds its exponent.
proof fn lemma_power_exceeds_exponent(exponent: nat)
    ensures
        power2::pow2(exponent) > exponent,
    decreases exponent,
{
    power2::lemma2_to64();
    if exponent > 0 {
        lemma_power_exceeds_exponent((exponent - 1) as nat);
        power2::lemma_pow2_unfold(exponent);
    }
}

/// Every fraction has a spacing at or above one where nothing finer fits.
proof fn lemma_spacing_exists(numerator: nat, denominator: nat, exponent: int)
    requires
        denominator > 0,
        FINEST_EXPONENT <= exponent,
        exponent == FINEST_EXPONENT || !fits(numerator, denominator, exponent - 1),
    ensures
        exists|found: int| is_spacing(numerator, denominator, found),
    decreases numerator + 1 - exponent,
{
    if fits(numerator, denominator, exponent) {
        assert(is_spacing(numerator, denominator, exponent));
    } else {
        if exponent >= numerator {
            let scale = power2::pow2(exponent as nat);
            lemma_power_exceeds_exponent(exponent as nat);
            assert(denominator * scale * SIGNIFICANDS > numerator) by (nonlinear_arith)
                requires
                    denominator >= 1,
                    scale > numerator,
                    SIGNIFICANDS >= 1,
            ;
        }
        lemma_spacing_exists(numerator, denominator, exponent + 1);
    }
}

/// A fraction that does not fit the coarsest finite spacing overflows.
proof fn lemma_too_coarse_overflows(numerator: nat, denominator: nat)
    requires
        denominator > 0,
        !fits(numerator, denominator, COARSEST_EXPONENT as int),
    ensures
        nearest(numerator, denominator).overflows(),
{
    lemma_spacing_exists(numerator, denominator, COARSEST_EXPONENT + 1);
    let exponent = spacing(numerator, denominator);
    assert(is_spacing(numerator, denominator, exponent));
    if exponent <= COARSEST_EXPONENT {
        lemma_fits_when_coarser(numerator, denominator, exponent, COARSEST_EXPONENT as int);
    }
    lemma_fits_at_next(numerator, denominator, exponent - 1);
    let scaled = scaled_denominator(denominator, exponent);
    lemma_scaled_denominator_is_positive(denominator, exponent);
    let half = scaled_denominator(denominator, exponent - 1);
    assert(scaled == 2 * half);
    assert(numerator >= scaled * HALF_SIGNIFICANDS) by (nonlinear_arith)
        requires
            numerator >= half * SIGNIFICANDS,
            scaled == 2 * half,
            SIGNIFICANDS == 2 * HALF_SIGNIFICANDS,
    ;
    let significand = nearest(numerator, denominator).significand;
    assert(numerator / scaled >= HALF_SIGNIFICANDS) by (nonlinear_arith)
        requires
            numerator >= scaled * HALF_SIGNIFICANDS,
            scaled > 0,
    ;
    power2::lemma2_to64_rest();
    power2::lemma_pow2_adds(52, 972);
    let scale = power2::pow2(exponent as nat);
    let least = power2::pow2(972);
    if exponent > 972 {
        power2::lemma_pow2_strictly_increases(972, exponent as nat);
    }
    assert(significand * scale >= HALF_SIGNIFICANDS * least) by (nonlinear_arith)
        requires
            significand >= HALF_SIGNIFICANDS,
            scale >= least,
            least >= 0,
    ;
}

/// Multiplies a number by a power of two.
fn shifted(number: &Natural, exponent: u32) -> (result: Natural)
    ensures
        result@ == number@ * power2::pow2(exponent as nat),
{
    let mut result = number.clone();
    let mut done: u32 = 0;
    proof {
        power2::lemma2_to64();
        assert(number@ * power2::pow2(0) == number@) by (nonlinear_arith)
            requires
                power2::pow2(0) == 1,
        ;
    }
    while done < exponent
        invariant
            done <= exponent,
            result@ == number@ * power2::pow2(done as nat),
        decreases exponent - done,
    {
        result.double();
        proof {
            power2::lemma_pow2_unfold((done + 1) as nat);
            let whole = number@;
            let scale = power2::pow2(done as nat);
            assert(whole * (2 * scale) == 2 * (whole * scale)) by (nonlinear_arith);
        }
        done += 1;
    }
    result
}

/// Returns a power of two below the width of a double word.
pub(crate) fn power_word(exponent: u32) -> (result: u128)
    requires
        exponent < 128,
    ensures
        result == power2::pow2(exponent as nat),
{
    let mut result: u128 = 1;
    let mut done: u32 = 0;
    proof {
        power2::lemma2_to64();
    }
    while done < exponent
        invariant
            done <= exponent < 128,
            result == power2::pow2(done as nat),
        decreases exponent - done,
    {
        proof {
            power2::lemma_pow2_unfold((done + 1) as nat);
            lemma_double_word_holds((done + 1) as nat);
        }
        result = result * 2;
        done += 1;
    }
    result
}

/// A double word holds every power of two below its width.
proof fn lemma_double_word_holds(exponent: nat)
    requires
        exponent < 128,
    ensures
        power2::pow2(exponent) <= u128::MAX,
{
    power2::lemma2_to64();
    power2::lemma2_to64_rest();
    power2::lemma_pow2_adds(64, 63);
    assert(power2::pow2(127) <= u128::MAX);
    if exponent < 127 {
        power2::lemma_pow2_strictly_increases(exponent, 127);
    }
}

impl Binary64 {
    /// Returns the numerator of the number as a fraction.
    fn natural_numerator(&self) -> (result: Natural)
        ensures
            result@ == self@.numerator(),
    {
        let number = Natural::from_word(self.significand);
        if self.exponent < 0 {
            number
        } else {
            shifted(&number, self.exponent as u32)
        }
    }

    /// Returns the power of two of the denominator of the number as a fraction.
    fn places(&self) -> (result: u32)
        requires
            self.wf(),
        ensures
            self@.denominator() == power2::pow2(result as nat),
            self@.denominator() > 0,
    {
        proof {
            power2::lemma2_to64();
            power2::lemma_pow2_pos((-self.exponent) as nat);
        }
        if self.exponent < 0 {
            (-self.exponent) as u32
        } else {
            0
        }
    }

    /// Multiplies by a whole number and rounds, or reports an overflow.
    pub fn times(&self, factor: u32) -> (result: Option<Binary64>)
        requires
            self.wf(),
        ensures
            result is None <==> self@.times(factor as nat).overflows(),
            result is Some ==> result->0@ == self@.times(factor as nat) && result->0.wf(),
    {
        let mut product = self.natural_numerator();
        product.multiply_and_add(factor, 0);
        let one = Natural::from_word(1);
        let power = shifted(&one, self.places());
        proof {
            assert(1 * self@.denominator() == self@.denominator());
        }
        nearest_binary64(&product, &power)
    }

    /// Divides by a positive whole number and rounds, or reports an overflow.
    pub fn over(&self, divisor: u32) -> (result: Option<Binary64>)
        requires
            self.wf(),
            divisor > 0,
        ensures
            result is None <==> self@.over(divisor as nat).overflows(),
            result is Some ==> result->0@ == self@.over(divisor as nat) && result->0.wf(),
    {
        let number = self.natural_numerator();
        let below = Natural::from_word(divisor as u64);
        let power = shifted(&below, self.places());
        proof {
            let scale = self@.denominator();
            assert(divisor as nat * scale == scale * divisor as nat && scale * divisor as nat > 0)
                by (nonlinear_arith)
                requires
                    divisor > 0,
                    scale > 0,
            ;
        }
        nearest_binary64(&number, &power)
    }

    /// Reports whether the number is below a whole number.
    pub fn is_below_whole(&self, whole: u32) -> (below: bool)
        requires
            self.wf(),
        ensures
            below == (self@.numerator() < whole as nat * self@.denominator()),
    {
        let number = self.natural_numerator();
        let limit = shifted(&Natural::from_word(whole as u64), self.places());
        number.is_below(&limit)
    }

    /// Adds two numbers and rounds, or reports an overflow.
    pub fn plus(&self, other: &Binary64) -> (result: Option<Binary64>)
        requires
            self.wf(),
            other.wf(),
        ensures
            result is None <==> self@.plus(other@).overflows(),
            result is Some ==> result->0@ == self@.plus(other@) && result->0.wf(),
    {
        if self.exponent <= 800 && other.exponent <= 800 && self.exponent - other.exponent <= 60
            && other.exponent - self.exponent <= 60 {
            return Some(sum::near_sum(self, other));
        }
        let left = self.natural_numerator();
        let right = other.natural_numerator();
        let mut sum = shifted(&left, other.places());
        let added = shifted(&right, self.places());
        sum.add_natural(&added);
        let one = Natural::from_word(1);
        let first = shifted(&one, self.places());
        let power = shifted(&first, other.places());
        proof {
            let a = self@.denominator();
            let b = other@.denominator();
            assert(1 * a == a);
            assert(a * b > 0) by (nonlinear_arith)
                requires
                    a > 0,
                    b > 0,
            ;
        }
        nearest_binary64(&sum, &power)
    }

    /// Returns the whole number nearest to the number times a factor. A number
    /// that reaches the given power of two has none.
    pub fn units(&self, factor: u32, bits: u32) -> (result: Option<u128>)
        requires
            self.wf(),
            0 < factor <= 1_000_000_000,
            64 <= bits <= 80,
        ensures
            result is Some <==> self@.is_below_power(bits as nat),
            result is Some ==> result->0 == self@.units(factor as nat),
            result is Some && bits == 64 ==> result->0 <= 0xFFFF_FFFF_FFFF_FFFF * factor,
            result is Some ==> result->0 <= 0x1_0000_0000_0000_0000_0000 * factor,
    {
        proof {
            power2::lemma2_to64();
            power2::lemma2_to64_rest();
            power2::lemma_pow2_adds(64, 16);
            if bits < 80 {
                power2::lemma_pow2_strictly_increases(bits as nat, 80);
            }
            if bits > 64 {
                power2::lemma_pow2_strictly_increases(64, bits as nat);
            }
        }
        if self.exponent < 0 {
            let places: u32 = (-self.exponent) as u32;
            proof {
                let scale = power2::pow2(places as nat);
                power2::lemma_pow2_pos(places as nat);
                assert(self.significand < scale * power2::pow2(bits as nat)) by (nonlinear_arith)
                    requires
                        self.significand < power2::pow2(bits as nat),
                        scale >= 1,
                ;
                let count = self.significand;
                assert(count * factor <= 0x20_0000_0000_0000 * factor <= 0x20_0000_0000_0000
                    * 1_000_000_000) by (nonlinear_arith)
                    requires
                        count <= 0x20_0000_0000_0000,
                        0 < factor <= 1_000_000_000,
                ;
            }
            let numerator: u128 = self.significand as u128 * factor as u128;
            if places >= 100 {
                proof {
                    power2::lemma_pow2_adds(64, 36);
                    if places > 100 {
                        power2::lemma_pow2_strictly_increases(100, places as nat);
                    }
                    let scale = power2::pow2(places as nat);
                    assert(2 * numerator < scale);
                    vstd::arithmetic::div_mod::lemma_basic_div(numerator as int, scale as int);
                    vstd::arithmetic::div_mod::lemma_small_mod(numerator as nat, scale);
                }
                return Some(0);
            }
            let denominator: u128 = power_word(places);
            proof {
                power2::lemma_pow2_pos(places as nat);
                power2::lemma_pow2_adds(64, 36);
                power2::lemma_pow2_strictly_increases(places as nat, 100);
            }
            let quotient: u128 = numerator / denominator;
            let remainder: u128 = numerator % denominator;
            proof {
                assert(quotient <= numerator) by (nonlinear_arith)
                    requires
                        quotient == numerator / denominator,
                        denominator >= 1,
                ;
                assert(0x20_0000_0000_0000 * factor + 1 <= 0xFFFF_FFFF_FFFF_FFFF * factor)
                    by (nonlinear_arith)
                    requires
                        factor >= 1,
                ;
            }
            if 2 * remainder < denominator || (2 * remainder == denominator && quotient % 2 == 0) {
                Some(quotient)
            } else {
                Some(quotient + 1)
            }
        } else if self.significand == 0 {
            proof {
                let scale = power2::pow2(self.exponent as nat);
                assert(0 * scale == 0 && 0 * factor == 0) by (nonlinear_arith);
            }
            Some(0)
        } else if self.exponent as u32 >= bits {
            proof {
                let scale = power2::pow2(self.exponent as nat);
                if self.exponent > bits {
                    power2::lemma_pow2_strictly_increases(bits as nat, self.exponent as nat);
                }
                let count = self.significand as nat;
                assert(count * scale >= scale) by (nonlinear_arith)
                    requires
                        count >= 1,
                ;
            }
            None
        } else {
            let limit: u128 = power_word(bits - self.exponent as u32);
            proof {
                let scale = power2::pow2(self.exponent as nat);
                let room = power2::pow2((bits - self.exponent) as nat);
                power2::lemma_pow2_adds(self.exponent as nat, (bits - self.exponent) as nat);
                power2::lemma_pow2_pos(self.exponent as nat);
                let count = self.significand as nat;
                assert(count < room <==> count * scale < scale * room) by (nonlinear_arith)
                    requires
                        scale > 0,
                ;
            }
            if (self.significand as u128) < limit {
                let scale: u128 = power_word(self.exponent as u32);
                let whole: u128 = self.significand as u128 * scale;
                proof {
                    assert(whole * factor <= 0x1_0000_0000_0000_0000_0000 * factor
                        <= 0x1_0000_0000_0000_0000_0000 * 1_000_000_000) by (nonlinear_arith)
                        requires
                            whole <= 0x1_0000_0000_0000_0000_0000,
                            0 < factor <= 1_000_000_000,
                    ;
                    if bits == 64 {
                        assert(whole * factor <= 0xFFFF_FFFF_FFFF_FFFF * factor)
                            by (nonlinear_arith)
                            requires
                                whole <= 0xFFFF_FFFF_FFFF_FFFF,
                                0 < factor,
                        ;
                    }
                }
                Some(whole * factor as u128)
            } else {
                None
            }
        }
    }

    /// Converts a count of seconds to a duration, to the nearest nanosecond.
    ///
    /// A count from two to the power of 64 on is beyond every duration.
    pub fn seconds(&self) -> (duration: Option<Duration>)
        requires
            self.wf(),
        ensures
            duration is Some <==> self@.is_below_power(64),
            duration is Some ==> duration->0@ == self@.nanoseconds(),
    {
        match self.units(1_000_000_000, 64) {
            Some(nanoseconds) => Duration::checked_from_nanos(nanoseconds),
            None => None,
        }
    }
}

/// The length of a run of frames, in nanoseconds.
///
/// The frame count and its quotient by the rate are each rounded to double
/// precision before the conversion to nanoseconds. A zero rate has no length.
pub open spec fn frame_nanoseconds(frames: nat, rate: nat) -> nat {
    if rate == 0 {
        0
    } else {
        nearest(frames, 1).over(rate).nanoseconds()
    }
}

/// Whether the length of a run of frames is within the range of a duration.
pub open spec fn frames_have_length(frames: nat, rate: nat) -> bool {
    rate == 0 || nearest(frames, 1).over(rate).is_below_power(64)
}

/// Converts a run of frames to its length, or reports that the length is
/// beyond every duration.
pub fn checked_frame_duration(frames: u64, rate: u32) -> (duration: Option<Duration>)
    ensures
        duration is Some <==> frames_have_length(frames as nat, rate as nat),
        duration is Some ==> duration->0@ == frame_nanoseconds(frames as nat, rate as nat),
{
    if rate == 0 {
        return Some(Duration::zero());
    }
    let number = Natural::from_word(frames);
    let one = Natural::from_word(1);
    proof {
        lemma_frame_quotient(frames as nat, rate as nat);
    }
    match nearest_binary64(&number, &one) {
        None => None,
        Some(count) => match count.over(rate) {
            None => None,
            Some(seconds) => seconds.seconds(),
        },
    }
}

/// A fraction below a power of two has a spacing that is not too coarse.
proof fn lemma_spacing_limit(numerator: nat, denominator: nat, limit: nat)
    requires
        denominator > 0,
        limit <= 970,
        numerator < denominator * power2::pow2(53 + limit),
    ensures
        is_spacing(numerator, denominator, spacing(numerator, denominator)),
        spacing(numerator, denominator) <= limit,
        nearest(numerator, denominator).significand <= SIGNIFICANDS,
        !nearest(numerator, denominator).overflows(),
{
    power2::lemma2_to64_rest();
    power2::lemma_pow2_adds(53, limit);
    let scale = power2::pow2(limit);
    assert(denominator * power2::pow2(53 + limit) == denominator * scale * SIGNIFICANDS)
        by (nonlinear_arith)
        requires
            power2::pow2(53 + limit) == SIGNIFICANDS * scale,
    ;
    assert(fits(numerator, denominator, limit as int));
    lemma_spacing_exists(numerator, denominator, FINEST_EXPONENT as int);
    let exponent = spacing(numerator, denominator);
    if exponent > limit {
        lemma_fits_when_coarser(numerator, denominator, limit as int, exponent - 1);
    }
    lemma_significand_limit(numerator, denominator);
    lemma_overflow_test(nearest(numerator, denominator).significand, exponent);
}

/// A rounded fraction needs no more spacings than there are significands.
proof fn lemma_significand_limit(numerator: nat, denominator: nat)
    requires
        denominator > 0,
        is_spacing(numerator, denominator, spacing(numerator, denominator)),
    ensures
        nearest(numerator, denominator).significand <= SIGNIFICANDS,
{
    let exponent = spacing(numerator, denominator);
    let n = scaled_numerator(numerator, exponent);
    let d = scaled_denominator(denominator, exponent);
    lemma_scaled_denominator_is_positive(denominator, exponent);
    assert(n / d < SIGNIFICANDS) by (nonlinear_arith)
        requires
            n < d * SIGNIFICANDS,
            d > 0,
    ;
}

/// A quotient of at most a whole number rounds to at most that number.
pub(crate) proof fn lemma_rounding_is_below(numerator: nat, denominator: nat, limit: nat)
    requires
        denominator > 0,
        numerator <= denominator * limit,
    ensures
        round_half_even(numerator, denominator) <= limit,
{
    let quotient = numerator / denominator;
    let remainder = numerator % denominator;
    vstd::arithmetic::div_mod::lemma_fundamental_div_mod(numerator as int, denominator as int);
    assert(quotient < limit || (quotient == limit && remainder == 0)) by (nonlinear_arith)
        requires
            numerator <= denominator * limit,
            numerator == denominator * quotient + remainder,
            0 <= remainder < denominator,
    ;
}

/// A fraction of at most a power of two rounds to at most that power of two.
pub proof fn lemma_rounding_keeps_limit(numerator: nat, denominator: nat, bits: nat)
    requires
        denominator > 0,
        bits <= 900,
        numerator <= denominator * power2::pow2(bits),
    ensures
        is_spacing(numerator, denominator, spacing(numerator, denominator)),
        nearest(numerator, denominator).numerator() <= nearest(numerator, denominator).denominator()
            * power2::pow2(bits),
        nearest(numerator, denominator).denominator() > 0,
        !nearest(numerator, denominator).overflows(),
{
    power2::lemma2_to64();
    power2::lemma2_to64_rest();
    power2::lemma_pow2_pos(bits);
    let limit = power2::pow2(bits);
    power2::lemma_pow2_strictly_increases(bits, 53 + bits);
    assert(denominator * limit < denominator * power2::pow2(53 + bits)) by (nonlinear_arith)
        requires
            denominator > 0,
            limit < power2::pow2(53 + bits),
    ;
    lemma_spacing_limit(numerator, denominator, bits);
    let exponent = spacing(numerator, denominator);
    let rounded = nearest(numerator, denominator);
    if exponent < 0 {
        let scale = power2::pow2((-exponent) as nat);
        power2::lemma_pow2_pos((-exponent) as nat);
        assert(numerator * scale <= denominator * (scale * limit)) by (nonlinear_arith)
            requires
                numerator <= denominator * limit,
                scale > 0,
        ;
        lemma_rounding_is_below(numerator * scale, denominator, scale * limit);
    } else {
        let scale = power2::pow2(exponent as nat);
        power2::lemma_pow2_pos(exponent as nat);
        let rest = power2::pow2((bits - exponent) as nat);
        power2::lemma_pow2_adds(exponent as nat, (bits - exponent) as nat);
        assert(denominator * limit == (denominator * scale) * rest && denominator * scale > 0)
            by (nonlinear_arith)
            requires
                limit == scale * rest,
                denominator > 0,
                scale > 0,
        ;
        lemma_rounding_is_below(numerator, denominator * scale, rest);
        let count = rounded.significand;
        assert(count * scale <= limit) by (nonlinear_arith)
            requires
                count <= rest,
                limit == scale * rest,
                scale > 0,
        ;
    }
}

/// The quotient of a number of at most a power of two by a whole number keeps
/// that limit.
pub proof fn lemma_quotient_keeps_limit(value: Rounded, rate: nat, bits: nat)
    requires
        rate > 0,
        bits <= 900,
        value.denominator() > 0,
        value.numerator() <= value.denominator() * power2::pow2(bits) || (bits > 0 && rate >= 2
            && value.numerator() <= value.denominator() * power2::pow2(bits + 1)),
    ensures
        value.over(rate).numerator() <= value.over(rate).denominator() * power2::pow2(bits),
        value.over(rate).denominator() > 0,
        !value.over(rate).overflows(),
{
    let n = value.numerator();
    let d = value.denominator();
    let limit = power2::pow2(bits);
    power2::lemma_pow2_unfold(bits + 1);
    power2::lemma_pow2_pos(bits);
    assert(n <= (d * rate) * limit && d * rate > 0) by (nonlinear_arith)
        requires
            rate >= 1,
            d > 0,
            limit > 0,
            n <= d * limit || (rate >= 2 && n <= d * (2 * limit)),
    ;
    lemma_rounding_keeps_limit(n, d * rate, bits);
}

/// Neither a frame count nor its quotient by a rate overflows.
proof fn lemma_frame_quotient(frames: nat, rate: nat)
    requires
        frames <= u64::MAX,
        rate > 0,
    ensures
        !nearest(frames, 1).overflows(),
        !nearest(frames, 1).over(rate).overflows(),
{
    power2::lemma2_to64();
    assert(1 * power2::pow2(64) == power2::pow2(64));
    lemma_rounding_keeps_limit(frames, 1, 64);
    lemma_quotient_keeps_limit(nearest(frames, 1), rate, 64);
}

/// Every run of frames has a length, except at a rate of one frame per second
/// close to the largest frame count.
pub proof fn law_ordinary_runs_have_a_length(frames: nat, rate: nat)
    requires
        frames <= u64::MAX,
        rate != 1 || frames <= power2::pow2(63),
    ensures
        frames_have_length(frames, rate),
{
    if rate > 0 {
        power2::lemma2_to64();
        power2::lemma2_to64_rest();
        assert(1 * power2::pow2(64) == power2::pow2(64));
        assert(1 * power2::pow2(63) == power2::pow2(63));
        if rate == 1 {
            lemma_rounding_keeps_limit(frames, 1, 63);
        } else {
            lemma_rounding_keeps_limit(frames, 1, 64);
        }
        let count = nearest(frames, 1);
        lemma_quotient_keeps_limit(count, rate, 63);
        let length = count.over(rate);
        let d = length.denominator();
        assert(d * power2::pow2(63) < d * power2::pow2(64)) by (nonlinear_arith)
            requires
                d > 0,
                power2::pow2(63) < power2::pow2(64),
        ;
    }
}

/// The seconds of a nanosecond count as a double-precision number.
///
/// The whole seconds and the fraction are each rounded, and so is their sum.
pub open spec fn seconds_value(nanoseconds: nat) -> Rounded {
    nearest(nanoseconds / NANOS_PER_SECOND as nat, 1).plus(
        nearest(nanoseconds % NANOS_PER_SECOND as nat, NANOS_PER_SECOND as nat),
    )
}

/// Returns the seconds of a duration as a double-precision number.
pub fn duration_seconds(duration: &Duration) -> (seconds: Binary64)
    ensures
        seconds@ == seconds_value(duration@),
        seconds.wf(),
        seconds@.is_below_power(66),
        seconds@.is_below_power(80),
{
    let nanoseconds: u128 = duration.as_nanos();
    let whole: u128 = nanoseconds / NANOS_PER_SECOND;
    let part: u128 = nanoseconds % NANOS_PER_SECOND;
    proof {
        lemma_seconds_are_in_range(nanoseconds as nat);
        lemma_wider_limit(seconds_value(nanoseconds as nat), 66, 80);
    }
    let one = Natural::from_word(1);
    let billion = Natural::from_word(1_000_000_000);
    let zero = Binary64 { significand: 0, exponent: 0 };
    let front = match nearest_binary64(&Natural::from_word(whole as u64), &one) {
        Some(value) => value,
        None => zero,
    };
    let back = match nearest_binary64(&Natural::from_word(part as u64), &billion) {
        Some(value) => value,
        None => zero,
    };
    match front.plus(&back) {
        Some(value) => value,
        None => zero,
    }
}

/// No step of converting a duration to seconds overflows.
proof fn lemma_seconds_are_in_range(nanoseconds: nat)
    requires
        nanoseconds <= crate::time::MAX_NANOSECONDS,
    ensures
        !nearest(nanoseconds / NANOS_PER_SECOND as nat, 1).overflows(),
        !nearest(
            nanoseconds % NANOS_PER_SECOND as nat,
            NANOS_PER_SECOND as nat,
        ).overflows(),
        !seconds_value(nanoseconds).overflows(),
        seconds_value(nanoseconds).is_below_power(66),
{
    let whole = nanoseconds / NANOS_PER_SECOND as nat;
    let part = nanoseconds % NANOS_PER_SECOND as nat;
    power2::lemma2_to64();
    power2::lemma2_to64_rest();
    power2::lemma_pow2_unfold(65);
    power2::lemma_pow2_unfold(66);
    assert(1 * power2::pow2(64) == power2::pow2(64));
    assert(NANOS_PER_SECOND as nat * power2::pow2(64) >= part);
    lemma_rounding_keeps_limit(whole, 1, 64);
    lemma_rounding_keeps_limit(part, NANOS_PER_SECOND as nat, 64);
    let front = nearest(whole, 1);
    let back = nearest(part, NANOS_PER_SECOND as nat);
    let (a, b) = (front.numerator(), front.denominator());
    let (c, d) = (back.numerator(), back.denominator());
    let limit = power2::pow2(64);
    assert(a * d + c * b <= (b * d) * (2 * limit) && b * d > 0) by (nonlinear_arith)
        requires
            a <= b * limit,
            c <= d * limit,
            b > 0,
            d > 0,
    ;
    lemma_rounding_keeps_limit(a * d + c * b, b * d, 65);
    let sum = front.plus(back);
    let whole_scale = sum.denominator();
    assert(whole_scale * power2::pow2(65) < whole_scale * power2::pow2(66)) by (nonlinear_arith)
        requires
            whole_scale > 0,
            power2::pow2(65) < power2::pow2(66),
    ;
}

/// A fraction that is a whole number rounds to itself.
proof fn lemma_whole_number_is_exact(whole: nat, denominator: nat)
    requires
        denominator > 0,
        whole < SIGNIFICANDS,
    ensures
        nearest(whole * denominator, denominator).exponent <= 0,
        nearest(whole * denominator, denominator).significand == whole * power2::pow2(
            (-nearest(whole * denominator, denominator).exponent) as nat,
        ),
{
    power2::lemma2_to64();
    power2::lemma2_to64_rest();
    let numerator = whole * denominator;
    assert(numerator < denominator * power2::pow2(53 + 0)) by (nonlinear_arith)
        requires
            numerator == whole * denominator,
            whole < SIGNIFICANDS,
            power2::pow2(53 + 0) == SIGNIFICANDS,
            denominator > 0,
    ;
    lemma_spacing_limit(numerator, denominator, 0);
    let exponent = spacing(numerator, denominator);
    let scale = power2::pow2((-exponent) as nat);
    let count = whole * scale;
    if exponent == 0 {
        assert(scale == 1);
        assert(numerator * scale == numerator) by (nonlinear_arith)
            requires
                scale == 1,
        ;
    }
    assert(scaled_numerator(numerator, exponent) == numerator * scale);
    assert(numerator * scale == count * denominator) by (nonlinear_arith)
        requires
            numerator == whole * denominator,
            count == whole * scale,
    ;
    assert(scaled_denominator(denominator, exponent) == denominator) by (nonlinear_arith)
        requires
            scaled_denominator(denominator, exponent) == denominator || (exponent == 0
                && scaled_denominator(denominator, exponent) == denominator * 1),
    ;
    lemma_exact_rounding(count, denominator);
}

/// A multiple of the denominator rounds to its exact quotient.
proof fn lemma_exact_rounding(count: nat, denominator: nat)
    requires
        denominator > 0,
    ensures
        round_half_even(count * denominator, denominator) == count,
{
    vstd::arithmetic::div_mod::lemma_fundamental_div_mod_converse(
        (count * denominator) as int,
        denominator as int,
        count as int,
        0,
    );
}

/// A whole number of seconds of frames has exactly that length.
pub proof fn law_whole_seconds_are_exact(seconds: nat, rate: nat)
    requires
        rate > 0,
        seconds * rate < SIGNIFICANDS,
    ensures
        frame_nanoseconds(seconds * rate, rate) == seconds * NANOS_PER_SECOND,
{
    power2::lemma2_to64();
    let frames = seconds * rate;
    assert(seconds < SIGNIFICANDS) by (nonlinear_arith)
        requires
            rate > 0,
            seconds * rate < SIGNIFICANDS,
    ;
    assert(frames * 1 == frames);
    lemma_whole_number_is_exact(frames, 1);
    let count = nearest(frames, 1);
    let scale = power2::pow2((-count.exponent) as nat);
    power2::lemma_pow2_pos((-count.exponent) as nat);
    assert(count.significand == seconds * (scale * rate)) by (nonlinear_arith)
        requires
            count.significand == frames * scale,
            frames == seconds * rate,
    ;
    assert(scale * rate > 0) by (nonlinear_arith)
        requires
            rate > 0,
            scale > 0,
    ;
    lemma_whole_number_is_exact(seconds, scale * rate);
    let length = nearest(seconds * (scale * rate), scale * rate);
    assert(count.exponent == 0 ==> scale * rate == rate) by (nonlinear_arith)
        requires
            count.exponent == 0 ==> scale == 1,
    ;
    assert(count.exponent == 0 ==> count.significand * power2::pow2(0) == count.significand)
        by (nonlinear_arith)
        requires
            power2::pow2(0) == 1,
    ;
    assert(count.over(rate) == length);
    let places = power2::pow2((-length.exponent) as nat);
    power2::lemma_pow2_pos((-length.exponent) as nat);
    let nanoseconds = seconds * NANOS_PER_SECOND as nat;
    assert(length.significand * NANOS_PER_SECOND as nat == nanoseconds * places)
        by (nonlinear_arith)
        requires
            length.significand == seconds * places,
            nanoseconds == seconds * NANOS_PER_SECOND as nat,
    ;
    if length.exponent < 0 {
        lemma_exact_rounding(nanoseconds, places);
    } else {
        assert(length.significand * power2::pow2(0) == length.significand) by (nonlinear_arith)
            requires
                power2::pow2(0) == 1,
        ;
        assert(seconds * places == seconds) by (nonlinear_arith)
            requires
                places == 1,
        ;
    }
}

/// A whole number times a whole number is exact below two to the power of 53,
/// and a count of that many seconds has exactly that length.
pub proof fn lemma_whole_product_is_exact(number: nat, factor: nat)
    requires
        factor > 0,
        number > 0,
        number * factor < SIGNIFICANDS,
    ensures
        !nearest(number, 1).overflows(),
        !nearest(number, 1).times(factor).overflows(),
        nearest(number, 1).times(factor).significand > 0,
        nearest(number, 1).times(factor).is_below_power(64),
        nearest(number, 1).times(factor).nanoseconds() == number * factor * NANOS_PER_SECOND,
{
    power2::lemma2_to64();
    power2::lemma2_to64_rest();
    let product = number * factor;
    assert(number <= product && product > 0) by (nonlinear_arith)
        requires
            factor > 0,
            number > 0,
            product == number * factor,
    ;
    assert(number * 1 == number);
    assert(1 * power2::pow2(64) == power2::pow2(64));
    lemma_rounding_keeps_limit(number, 1, 64);
    lemma_whole_number_is_exact(number, 1);
    let value = nearest(number, 1);
    let scale = power2::pow2((-value.exponent) as nat);
    power2::lemma_pow2_pos((-value.exponent) as nat);
    assert(value.numerator() == number * scale && value.denominator() == scale)
        by (nonlinear_arith)
        requires
            value.significand == number * scale,
            value.exponent < 0 ==> value.numerator() == value.significand && value.denominator()
                == scale,
            value.exponent == 0 ==> value.numerator() == value.significand * power2::pow2(0)
                && value.denominator() == 1 && scale == 1,
            value.exponent <= 0,
            power2::pow2(0) == 1,
    ;
    assert(number * scale * factor == product * scale) by (nonlinear_arith)
        requires
            product == number * factor,
    ;
    lemma_whole_number_is_exact(product, scale);
    let length = value.times(factor);
    let places = power2::pow2((-length.exponent) as nat);
    power2::lemma_pow2_pos((-length.exponent) as nat);
    assert(product * scale <= scale * power2::pow2(63)) by (nonlinear_arith)
        requires
            product <= power2::pow2(63),
            scale > 0,
    ;
    lemma_rounding_keeps_limit(product * scale, scale, 63);
    lemma_wider_limit(length, 63, 64);
    assert(length.significand > 0) by (nonlinear_arith)
        requires
            length.significand == product * places,
            product > 0,
            places > 0,
    ;
    let nanoseconds = product * NANOS_PER_SECOND as nat;
    assert(length.significand * NANOS_PER_SECOND as nat == nanoseconds * places)
        by (nonlinear_arith)
        requires
            length.significand == product * places,
            nanoseconds == product * NANOS_PER_SECOND as nat,
    ;
    if length.exponent < 0 {
        lemma_exact_rounding(nanoseconds, places);
    } else {
        assert(length.significand * power2::pow2(0) == length.significand) by (nonlinear_arith)
            requires
                power2::pow2(0) == 1,
        ;
        assert(product * places == product) by (nonlinear_arith)
            requires
                places == 1,
        ;
    }
}

/// A fraction of at least two to the power of 1024 overflows.
pub proof fn lemma_huge_fraction_overflows(numerator: nat, denominator: nat)
    requires
        denominator > 0,
        numerator >= denominator * power2::pow2(1024),
    ensures
        nearest(numerator, denominator).overflows(),
{
    power2::lemma2_to64_rest();
    power2::lemma_pow2_adds(53, 971);
    let scale = power2::pow2(971);
    assert(denominator * scale * SIGNIFICANDS == denominator * power2::pow2(1024))
        by (nonlinear_arith)
        requires
            power2::pow2(1024) == SIGNIFICANDS * scale,
    ;
    lemma_too_coarse_overflows(numerator, denominator);
}

/// A fraction below half of the finest spacing rounds to zero.
pub proof fn lemma_tiny_fraction_vanishes(numerator: nat, denominator: nat)
    requires
        numerator * power2::pow2(1075) < denominator,
    ensures
        nearest(numerator, denominator) == (Rounded {
            significand: 0,
            exponent: FINEST_EXPONENT as int,
        }),
{
    power2::lemma_pow2_unfold(1075);
    let scale = power2::pow2(1074);
    let scaled = numerator * scale;
    assert(2 * scaled == numerator * power2::pow2(1075)) by (nonlinear_arith)
        requires
            power2::pow2(1075) == 2 * scale,
            scaled == numerator * scale,
    ;
    assert(scaled < denominator * SIGNIFICANDS) by (nonlinear_arith)
        requires
            2 * scaled < denominator,
            SIGNIFICANDS >= 1,
    ;
    lemma_spacing_is_unique(numerator, denominator, FINEST_EXPONENT as int);
    vstd::arithmetic::div_mod::lemma_basic_div(scaled as int, denominator as int);
    vstd::arithmetic::div_mod::lemma_small_mod(scaled, denominator);
}

/// A fraction that is not too small has a spacing that is not too fine.
proof fn lemma_spacing_floor(numerator: nat, denominator: nat, bits: nat)
    requires
        denominator > 0,
        denominator <= numerator * power2::pow2(bits),
        is_spacing(numerator, denominator, spacing(numerator, denominator)),
    ensures
        spacing(numerator, denominator) > -(bits + 53),
{
    let exponent = spacing(numerator, denominator);
    if exponent <= -(bits + 53) {
        let scale = power2::pow2((-exponent) as nat);
        power2::lemma2_to64_rest();
        power2::lemma_pow2_adds(bits, 53);
        let limit = power2::pow2(bits + 53);
        if -exponent > bits + 53 {
            power2::lemma_pow2_strictly_increases(bits + 53, (-exponent) as nat);
        }
        let low = power2::pow2(bits);
        assert(numerator * scale >= denominator * SIGNIFICANDS as nat) by (nonlinear_arith)
            requires
                denominator <= numerator * low,
                scale >= limit,
                limit == low * SIGNIFICANDS as nat,
        ;
    }
}

/// The quotient of two counts, which are rounded to double precision first.
pub open spec fn ratio_value(count: nat, whole: nat) -> Rounded {
    nearest(count, 1).divided_by(nearest(whole, 1))
}

/// Nothing of a whole is zero.
pub proof fn lemma_zero_ratio(whole: nat)
    requires
        whole > 0,
    ensures
        ratio_value(0, whole).significand == 0,
{
    power2::lemma_pow2_pos(1074);
    assert(0 * power2::pow2(1075) == 0) by (nonlinear_arith);
    lemma_tiny_fraction_vanishes(0, 1);
    let zero = nearest(0, 1);
    let below = nearest(whole, 1);
    let one = Rounded { significand: 1, exponent: 0 };
    power2::lemma2_to64();
    assert(1 * power2::pow2(0) == 1);
    order::lemma_nearest_reaches(one, whole, 1);
    lemma_denominator_is_positive(zero);
    lemma_denominator_is_positive(below);
    let (b, c, d) = (zero.denominator(), below.numerator(), below.denominator());
    assert(0 * d == 0 && b * c > 0) by (nonlinear_arith)
        requires
            b > 0,
            c >= d,
            d > 0,
    ;
    lemma_tiny_fraction_vanishes(0, b * c);
}

/// Returns the nearest double-precision number to a count.
pub fn count_number(count: u64) -> (number: Binary64)
    ensures
        number@ == nearest(count as nat, 1),
        number.wf(),
        number@.numerator() <= number@.denominator() * power2::pow2(64),
        count > 0 ==> number@.numerator() >= number@.denominator(),
        count > 0 ==> number.exponent > -60,
        number.exponent <= 64,
{
    proof {
        power2::lemma2_to64();
        assert(1 * power2::pow2(64) == power2::pow2(64));
        lemma_rounding_keeps_limit(count as nat, 1, 64);
        power2::lemma_pow2_strictly_increases(64, 53 + 64);
        assert(1 * power2::pow2(53 + 64) == power2::pow2(53 + 64));
        lemma_spacing_limit(count as nat, 1, 64);
        if count > 0 {
            assert(count as nat * 1 == count as nat);
            lemma_spacing_floor(count as nat, 1, 0);
            let one = Rounded { significand: 1, exponent: 0 };
            assert(1 * power2::pow2(0) == 1);
            order::lemma_nearest_reaches(one, count as nat, 1);
        }
    }
    match nearest_binary64(&Natural::from_word(count), &Natural::from_word(1)) {
        Some(number) => number,
        None => Binary64 { significand: 0, exponent: 0 },
    }
}

/// Returns the quotient of two counts.
pub fn count_ratio(count: u64, whole: u64) -> (ratio: Binary64)
    requires
        whole > 0,
    ensures
        ratio@ == ratio_value(count as nat, whole as nat),
        ratio.wf(),
        count > 0 ==> ratio.exponent > -120,
        ratio.exponent <= 64,
{
    let above = count_number(count);
    let below = count_number(whole);
    proof {
        lemma_denominator_is_positive(above@);
        lemma_denominator_is_positive(below@);
        let (a, b) = (above@.numerator(), above@.denominator());
        let (c, d) = (below@.numerator(), below@.denominator());
        let limit = power2::pow2(64);
        assert(a * d <= (b * c) * limit && b * c > 0) by (nonlinear_arith)
            requires
                a <= b * limit,
                c >= d,
                d > 0,
                b > 0,
        ;
        lemma_rounding_keeps_limit(a * d, b * c, 64);
        power2::lemma_pow2_pos(64);
        power2::lemma_pow2_strictly_increases(64, 53 + 64);
        let wide = power2::pow2(53 + 64);
        assert(a * d < (b * c) * wide) by (nonlinear_arith)
            requires
                a * d <= (b * c) * limit,
                limit < wide,
                b * c > 0,
        ;
        lemma_spacing_limit(a * d, b * c, 64);
        if count > 0 {
            assert(b * c <= (a * d) * limit) by (nonlinear_arith)
                requires
                    a >= b,
                    c <= d * limit,
                    limit > 0,
                    b > 0,
                    d > 0,
            ;
            lemma_spacing_floor(a * d, b * c, 64);
        }
    }
    let numerator = shifted(&above.natural_numerator(), below.places());
    let denominator = shifted(&below.natural_numerator(), above.places());
    proof {
        let b = above@.denominator();
        let c = below@.numerator();
        assert(c * b == b * c) by (nonlinear_arith);
    }
    match nearest_binary64(&numerator, &denominator) {
        Some(ratio) => ratio,
        None => above,
    }
}

/// The milliseconds of a nanosecond count as a double-precision number.
pub open spec fn milliseconds_value(nanoseconds: nat) -> Rounded {
    seconds_value(nanoseconds).times(1_000)
}

/// Returns the milliseconds of a duration as a double-precision number.
pub fn duration_milliseconds(duration: &Duration) -> (milliseconds: Binary64)
    ensures
        milliseconds@ == milliseconds_value(duration@),
        milliseconds.wf(),
        milliseconds@.is_below_power(80),
{
    let seconds = duration_seconds(duration);
    proof {
        power2::lemma2_to64();
        power2::lemma_pow2_adds(66, 10);
        let n = seconds@.numerator();
        let d = seconds@.denominator();
        lemma_denominator_is_positive(seconds@);
        assert(n * 1_000 <= d * power2::pow2(76)) by (nonlinear_arith)
            requires
                n < d * power2::pow2(66),
                power2::pow2(76) == power2::pow2(66) * 1024,
                power2::pow2(66) >= 0,
        ;
        lemma_rounding_keeps_limit(n * 1_000, d, 76);
        lemma_wider_limit(milliseconds_value(duration@), 76, 80);
    }
    match seconds.times(1_000) {
        Some(value) => value,
        None => seconds,
    }
}

/// A number below a power of two is below every larger power of two.
pub(crate) proof fn lemma_wider_limit(value: Rounded, bits: nat, more: nat)
    requires
        bits < more,
        value.numerator() <= value.denominator() * power2::pow2(bits),
    ensures
        value.is_below_power(more),
{
    let scale = value.denominator();
    lemma_denominator_is_positive(value);
    power2::lemma_pow2_strictly_increases(bits, more);
    assert(scale * power2::pow2(bits) < scale * power2::pow2(more)) by (nonlinear_arith)
        requires
            scale > 0,
            power2::pow2(bits) < power2::pow2(more),
    ;
}

/// The denominator of a number is positive.
pub(crate) proof fn lemma_denominator_is_positive(value: Rounded)
    ensures
        value.denominator() > 0,
{
    if value.exponent < 0 {
        power2::lemma_pow2_pos((-value.exponent) as nat);
    }
}

/// The number that a bit pattern stands for, when it is finite and not negative.
pub open spec fn bits_value(bits: nat) -> Option<Rounded> {
    let field = bits / 0x10_0000_0000_0000;
    let fraction = bits % 0x10_0000_0000_0000;
    if field >= 2047 {
        None
    } else if field == 0 {
        Some(Rounded { significand: fraction, exponent: FINEST_EXPONENT as int })
    } else {
        Some(
            Rounded {
                significand: 0x10_0000_0000_0000 + fraction,
                exponent: field - 1 + FINEST_EXPONENT,
            },
        )
    }
}

impl Binary64 {
    /// Reads the IEEE 754 bit pattern of a finite number that is not negative.
    pub fn from_bits(bits: u64) -> (result: Option<Binary64>)
        ensures
            result is Some <==> bits_value(bits as nat) is Some,
            result is Some ==> result->0@ == bits_value(bits as nat)->0 && result->0.wf(),
    {
        let field: u64 = bits / 0x10_0000_0000_0000;
        let fraction: u64 = bits % 0x10_0000_0000_0000;
        if field >= 2047 {
            None
        } else if field == 0 {
            Some(Binary64 { significand: fraction, exponent: FINEST_EXPONENT })
        } else {
            Some(
                Binary64 {
                    significand: 0x10_0000_0000_0000 + fraction,
                    exponent: field as i32 - 1 + FINEST_EXPONENT,
                },
            )
        }
    }
}

} // verus!
