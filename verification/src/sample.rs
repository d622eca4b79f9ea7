//! Normalized audio samples as the display rules see them.
//!
//! A [`Sample`] is an IEEE 754 single-precision number, kept as its bit
//! pattern. The rules in this crate only compare samples, limit them to full
//! scale, and take magnitudes. On bit patterns all of that is exact integer
//! work.
use vstd::arithmetic::power2;
use vstd::prelude::*;

verus! {

/// The bit pattern of positive full scale, the number one.
pub const FULL_SCALE: u32 = 0x3F80_0000;

/// The first bit pattern that is not a finite non-negative number.
pub const INFINITE: u32 = 0x7F80_0000;

/// The sign bit of a bit pattern.
pub const SIGN: u32 = 0x8000_0000;

/// The number of bit patterns that share one exponent.
pub const MANTISSAS: u32 = 0x80_0000;

/// One normalized sample, as the bit pattern of a single-precision number.
#[derive(Clone, Copy, Debug, PartialEq, Eq, Structural)]
pub struct Sample {
    /// IEEE 754 bit pattern.
    pub bits: u32,
}

/// The magnitude of a bit pattern without its sign, in units of the smallest
/// positive single-precision number.
pub open spec fn magnitude_of(code: nat) -> nat {
    let exponent = code / MANTISSAS as nat;
    let mantissa = code % MANTISSAS as nat;
    if exponent == 0 {
        mantissa
    } else {
        (MANTISSAS as nat + mantissa) * power2::pow2((exponent - 1) as nat)
    }
}

/// Full scale in units of the smallest positive single-precision number.
pub open spec fn unit() -> nat {
    power2::pow2(149)
}

impl Sample {
    /// The bit pattern without its sign.
    pub open spec fn code(self) -> nat {
        (self.bits % SIGN) as nat
    }

    /// Whether the sample is below zero or negative zero.
    pub open spec fn is_negative(self) -> bool {
        self.bits >= SIGN
    }

    /// Whether the sample is neither infinite nor an invalid number.
    pub open spec fn is_finite(self) -> bool {
        self.code() < INFINITE
    }

    /// The distance from zero, in units of the smallest positive number.
    pub open spec fn magnitude(self) -> nat {
        magnitude_of(self.code())
    }

    /// The value of a finite sample, in units of the smallest positive number.
    pub open spec fn value(self) -> int {
        if self.is_negative() {
            -(self.magnitude() as int)
        } else {
            self.magnitude() as int
        }
    }

    /// The sample limited to full scale, and silence for an invalid number.
    pub open spec fn clamped(self) -> Sample {
        if !self.is_finite() {
            Sample { bits: 0 }
        } else if self.code() <= FULL_SCALE {
            self
        } else if self.is_negative() {
            Sample { bits: (SIGN + FULL_SCALE) as u32 }
        } else {
            Sample { bits: FULL_SCALE }
        }
    }

    /// Returns silence.
    pub fn silence() -> (sample: Sample)
        ensures
            sample.bits == 0,
    {
        Sample { bits: 0 }
    }

    /// Limits a sample to full scale and converts invalid values to silence.
    pub fn finite_sample(self) -> (result: Sample)
        ensures
            result == self.clamped(),
    {
        let code: u32 = self.bits % SIGN;
        if code >= INFINITE {
            Sample { bits: 0 }
        } else if code <= FULL_SCALE {
            self
        } else if self.bits >= SIGN {
            Sample { bits: SIGN + FULL_SCALE }
        } else {
            Sample { bits: FULL_SCALE }
        }
    }

    /// Returns the distance from zero.
    pub fn abs(self) -> (result: Sample)
        ensures
            result.bits == self.code(),
    {
        Sample { bits: self.bits % SIGN }
    }
}

/// Bit patterns without a sign are ordered like the magnitudes they stand for.
pub proof fn law_codes_are_ordered_like_magnitudes(left: nat, right: nat)
    requires
        left < right,
    ensures
        magnitude_of(left) < magnitude_of(right),
{
    let steps = MANTISSAS as nat;
    let (a, m) = (left / steps, left % steps);
    let (b, n) = (right / steps, right % steps);
    assert(left == a * steps + m && right == b * steps + n);
    assert(a <= b);
    if a == b {
        assert(m < n);
        if a > 0 {
            let scale = power2::pow2((a - 1) as nat);
            power2::lemma_pow2_pos((a - 1) as nat);
            assert((steps + m) * scale < (steps + n) * scale) by (nonlinear_arith)
                requires
                    m < n,
                    scale > 0,
            ;
        }
    } else {
        let scale = power2::pow2((b - 1) as nat);
        power2::lemma_pow2_pos((b - 1) as nat);
        assert(steps * scale <= (steps + n) * scale) by (nonlinear_arith)
            requires
                n >= 0,
                scale > 0,
        ;
        if a == 0 {
            assert(steps <= steps * scale) by (nonlinear_arith)
                requires
                    scale > 0,
            ;
        } else {
            let low = power2::pow2((a - 1) as nat);
            power2::lemma_pow2_pos((a - 1) as nat);
            power2::lemma_pow2_unfold(a);
            if a < b - 1 {
                power2::lemma_pow2_strictly_increases(a, (b - 1) as nat);
            }
            assert(power2::pow2(a) == 2 * low);
            assert(2 * low <= scale);
            assert((steps + m) * low < steps * scale) by (nonlinear_arith)
                requires
                    m < steps,
                    low > 0,
                    2 * low <= scale,
            ;
        }
    }
}

/// Limiting keeps a finite sample inside full scale and moves it no further
/// than it must; an invalid number becomes silence.
pub proof fn law_clamping_limits_the_value(sample: Sample)
    ensures
        sample.clamped().is_finite(),
        -unit() <= sample.clamped().value() <= unit(),
        !sample.is_finite() ==> sample.clamped().value() == 0,
        sample.is_finite() ==> sample.clamped().value() == (if sample.value() > unit() {
            unit() as int
        } else if sample.value() < -unit() {
            -(unit() as int)
        } else {
            sample.value()
        }),
{
    lemma_full_scale_is_one_unit();
    let code = sample.code();
    if sample.is_finite() {
        if code < FULL_SCALE {
            law_codes_are_ordered_like_magnitudes(code, FULL_SCALE as nat);
        } else if code > FULL_SCALE {
            law_codes_are_ordered_like_magnitudes(FULL_SCALE as nat, code);
        }
        assert((SIGN + FULL_SCALE) % SIGN as int == FULL_SCALE);
    }
    assert(magnitude_of(0) == 0);
    power2::lemma_pow2_pos(149);
}

/// The bit pattern of full scale stands for the number one.
pub(crate) proof fn lemma_full_scale_is_one_unit()
    ensures
        magnitude_of(FULL_SCALE as nat) == unit(),
{
    assert(FULL_SCALE as nat / MANTISSAS as nat == 127);
    assert(FULL_SCALE as nat % MANTISSAS as nat == 0);
    power2::lemma_pow2_adds(23, 126);
    power2::lemma2_to64();
}

/// Limiting works on the distance from zero alone and keeps the sign: what lies
/// within one stays, what lies beyond it becomes one, and what is no number
/// becomes silence. A limited sample stays as it is.
pub proof fn law_limits_are_full_scale(sample: Sample, limited: Sample, again: Sample)
    requires
        call_ensures(Sample::finite_sample, (sample,), limited),
        call_ensures(Sample::finite_sample, (limited,), again),
    ensures
        again == limited,
        sample.bits <= 0x3F80_0000 ==> limited == sample,
        0x3F80_0000 < sample.bits < 0x7F80_0000 ==> limited.bits == 0x3F80_0000,
        0x7F80_0000 <= sample.bits < 0x8000_0000 ==> limited.bits == 0,
        0x8000_0000 <= sample.bits <= 0xBF80_0000 ==> limited == sample,
        0xBF80_0000 < sample.bits < 0xFF80_0000 ==> limited.bits == 0xBF80_0000,
        0xFF80_0000 <= sample.bits ==> limited.bits == 0,
{
}

/// The distance from zero is the sample without its sign.
pub proof fn law_distances_have_no_sign(sample: Sample, distance: Sample)
    requires
        call_ensures(Sample::abs, (sample,), distance),
    ensures
        distance.bits < 0x8000_0000,
        sample.bits == distance.bits || sample.bits == 0x8000_0000 + distance.bits,
        distance.magnitude() == sample.magnitude(),
{
}

} // verus!
