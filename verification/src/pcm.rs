//! Interleaved 16-bit samples as bytes.
//!
//! Temporary clip sources hold stereo samples in little-endian order: two
//! bytes for the left sample and two bytes for the right sample of each frame.
use vstd::arithmetic::power2;
use vstd::prelude::*;

use crate::binary64;
use crate::sample;
use crate::sample::Sample;

verus! {

/// Bytes in one stereo frame.
pub const FRAME_BYTES: u64 = 4;

/// The sample that a low and a high byte hold.
pub open spec fn sample_of(low: u8, high: u8) -> int {
    if high < 128 {
        low + 256 * high
    } else {
        low + 256 * high - 65_536
    }
}

/// The low byte of a sample.
pub open spec fn low_byte(sample: int) -> int {
    sample % 256
}

/// The high byte of a sample.
pub open spec fn high_byte(sample: int) -> int {
    if sample < 0 {
        (sample + 65_536) / 256
    } else {
        sample / 256
    }
}

/// The samples that bytes hold.
pub open spec fn samples_of(bytes: Seq<u8>) -> Seq<int> {
    Seq::new(bytes.len() / 2, |i: int| sample_of(bytes[2 * i], bytes[2 * i + 1]))
}

/// The bytes that hold samples.
pub open spec fn bytes_of(samples: Seq<int>) -> Seq<int> {
    Seq::new(
        2 * samples.len(),
        |i: int|
            if i % 2 == 0 {
                low_byte(samples[i / 2])
            } else {
                high_byte(samples[i / 2])
            },
    )
}

/// Returns the sample that a low and a high byte hold.
pub fn read_sample(low: u8, high: u8) -> (sample: i16)
    ensures
        sample == sample_of(low, high),
{
    let number: i32 = low as i32 + 256 * high as i32;
    if high < 128 {
        number as i16
    } else {
        (number - 65_536) as i16
    }
}

/// Returns the samples that bytes hold. A last byte without a partner is left out.
pub fn pcm_samples(bytes: &[u8]) -> (samples: Vec<i16>)
    ensures
        samples@.len() == bytes@.len() / 2,
        forall|i: int|
            0 <= i < samples@.len() ==> #[trigger] samples@[i] == samples_of(bytes@)[i],
{
    let count: usize = bytes.len() / 2;
    let mut samples: Vec<i16> = Vec::new();
    let mut index: usize = 0;
    while index < count
        invariant
            index <= count,
            count == bytes@.len() / 2,
            2 * count <= usize::MAX,
            samples@.len() == index,
            forall|i: int|
                0 <= i < index ==> #[trigger] samples@[i] == samples_of(bytes@)[i],
        decreases count - index,
    {
        samples.push(read_sample(bytes[2 * index], bytes[2 * index + 1]));
        index += 1;
    }
    samples
}

/// Returns the bytes that hold samples.
pub fn pcm_bytes(samples: &[i16]) -> (bytes: Vec<u8>)
    ensures
        bytes@.len() == 2 * samples@.len(),
        forall|i: int|
            0 <= i < bytes@.len() ==> #[trigger] bytes@[i] == bytes_of(
                samples@.map_values(|sample: i16| sample as int),
            )[i],
{
    let mut bytes: Vec<u8> = Vec::new();
    let mut index: usize = 0;
    let ghost values = samples@.map_values(|sample: i16| sample as int);
    while index < samples.len()
        invariant
            index <= samples@.len(),
            values == samples@.map_values(|sample: i16| sample as int),
            bytes@.len() == 2 * index,
            forall|i: int| 0 <= i < bytes@.len() ==> #[trigger] bytes@[i] == bytes_of(values)[i],
        decreases samples@.len() - index,
    {
        let sample: i32 = samples[index] as i32;
        let number: u32 = if sample < 0 {
            (sample + 65_536) as u32
        } else {
            sample as u32
        };
        bytes.push((number % 256) as u8);
        bytes.push((number / 256) as u8);
        index += 1;
    }
    bytes
}

/// Every sample is back after a trip through bytes.
pub proof fn law_samples_survive_as_bytes(samples: Seq<i16>, bytes: Seq<u8>)
    requires
        bytes.len() == 2 * samples.len(),
        forall|i: int|
            0 <= i < bytes.len() ==> #[trigger] bytes[i] == bytes_of(
                samples.map_values(|sample: i16| sample as int),
            )[i],
    ensures
        samples_of(bytes) == samples.map_values(|sample: i16| sample as int),
{
    let values = samples.map_values(|sample: i16| sample as int);
    assert forall|i: int| 0 <= i < samples.len() implies samples_of(bytes)[i] == values[i] by {
        let sample = samples[i] as int;
        assert(bytes[2 * i] == bytes_of(values)[2 * i]);
        assert(bytes[2 * i + 1] == bytes_of(values)[2 * i + 1]);
        assert((2 * i) / 2 == i && (2 * i + 1) / 2 == i);
        assert(bytes[2 * i] == low_byte(sample));
        assert(bytes[2 * i + 1] == high_byte(sample));
    }
    assert(samples_of(bytes) =~= values);
}

/// Every byte of whole samples is back after a trip through samples.
pub proof fn law_bytes_survive_as_samples(bytes: Seq<u8>)
    requires
        bytes.len() % 2 == 0,
    ensures
        bytes_of(samples_of(bytes)) == bytes.map_values(|byte: u8| byte as int),
{
    let values = samples_of(bytes);
    assert forall|i: int| 0 <= i < bytes.len() implies bytes_of(values)[i] == bytes[i] as int by {
        let half = i / 2;
        assert(values[half] == sample_of(bytes[2 * half], bytes[2 * half + 1]));
        if i % 2 == 0 {
            assert(i == 2 * half);
        } else {
            assert(i == 2 * half + 1);
        }
    }
    assert(bytes_of(values) =~= bytes.map_values(|byte: u8| byte as int));
}

/// The bits of a number beyond the 24 bits of a single-precision significand.
pub open spec fn excess_bits(number: nat) -> nat
    decreases number,
{
    if number < 0x100_0000 {
        0
    } else {
        1 + excess_bits(number / 2)
    }
}

/// A whole number rounded to single precision. A tie goes to the even significand.
pub open spec fn single_precision(number: nat) -> nat {
    let spacing = power2::pow2(excess_bits(number));
    binary64::round_half_even(number, spacing) * spacing
}

/// The significand of a sample without its sign.
pub open spec fn significand(code: nat) -> nat {
    if code / sample::MANTISSAS as nat == 0 {
        code
    } else {
        sample::MANTISSAS as nat + code % sample::MANTISSAS as nat
    }
}

/// The number of binary places of that significand.
pub open spec fn places(code: nat) -> nat {
    let exponent = code / sample::MANTISSAS as nat;
    if exponent == 0 {
        149
    } else {
        (150 - exponent) as nat
    }
}

/// The distance of a limited sample from zero in PCM16: its single-precision
/// product with the largest PCM16 value, rounded half away from zero.
pub open spec fn pcm_magnitude(code: nat) -> nat {
    let one = power2::pow2(places(code));
    (2 * single_precision(significand(code) * 32_767) + one) / (2 * one)
}

/// The PCM16 value of a sample. Negative full scale is the lowest value.
pub open spec fn pcm_value(value: Sample) -> int {
    let limited = value.clamped();
    if !limited.is_negative() {
        pcm_magnitude(limited.code()) as int
    } else if limited.code() == sample::FULL_SCALE {
        -32_768
    } else {
        -(pcm_magnitude(limited.code()) as int)
    }
}

/// The product with the largest PCM16 value stays within the range of PCM16.
proof fn lemma_pcm_magnitude(code: nat)
    requires
        code <= sample::FULL_SCALE,
    ensures
        pcm_magnitude(code) <= 32_767,
        significand(code) < 0x100_0000,
        23 <= places(code) <= 149,
        excess_bits(significand(code) * 32_767) <= 15,
        single_precision(significand(code) * 32_767) <= 32_767 * power2::pow2(places(code)),
{
    let exponent = code / sample::MANTISSAS as nat;
    assert(exponent <= 127);
    let number = significand(code);
    let one = power2::pow2(places(code));
    power2::lemma2_to64();
    if exponent == 127 {
        assert(code % sample::MANTISSAS as nat == 0);
    } else if places(code) > 24 {
        power2::lemma_pow2_strictly_increases(24, places(code));
    }
    assert(number <= one);
    let product = number * 32_767;
    lemma_excess(product, 15);
    let bits = excess_bits(product);
    let spacing = power2::pow2(bits);
    power2::lemma_pow2_pos(bits);
    power2::lemma_pow2_adds((places(code) - bits) as nat, bits);
    let room = power2::pow2((places(code) - bits) as nat);
    let limit = 32_767 * room;
    assert(product <= spacing * limit) by (nonlinear_arith)
        requires
            product == number * 32_767,
            number <= one,
            one == room * spacing,
            limit == 32_767 * room,
    ;
    binary64::lemma_rounding_is_below(product, spacing, limit);
    let rounded = binary64::round_half_even(product, spacing);
    assert(rounded * spacing <= 32_767 * one) by (nonlinear_arith)
        requires
            rounded <= limit,
            one == room * spacing,
            limit == 32_767 * room,
    ;
    power2::lemma_pow2_pos(places(code));
    let total = single_precision(product);
    assert((2 * total + one) / (2 * one) <= 32_767) by (nonlinear_arith)
        requires
            total <= 32_767 * one,
            one > 0,
    ;
}

/// A bounded number has few excess bits.
proof fn lemma_excess(number: nat, bits: nat)
    requires
        number < 0x100_0000 * power2::pow2(bits),
    ensures
        excess_bits(number) <= bits,
    decreases bits,
{
    power2::lemma2_to64();
    if bits > 0 && number >= 0x100_0000 {
        power2::lemma_pow2_unfold(bits);
        lemma_excess(number / 2, (bits - 1) as nat);
    }
}

/// Returns the spacing of single-precision numbers around a whole number.
fn single_spacing(number: u64) -> (spacing: u64)
    requires
        number < 0x100_0000 * 0x8000,
    ensures
        spacing == power2::pow2(excess_bits(number as nat)),
        1 <= spacing <= 0x8000,
{
    let mut rest: u64 = number;
    let mut spacing: u64 = 1;
    let ghost mut bits: nat = 0;
    proof {
        power2::lemma2_to64();
    }
    while rest >= 0x100_0000
        invariant
            spacing == power2::pow2(bits),
            rest * spacing <= number < 0x100_0000 * 0x8000,
            excess_bits(number as nat) == bits + excess_bits(rest as nat),
            1 <= spacing <= 0x8000,
        decreases rest,
    {
        proof {
            assert(spacing < 0x8000) by (nonlinear_arith)
                requires
                    rest >= 0x100_0000,
                    rest * spacing < 0x100_0000 * 0x8000,
            ;
            power2::lemma_pow2_unfold(bits + 1);
            assert((rest / 2) * (2 * spacing) <= rest * spacing) by (nonlinear_arith)
                requires
                    rest >= 0,
                    spacing >= 0,
            ;
            lemma_doubling_stays(bits, spacing as nat);
            bits = bits + 1;
        }
        rest = rest / 2;
        spacing = spacing * 2;
    }
    spacing
}

/// The double of a power of two below a power of two is at most that power.
proof fn lemma_doubling_stays(bits: nat, spacing: nat)
    requires
        spacing == power2::pow2(bits),
        spacing < 0x8000,
    ensures
        2 * spacing <= 0x8000,
{
    power2::lemma2_to64();
    if bits >= 15 {
        if bits > 15 {
            power2::lemma_pow2_strictly_increases(15, bits);
        }
    } else if bits < 14 {
        power2::lemma_pow2_strictly_increases(bits, 14);
    }
}

/// Converts one normalized sample to signed PCM16. An invalid sample is silent.
pub fn float_to_i16(value: Sample) -> (result: i16)
    ensures
        result == pcm_value(value),
{
    let limited = value.finite_sample();
    let code: u32 = limited.bits % sample::SIGN;
    let negative = limited.bits >= sample::SIGN;
    proof {
        assert((sample::SIGN + sample::FULL_SCALE) % sample::SIGN as int == sample::FULL_SCALE);
        assert(code <= sample::FULL_SCALE);
        lemma_pcm_magnitude(code as nat);
    }
    if negative && code == sample::FULL_SCALE {
        return i16::MIN;
    }
    let exponent: u32 = code / sample::MANTISSAS;
    let (number, behind): (u64, u32) = if exponent == 0 {
        (code as u64, 149)
    } else {
        (sample::MANTISSAS as u64 + (code % sample::MANTISSAS) as u64, 150 - exponent)
    };
    let product: u64 = number * 32_767;
    let spacing: u64 = single_spacing(product);
    let quotient: u64 = product / spacing;
    let remainder: u64 = product % spacing;
    let rounded: u64 = if 2 * remainder < spacing || (2 * remainder == spacing && quotient % 2 == 0) {
        quotient
    } else {
        quotient + 1
    };
    proof {
        assert(quotient <= product) by (nonlinear_arith)
            requires
                quotient == product / spacing,
                spacing >= 1,
        ;
        assert(rounded * spacing <= product + spacing) by (nonlinear_arith)
            requires
                quotient == product / spacing,
                rounded <= quotient + 1,
                spacing >= 1,
        ;
    }
    let total: u64 = rounded * spacing;
    let magnitude: u64 = if behind >= 60 {
        proof {
            power2::lemma2_to64();
            power2::lemma2_to64_rest();
            if behind > 60 {
                power2::lemma_pow2_strictly_increases(60, behind as nat);
            }
            let one = power2::pow2(behind as nat);
            assert((2 * total + one) / (2 * one as int) == 0) by (nonlinear_arith)
                requires
                    2 * total < one,
            ;
        }
        0
    } else {
        proof {
            power2::lemma2_to64();
            power2::lemma2_to64_rest();
            power2::lemma_pow2_strictly_increases(behind as nat, 60);
        }
        let one: u64 = binary64::power_word(behind) as u64;
        (2 * total + one) / (2 * one)
    };
    if negative {
        -(magnitude as i16)
    } else {
        magnitude as i16
    }
}

/// Every sample has a PCM16 value. Only negative full scale has the lowest
/// value, positive full scale has the highest one, and an invalid sample is
/// silent.
pub proof fn law_pcm_values_are_in_range(value: Sample)
    ensures
        -32_768 <= pcm_value(value) <= 32_767,
        pcm_value(value) == -32_768 <==> value.clamped().value() == -sample::unit(),
        value.clamped().value() == sample::unit() ==> pcm_value(value) == 32_767,
        !value.is_finite() ==> pcm_value(value) == 0,
{
    let limited = value.clamped();
    let code = limited.code();
    assert((sample::SIGN + sample::FULL_SCALE) % sample::SIGN as int == sample::FULL_SCALE);
    lemma_pcm_magnitude(code);
    sample::lemma_full_scale_is_one_unit();
    power2::lemma_pow2_pos(149);
    if code < sample::FULL_SCALE {
        sample::law_codes_are_ordered_like_magnitudes(code, sample::FULL_SCALE as nat);
    } else {
        lemma_full_scale();
    }
    if !value.is_finite() {
        assert(code == 0);
        lemma_silence();
    }
}

/// Full scale is the largest PCM16 value.
proof fn lemma_full_scale()
    ensures
        pcm_magnitude(sample::FULL_SCALE as nat) == 32_767,
{
    let code = sample::FULL_SCALE as nat;
    assert(code / sample::MANTISSAS as nat == 127 && code % sample::MANTISSAS as nat == 0);
    power2::lemma2_to64();
    let product = 0x80_0000nat * 32_767;
    assert(excess_bits(product) == 14) by {
        reveal_with_fuel(excess_bits, 16);
    }
    assert(product % 0x4000 == 0 && product / 0x4000 == 512 * 32_767);
    assert(single_precision(product) == product);
    assert(places(code) == 23 && power2::pow2(23) == 0x80_0000);
    assert(significand(code) * 32_767 == product);
    let total = 2 * product + 0x80_0000nat;
    assert(total == 0x100_0000nat * 32_767 + 0x80_0000);
    assert(total / 0x100_0000nat == 32_767);
}

/// Silence is zero.
proof fn lemma_silence()
    ensures
        pcm_magnitude(0) == 0,
{
    power2::lemma2_to64();
    power2::lemma_pow2_pos(149);
    assert(significand(0) * 32_767 == 0);
    assert(power2::pow2(excess_bits(0)) == 1);
    assert(single_precision(0) == 0);
    assert(places(0) == 149);
    let one = power2::pow2(149);
    assert((2 * 0 + one) / (2 * one) == 0) by (nonlinear_arith)
        requires
            one > 0,
    ;
}

/// Sixteen bits stand in two bytes, the low byte first. A number below zero is
/// counted from the end of the range.
pub proof fn law_the_low_byte_comes_first(samples: &[i16], bytes: Vec<u8>, index: int)
    requires
        call_ensures(pcm_bytes, (samples,), bytes),
        0 <= index < samples@.len(),
    ensures
        ({
            let word = bytes@[2 * index] + 256 * bytes@[2 * index + 1];
            &&& samples@[index] >= 0 ==> word == samples@[index]
            &&& samples@[index] < 0 ==> word == samples@[index] + 65_536
        }),
{
    let values = samples@.map_values(|sample: i16| sample as int);
    assert(bytes@[2 * index] == bytes_of(values)[2 * index]);
    assert(bytes@[2 * index + 1] == bytes_of(values)[2 * index + 1]);
    assert((2 * index) / 2 == index && (2 * index + 1) / 2 == index);
    let sample = samples@[index] as int;
    assert(values[index] == sample);
    assert(bytes@[2 * index] == low_byte(sample));
    assert(bytes@[2 * index + 1] == high_byte(sample));
}

/// Two bytes are read as sixteen bits, the low byte first. Words from 32,768 on
/// are numbers below zero.
pub proof fn law_words_are_read_with_their_sign(bytes: &[u8], samples: Vec<i16>, index: int)
    requires
        call_ensures(pcm_samples, (bytes,), samples),
        0 <= index < samples@.len(),
    ensures
        ({
            let word = bytes@[2 * index] + 256 * bytes@[2 * index + 1];
            &&& word < 32_768 ==> samples@[index] == word
            &&& word >= 32_768 ==> samples@[index] == word - 65_536
        }),
        2 * samples@.len() <= bytes@.len() <= 2 * samples@.len() + 1,
{
    assert(samples@[index] == samples_of(bytes@)[index]);
}

/// A written sample is within one half of a step of the exact product with the
/// highest value, up to one part in 512 of a step. Only negative full scale lies
/// one step further from zero.
pub proof fn law_pcm_values_are_close(value: Sample, result: i16)
    requires
        call_ensures(float_to_i16, (value,), result),
        value.clamped().value() != -sample::unit(),
    ensures
        512 * (result * sample::unit() - 32_767 * value.clamped().value()) <= 257 * sample::unit(),
        512 * (32_767 * value.clamped().value() - result * sample::unit()) <= 257 * sample::unit(),
{
    let limited = value.clamped();
    let code = limited.code();
    assert((sample::SIGN + sample::FULL_SCALE) % sample::SIGN as int == sample::FULL_SCALE);
    assert(code <= sample::FULL_SCALE);
    sample::lemma_full_scale_is_one_unit();
    assert(!(limited.is_negative() && code == sample::FULL_SCALE));
    lemma_pcm_magnitude_is_close(code);
    let distance = pcm_magnitude(code) as int;
    let exact = limited.magnitude() as int;
    let unit = sample::unit() as int;
    assert((-distance) * unit == -(distance * unit)) by (nonlinear_arith);
    assert(result == distance || result == -distance);
}

/// The distance from zero in PCM16 is close to the exact product.
proof fn lemma_pcm_magnitude_is_close(code: nat)
    requires
        code <= sample::FULL_SCALE,
    ensures
        512 * (pcm_magnitude(code) * sample::unit() - 32_767 * sample::magnitude_of(code)) <= 257
            * sample::unit(),
        512 * (32_767 * sample::magnitude_of(code) - pcm_magnitude(code) * sample::unit()) <= 257
            * sample::unit(),
{
    lemma_pcm_magnitude(code);
    let number = significand(code);
    let one = power2::pow2(places(code)) as int;
    let product = number * 32_767;
    let bits = excess_bits(product);
    let spacing = power2::pow2(bits);
    power2::lemma_pow2_pos(bits);
    power2::lemma_pow2_pos(places(code));
    crate::binary64::error::law_nearest_wholes_are_off_by_half(product, spacing);
    let total = single_precision(product) as int;
    lemma_spacing_is_small(product);
    let distance = pcm_magnitude(code) as int;
    vstd::arithmetic::div_mod::lemma_fundamental_div_mod(2 * total + one, 2 * one);
    let remainder = (2 * total + one) % (2 * one);
    let twice = (2 * one) * distance;
    assert(twice == 2 * (distance * one)) by (nonlinear_arith)
        requires
            twice == (2 * one) * distance,
    ;
    assert(2 * (distance * one) <= 2 * total + one && 2 * total < 2 * (distance * one) + one);
    // The significand is at most one, so the spacing is at most one part in 512.
    assert(product <= 32_767 * one) by {
        let exponent = code / sample::MANTISSAS as nat;
        power2::lemma2_to64();
        if exponent == 127 {
            assert(code % sample::MANTISSAS as nat == 0);
        } else if places(code) > 24 {
            power2::lemma_pow2_strictly_increases(24, places(code));
        }
        assert(number <= one);
    }
    assert(512 * (distance * one - product) <= 257 * one);
    assert(512 * (product - distance * one) <= 257 * one);
    // The magnitude is the significand, moved by its binary places.
    let rest = (149 - places(code)) as nat;
    power2::lemma_pow2_adds(places(code), rest);
    let scale = power2::pow2(rest) as int;
    power2::lemma_pow2_pos(rest);
    power2::lemma2_to64();
    let exact = sample::magnitude_of(code) as int;
    assert(exact == number * scale) by {
        if code / sample::MANTISSAS as nat == 0 {
            assert(scale == 1);
            assert(code % sample::MANTISSAS as nat == code);
        }
    }
    let unit = sample::unit() as int;
    assert(unit == one * scale);
    lemma_scaled_bound(distance, one, number as int, scale);
}

/// A bound on a difference holds after both sides are multiplied.
proof fn lemma_scaled_bound(distance: int, one: int, number: int, scale: int)
    requires
        scale > 0,
        512 * (distance * one - number * 32_767) <= 257 * one,
        512 * (number * 32_767 - distance * one) <= 257 * one,
    ensures
        512 * (distance * (one * scale) - 32_767 * (number * scale)) <= 257 * (one * scale),
        512 * (32_767 * (number * scale) - distance * (one * scale)) <= 257 * (one * scale),
{
    let gap = distance * one - number * 32_767;
    assert(distance * (one * scale) - 32_767 * (number * scale) == gap * scale) by (nonlinear_arith)
        requires
            gap == distance * one - number * 32_767,
    ;
    assert(512 * (gap * scale) <= 257 * (one * scale)) by (nonlinear_arith)
        requires
            512 * gap <= 257 * one,
            scale > 0,
    ;
    assert(-(512 * (gap * scale)) <= 257 * (one * scale)) by (nonlinear_arith)
        requires
            -(512 * gap) <= 257 * one,
            scale > 0,
    ;
}

/// The spacing around a number is small against the number.
proof fn lemma_spacing_is_small(number: nat)
    ensures
        excess_bits(number) == 0 || 0x80_0000 * power2::pow2(excess_bits(number)) <= number,
        excess_bits(number) == 0 ==> single_precision(number) == number,
    decreases number,
{
    power2::lemma2_to64();
    if number >= 0x100_0000 {
        lemma_spacing_is_small(number / 2);
        power2::lemma_pow2_unfold(excess_bits(number));
    }
}

} // verus!
