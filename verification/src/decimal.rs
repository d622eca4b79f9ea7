//! Decimal number text.
//!
//! A number has an optional sign, digits with an optional decimal point, and
//! an optional power of ten. The words `inf`, `infinity`, and `nan` are numbers
//! too. Letters can have either case. [`read_positive`] finds the
//! double-precision number nearest to the text, however long the text is.
use vstd::arithmetic::power2;
use vstd::prelude::*;

use crate::binary64;
use crate::binary64::{nearest_binary64, Binary64};
use crate::natural::Natural;
use crate::text;

verus! {

/// What a text says about a number.
pub enum Reading {
    /// The text is not a number.
    NotANumber,
    /// The text is a number below zero, an infinite number, or no number value.
    Unusable,
    /// The text is this whole number of digits times a power of ten.
    Number { digits: Seq<char>, scale: int },
}

/// The text behind an optional sign.
pub open spec fn without_sign(letters: Seq<char>) -> Seq<char> {
    if letters.len() > 0 && (letters[0] == '+' || letters[0] == '-') {
        letters.skip(1)
    } else {
        letters
    }
}

/// Whether the text starts with a minus sign.
pub open spec fn has_minus(letters: Seq<char>) -> bool {
    letters.len() > 0 && letters[0] == '-'
}

/// Whether the text is one of the words for a special value.
pub open spec fn is_special(letters: Seq<char>) -> bool {
    ||| text::same_ignoring_case(letters, "inf"@)
    ||| text::same_ignoring_case(letters, "infinity"@)
    ||| text::same_ignoring_case(letters, "nan"@)
}

/// The number of characters in front of the mark of a power of ten.
pub open spec fn mark_position(letters: Seq<char>) -> nat
    decreases letters.len(),
{
    if letters.len() == 0 || letters[0] == 'e' || letters[0] == 'E' {
        0
    } else {
        1 + mark_position(letters.skip(1))
    }
}

/// Digits contain no mark of a power of ten.
pub proof fn lemma_no_mark(letters: Seq<char>)
    requires
        text::all_digits(letters),
    ensures
        mark_position(letters) == letters.len(),
    decreases letters.len(),
{
    if letters.len() > 0 {
        assert('0' <= letters[0] <= '9');
        let rest = letters.skip(1);
        assert forall|i: int| 0 <= i < rest.len() implies '0' <= #[trigger] rest[i] <= '9' by {
            assert(rest[i] == letters[i + 1]);
        }
        lemma_no_mark(rest);
    }
}

/// The digits in front of the decimal point.
pub open spec fn whole_digits(mantissa: Seq<char>) -> Seq<char> {
    match text::first_position(mantissa, '.') {
        Some(point) => mantissa.take(point as int),
        None => mantissa,
    }
}

/// The digits behind the decimal point.
pub open spec fn fraction_digits(mantissa: Seq<char>) -> Seq<char> {
    match text::first_position(mantissa, '.') {
        Some(point) => mantissa.skip(point as int + 1),
        None => Seq::empty(),
    }
}

/// Whether the text is digits with at most one decimal point.
pub open spec fn is_mantissa(mantissa: Seq<char>) -> bool {
    &&& text::all_digits(whole_digits(mantissa))
    &&& text::all_digits(fraction_digits(mantissa))
    &&& whole_digits(mantissa).len() + fraction_digits(mantissa).len() > 0
}

/// Whether the text is a power of ten: an optional sign and digits.
pub open spec fn is_power(letters: Seq<char>) -> bool {
    text::all_digits(without_sign(letters)) && without_sign(letters).len() > 0
}

/// The value of a power of ten.
pub open spec fn power_value(letters: Seq<char>) -> int {
    let size = text::number_of(without_sign(letters));
    if has_minus(letters) {
        -size
    } else {
        size
    }
}

/// Whether the text is digits with an optional power of ten.
pub open spec fn is_unsigned_number(letters: Seq<char>) -> bool {
    let mark = mark_position(letters);
    &&& is_mantissa(letters.take(mark as int))
    &&& mark < letters.len() ==> is_power(letters.skip(mark as int + 1))
}

/// The power of ten of a number, and zero when it has none.
pub open spec fn power_of(letters: Seq<char>) -> int {
    let mark = mark_position(letters);
    if mark < letters.len() {
        power_value(letters.skip(mark as int + 1))
    } else {
        0
    }
}

/// Reads a number text.
pub open spec fn reading(letters: Seq<char>) -> Reading {
    let body = without_sign(letters);
    if is_special(body) {
        Reading::Unusable
    } else if !is_unsigned_number(body) {
        Reading::NotANumber
    } else if has_minus(letters) {
        Reading::Unusable
    } else {
        let mantissa = body.take(mark_position(body) as int);
        Reading::Number {
            digits: whole_digits(mantissa) + fraction_digits(mantissa),
            scale: power_of(body) - fraction_digits(mantissa).len(),
        }
    }
}

/// A power of ten.
pub open spec fn ten_to(exponent: nat) -> nat
    decreases exponent,
{
    if exponent == 0 {
        1
    } else {
        ten_to((exponent - 1) as nat) * 10
    }
}

/// The numerator of digits times a power of ten.
pub open spec fn decimal_numerator(digits: Seq<char>, scale: int) -> nat {
    if scale > 0 {
        text::number_of(digits) as nat * ten_to(scale as nat)
    } else {
        text::number_of(digits) as nat
    }
}

/// The denominator of digits times a power of ten.
pub open spec fn decimal_denominator(scale: int) -> nat {
    if scale < 0 {
        ten_to((-scale) as nat)
    } else {
        1
    }
}

/// The double-precision number nearest to digits times a power of ten.
pub open spec fn nearest_decimal(digits: Seq<char>, scale: int) -> binary64::Rounded {
    binary64::nearest(decimal_numerator(digits, scale), decimal_denominator(scale))
}

/// The result of reading a number text.
#[derive(Clone, Copy, Debug)]
pub enum PositiveReading {
    /// The text is not a number.
    NotANumber,
    /// The text is a number below zero, an infinite number, no number value,
    /// or a number beyond the largest finite one.
    Unusable,
    /// The text is this number.
    Number(Binary64),
}

/// Powers of ten multiply.
proof fn lemma_ten_to_adds(left: nat, right: nat)
    ensures
        ten_to(left + right) == ten_to(left) * ten_to(right),
    decreases right,
{
    if right > 0 {
        lemma_ten_to_adds(left, (right - 1) as nat);
        let a = ten_to(left);
        let b = ten_to((right - 1) as nat);
        assert(a * b * 10 == a * (b * 10)) by (nonlinear_arith);
    } else {
        assert(ten_to(left) * 1 == ten_to(left));
    }
}

/// A power of ten is at least the power of two with three times the exponent.
proof fn lemma_ten_to_exceeds_power2(exponent: nat)
    ensures
        ten_to(exponent) >= power2::pow2(3 * exponent),
        ten_to(exponent) > 0,
    decreases exponent,
{
    power2::lemma2_to64();
    if exponent > 0 {
        lemma_ten_to_exceeds_power2((exponent - 1) as nat);
        power2::lemma_pow2_adds(3 * (exponent - 1) as nat, 3);
    }
}

/// Leading zeros do not count toward the size of a number.
proof fn lemma_leading_zeros(digits: Seq<char>, skipped: nat)
    requires
        text::all_digits(digits),
        skipped <= digits.len(),
        forall|i: int| 0 <= i < skipped ==> digits[i] == '0',
        skipped < digits.len() ==> digits[skipped as int] != '0',
    ensures
        skipped == digits.len() ==> text::number_of(digits) == 0,
        skipped < digits.len() ==> ten_to((digits.len() - skipped - 1) as nat) <= text::number_of(
            digits,
        ) < ten_to((digits.len() - skipped) as nat),
    decreases digits.len(),
{
    if digits.len() > 0 {
        let front = digits.drop_last();
        assert forall|i: int| 0 <= i < front.len() implies '0' <= #[trigger] front[i] <= '9' by {
            assert(front[i] == digits[i]);
        }
        assert('0' <= digits[digits.len() - 1] <= '9');
        if skipped == digits.len() {
            assert(digits[skipped - 1] == '0');
            lemma_leading_zeros(front, (skipped - 1) as nat);
        } else if skipped == digits.len() - 1 {
            lemma_leading_zeros(front, skipped);
            assert(ten_to(1) == 10) by {
                reveal_with_fuel(ten_to, 2);
            }
        } else {
            lemma_leading_zeros(front, skipped);
            let size = (digits.len() - skipped) as nat;
            assert(ten_to(size) == ten_to((size - 1) as nat) * 10);
            assert(ten_to((size - 1) as nat) == ten_to((size - 2) as nat) * 10);
        }
    }
}

/// A larger exponent gives a power of ten that is not smaller.
proof fn lemma_ten_to_grows(less: nat, more: nat)
    requires
        less <= more,
    ensures
        ten_to(less) <= ten_to(more),
    decreases more,
{
    if less < more {
        lemma_ten_to_grows(less, (more - 1) as nat);
    }
}

/// The number of decimal places that is beyond every double-precision number.
const DECIMAL_RANGE: i128 = 400;

/// The largest size of a power of ten that is told apart from larger ones.
const LARGEST_POWER: u128 = 0x10_0000_0000_0000_0000_0000_0000;

/// A number with many places in front of its point overflows.
proof fn lemma_large_decimal_overflows(digits: Seq<char>, scale: int, size: nat)
    requires
        size > 0,
        text::number_of(digits) >= ten_to((size - 1) as nat),
        size - 1 + scale >= DECIMAL_RANGE,
    ensures
        nearest_decimal(digits, scale).overflows(),
{
    let number = text::number_of(digits) as nat;
    let n = decimal_numerator(digits, scale);
    let d = decimal_denominator(scale);
    let limit = power2::pow2(1024);
    lemma_ten_to_exceeds_power2(400);
    power2::lemma_pow2_strictly_increases(1024, 1200);
    let top = (size - 1 + scale) as nat;
    lemma_ten_to_grows(400, top);
    if scale > 0 {
        let base = ten_to((size - 1) as nat);
        let factor = ten_to(scale as nat);
        lemma_ten_to_adds((size - 1) as nat, scale as nat);
        assert(number * factor >= base * factor) by (nonlinear_arith)
            requires
                number >= base,
                factor >= 0,
        ;
        assert(n >= 1 * limit);
    } else {
        lemma_ten_to_adds((-scale) as nat, top);
        if scale == 0 {
            assert(ten_to(0) == 1);
        }
        assert((-scale) as nat + top == (size - 1) as nat);
        let factor = ten_to(top);
        assert(d == ten_to((-scale) as nat));
        assert(d * factor >= d * limit) by (nonlinear_arith)
            requires
                factor >= limit,
                d >= 0,
        ;
    }
    lemma_ten_to_exceeds_power2((-scale) as nat);
    binary64::lemma_huge_fraction_overflows(n, d);
}

/// A number with many zero places behind its point vanishes.
proof fn lemma_small_decimal_vanishes(digits: Seq<char>, scale: int, size: nat)
    requires
        0 <= text::number_of(digits) < ten_to(size),
        size + scale <= -DECIMAL_RANGE,
    ensures
        nearest_decimal(digits, scale) == (binary64::Rounded {
            significand: 0,
            exponent: binary64::FINEST_EXPONENT as int,
        }),
{
    let number = text::number_of(digits) as nat;
    let d = ten_to((-scale) as nat);
    let places = (-scale - size) as nat;
    lemma_ten_to_adds(size, places);
    assert(size + places == (-scale) as nat);
    lemma_ten_to_exceeds_power2(400);
    lemma_ten_to_grows(400, places);
    power2::lemma_pow2_strictly_increases(1075, 1200);
    let base = ten_to(size);
    let factor = ten_to(places);
    let tiny = power2::pow2(1075);
    power2::lemma_pow2_pos(1075);
    assert(number * tiny < d) by (nonlinear_arith)
        requires
            number < base,
            tiny <= factor,
            tiny > 0,
            d == base * factor,
    ;
    binary64::lemma_tiny_fraction_vanishes(number, d);
}

/// Zero times a power of ten rounds to zero.
pub proof fn lemma_zero_stays_zero(digits: Seq<char>, scale: int)
    requires
        text::number_of(digits) == 0,
    ensures
        nearest_decimal(digits, scale) == (binary64::Rounded {
            significand: 0,
            exponent: binary64::FINEST_EXPONENT as int,
        }),
{
    let d = decimal_denominator(scale);
    let n = decimal_numerator(digits, scale);
    if scale > 0 {
        assert(0 * ten_to(scale as nat) == 0) by (nonlinear_arith);
    }
    if scale < 0 {
        lemma_ten_to_exceeds_power2((-scale) as nat);
    }
    assert(n * power2::pow2(1075) < d) by (nonlinear_arith)
        requires
            n == 0,
            d > 0,
    ;
    binary64::lemma_tiny_fraction_vanishes(n, d);
}

/// Reports whether every character is a decimal digit.
fn only_digits(letters: &Vec<char>) -> (result: bool)
    ensures
        result == text::all_digits(letters@),
{
    let mut index: usize = 0;
    while index < letters.len()
        invariant
            index <= letters.len(),
            forall|i: int| 0 <= i < index ==> '0' <= #[trigger] letters@[i] <= '9',
        decreases letters.len() - index,
    {
        let letter = letters[index];
        if !('0' <= letter && letter <= '9') {
            proof {
                assert(!('0' <= letters@[index as int] <= '9'));
            }
            return false;
        }
        index += 1;
    }
    true
}

/// Returns the characters behind an optional sign.
fn unsigned(letters: &Vec<char>) -> (result: Vec<char>)
    ensures
        result@ == without_sign(letters@),
{
    if letters.len() > 0 && (letters[0] == '+' || letters[0] == '-') {
        let result = text::slice(letters, 1, letters.len());
        proof {
            assert(result@ =~= letters@.skip(1));
        }
        result
    } else {
        let result = text::slice(letters, 0, letters.len());
        proof {
            assert(result@ =~= letters@);
        }
        result
    }
}

/// Counts the characters in front of the mark of a power of ten.
fn find_mark(letters: &Vec<char>) -> (mark: usize)
    ensures
        mark == mark_position(letters@),
        mark <= letters.len(),
{
    let mut index: usize = 0;
    proof {
        assert(letters@.skip(0) =~= letters@);
    }
    while index < letters.len() && letters[index] != 'e' && letters[index] != 'E'
        invariant
            index <= letters.len(),
            mark_position(letters@) == index + mark_position(letters@.skip(index as int)),
        decreases letters.len() - index,
    {
        proof {
            assert(letters@.skip(index as int).skip(1) =~= letters@.skip(index + 1));
        }
        index += 1;
    }
    index
}

/// Returns the number that digits spell, up to the largest power told apart.
fn capped_number(digits: &Vec<char>) -> (size: u128)
    requires
        text::all_digits(digits@),
    ensures
        text::number_of(digits@) >= 0,
        size == (if text::number_of(digits@) < LARGEST_POWER {
            text::number_of(digits@)
        } else {
            LARGEST_POWER as int
        }),
{
    let mut size: u128 = 0;
    let mut index: usize = 0;
    while index < digits.len()
        invariant
            index <= digits.len(),
            text::all_digits(digits@),
            text::number_of(digits@.take(index as int)) >= 0,
            size == (if text::number_of(digits@.take(index as int)) < LARGEST_POWER {
                text::number_of(digits@.take(index as int))
            } else {
                LARGEST_POWER as int
            }),
        decreases digits.len() - index,
    {
        let digit: u32 = digits[index] as u32 - 48;
        proof {
            assert('0' <= digits@[index as int] <= '9');
            assert(digits@.take(index + 1).drop_last() =~= digits@.take(index as int));
        }
        size = size * 10 + digit as u128;
        if size > LARGEST_POWER {
            size = LARGEST_POWER;
        }
        index += 1;
    }
    proof {
        assert(digits@.take(digits@.len() as int) =~= digits@);
    }
    size
}

/// Counts the zeros in front of the first other digit.
fn count_leading_zeros(digits: &Vec<char>) -> (skipped: usize)
    ensures
        skipped <= digits.len(),
        forall|i: int| 0 <= i < skipped ==> digits@[i] == '0',
        skipped < digits.len() ==> digits@[skipped as int] != '0',
{
    let mut index: usize = 0;
    while index < digits.len() && digits[index] == '0'
        invariant
            index <= digits.len(),
            forall|i: int| 0 <= i < index ==> digits@[i] == '0',
        decreases digits.len() - index,
    {
        index += 1;
    }
    index
}

/// Returns the number that digits spell.
fn natural_of(digits: &Vec<char>) -> (number: Natural)
    requires
        text::all_digits(digits@),
    ensures
        number@ == text::number_of(digits@),
{
    let mut number = Natural::from_word(0);
    let mut index: usize = 0;
    while index < digits.len()
        invariant
            index <= digits.len(),
            text::all_digits(digits@),
            number@ == text::number_of(digits@.take(index as int)),
        decreases digits.len() - index,
    {
        proof {
            assert('0' <= digits@[index as int] <= '9');
            assert(digits@.take(index + 1).drop_last() =~= digits@.take(index as int));
        }
        number.multiply_and_add(10, digits[index] as u32 - 48);
        index += 1;
    }
    proof {
        assert(digits@.take(digits@.len() as int) =~= digits@);
    }
    number
}

/// Multiplies a number by a power of ten.
fn times_ten_to(number: Natural, exponent: u128) -> (result: Natural)
    ensures
        result@ == number@ * ten_to(exponent as nat),
{
    let ghost whole = number@;
    let mut result = number;
    let mut done: u128 = 0;
    proof {
        assert(whole * ten_to(0) == whole) by (nonlinear_arith)
            requires
                ten_to(0) == 1,
        ;
    }
    while done < exponent
        invariant
            done <= exponent,
            result@ == whole * ten_to(done as nat),
        decreases exponent - done,
    {
        result.multiply_and_add(10, 0);
        proof {
            let power = ten_to(done as nat);
            assert(whole * power * 10 == whole * (power * 10)) by (nonlinear_arith);
        }
        done += 1;
    }
    result
}

/// Rounds digits times a power of ten, or reports an overflow.
///
/// The power of ten is `size`, below zero when `minus` holds, less the number
/// of digits behind the decimal point.
fn round_decimal(
    digits: &Vec<char>,
    minus: bool,
    size: u128,
    fraction: usize,
    Ghost(power): Ghost<int>,
) -> (result: Option<Binary64>)
    requires
        text::all_digits(digits@),
        power >= 0,
        size == (if power < LARGEST_POWER {
            power
        } else {
            LARGEST_POWER as int
        }),
    ensures
        ({
            let scale = (if minus {
                -power
            } else {
                power
            }) - fraction;
            &&& result is None <==> nearest_decimal(digits@, scale).overflows()
            &&& result is Some ==> result->0@ == nearest_decimal(digits@, scale)
                && result->0.wf()
        }),
{
    let ghost true_scale = (if minus {
        -power
    } else {
        power
    }) - fraction;
    let skipped: usize = count_leading_zeros(digits);
    let count: usize = digits.len() - skipped;
    proof {
        lemma_leading_zeros(digits@, skipped as nat);
    }
    let vanished = Binary64 { significand: 0, exponent: binary64::FINEST_EXPONENT };
    proof {
        binary64::lemma_overflow_test(0, binary64::FINEST_EXPONENT as int);
    }
    if count == 0 {
        proof {
            lemma_zero_stays_zero(digits@, true_scale);
        }
        return Some(vanished);
    }
    let scale: i128 = if minus {
        -(size as i128) - fraction as i128
    } else {
        size as i128 - fraction as i128
    };
    let top: i128 = count as i128 + scale;
    if top - 1 >= DECIMAL_RANGE {
        proof {
            lemma_large_decimal_overflows(digits@, true_scale, count as nat);
        }
        return None;
    }
    if top <= -DECIMAL_RANGE {
        proof {
            lemma_small_decimal_vanishes(digits@, true_scale, count as nat);
        }
        return Some(vanished);
    }
    proof {
        assert(scale == true_scale);
    }
    let number = natural_of(digits);
    let one = Natural::from_word(1);
    if scale > 0 {
        let numerator = times_ten_to(number, scale as u128);
        nearest_binary64(&numerator, &one)
    } else {
        let denominator = times_ten_to(one, (-scale) as u128);
        proof {
            lemma_ten_to_exceeds_power2((-scale) as nat);
            assert(1 * ten_to((-scale) as nat) == ten_to((-scale) as nat));
            if scale == 0 {
                assert(ten_to(0) == 1);
            }
        }
        nearest_binary64(&number, &denominator)
    }
}

/// Reads a number text as the nearest double-precision number.
pub fn read_positive(letters: &Vec<char>) -> (result: PositiveReading)
    ensures
        match reading(letters@) {
            Reading::NotANumber => result is NotANumber,
            Reading::Unusable => result is Unusable,
            Reading::Number { digits, scale } => {
                let value = nearest_decimal(digits, scale);
                if value.overflows() {
                    result is Unusable
                } else {
                    result is Number && result->0@ == value && result->0.wf()
                }
            },
        },
{
    let body = unsigned(letters);
    if text::spells_ignoring_case(&body, "inf") || text::spells_ignoring_case(&body, "infinity")
        || text::spells_ignoring_case(&body, "nan") {
        return PositiveReading::Unusable;
    }
    let mark: usize = find_mark(&body);
    let mantissa = text::slice(&body, 0, mark);
    proof {
        assert(mantissa@ =~= body@.take(mark as int));
    }
    let (whole, fraction) = match text::find_first(&mantissa, '.') {
        Some(point) => {
            let whole = text::slice(&mantissa, 0, point);
            let fraction = text::slice(&mantissa, point + 1, mantissa.len());
            proof {
                assert(whole@ =~= mantissa@.take(point as int));
                assert(fraction@ =~= mantissa@.skip(point + 1));
            }
            (whole, fraction)
        },
        None => {
            let whole = text::slice(&mantissa, 0, mantissa.len());
            let fraction = Vec::new();
            proof {
                assert(whole@ =~= mantissa@);
            }
            (whole, fraction)
        },
    };
    if !only_digits(&whole) || !only_digits(&fraction) || (whole.len() == 0 && fraction.len()
        == 0) {
        return PositiveReading::NotANumber;
    }
    let mut size: u128 = 0;
    let mut minus = false;
    let ghost mut power: int = 0;
    if mark < body.len() {
        let tail = text::slice(&body, mark + 1, body.len());
        proof {
            assert(tail@ =~= body@.skip(mark + 1));
        }
        let places = unsigned(&tail);
        if places.len() == 0 || !only_digits(&places) {
            return PositiveReading::NotANumber;
        }
        minus = tail.len() > 0 && tail[0] == '-';
        size = capped_number(&places);
        proof {
            power = text::number_of(places@);
        }
    }
    if letters.len() > 0 && letters[0] == '-' {
        return PositiveReading::Unusable;
    }
    let mut digits = whole.clone();
    let mut rest = fraction.clone();
    let fraction_length: usize = fraction.len();
    digits.append(&mut rest);
    proof {
        assert(digits@ =~= whole@ + fraction@);
        assert forall|i: int| 0 <= i < digits@.len() implies '0' <= #[trigger] digits@[i] <= '9' by {
            if i < whole@.len() {
                assert('0' <= whole@[i] <= '9');
            } else {
                assert('0' <= fraction@[i - whole@.len()] <= '9');
            }
        }
    }
    match round_decimal(&digits, minus, size, fraction_length, Ghost(power)) {
        None => PositiveReading::Unusable,
        Some(value) => PositiveReading::Number(value),
    }
}

/// Up to fifteen places are ordinary.
pub proof fn lemma_ten_to_is_small(places: nat)
    requires
        places <= 15,
    ensures
        1 <= ten_to(places) <= 1_000_000_000_000_000,
{
    lemma_ten_to_grows(places, 15);
    lemma_ten_to_grows(0, places);
    reveal_with_fuel(ten_to, 16);
}

/// The mark stands behind letters that are none.
proof fn lemma_mark_behind(front: Seq<char>, mark: char, back: Seq<char>)
    requires
        mark == 'e' || mark == 'E',
        forall|i: int| 0 <= i < front.len() ==> #[trigger] front[i] != 'e' && front[i] != 'E',
    ensures
        mark_position(front.push(mark) + back) == front.len(),
    decreases front.len(),
{
    let whole = front.push(mark) + back;
    if front.len() > 0 {
        let rest = front.skip(1);
        assert forall|i: int| 0 <= i < rest.len() implies #[trigger] rest[i] != 'e' && rest[i]
            != 'E' by {
            assert(rest[i] == front[i + 1]);
        }
        lemma_mark_behind(rest, mark, back);
        assert(whole.skip(1) =~= rest.push(mark) + back);
        assert(whole[0] == front[0]);
    } else {
        assert(whole[0] == mark);
    }
}

/// Digits are none of the words for a special value.
proof fn lemma_numbers_are_not_special(letters: Seq<char>)
    requires
        letters.len() > 0,
        '0' <= letters[0] <= '9',
    ensures
        !is_special(letters),
{
    reveal_strlit("inf");
    reveal_strlit("infinity");
    reveal_strlit("nan");
    assert(text::upper(letters)[0] == letters[0]);
    assert(text::upper("inf"@)[0] == 'I');
    assert(text::upper("infinity"@)[0] == 'I');
    assert(text::upper("nan"@)[0] == 'N');
}

/// A power of ten behind `e` or `E` moves the point by its number of places:
/// forward, or backward behind a minus sign. A plus sign says nothing.
pub proof fn law_powers_of_ten_move_the_point(digits: Seq<char>, mark: char, power: Seq<char>)
    requires
        digits.len() > 0,
        power.len() > 0,
        text::all_digits(digits),
        text::all_digits(power),
        mark == 'e' || mark == 'E',
    ensures
        reading(digits.push(mark) + power) == (Reading::Number {
            digits,
            scale: text::number_of(power),
        }),
        reading(digits.push(mark) + seq!['-'] + power) == (Reading::Number {
            digits,
            scale: -text::number_of(power),
        }),
        reading(digits.push(mark) + seq!['+'] + power) == (Reading::Number {
            digits,
            scale: text::number_of(power),
        }),
{
    lemma_power_is_read(digits, mark, power);
    let minus = seq!['-'] + power;
    let plus = seq!['+'] + power;
    assert(digits.push(mark) + seq!['-'] + power =~= digits.push(mark) + minus);
    assert(digits.push(mark) + seq!['+'] + power =~= digits.push(mark) + plus);
    assert(minus.skip(1) =~= power);
    assert(plus.skip(1) =~= power);
    lemma_power_is_read(digits, mark, minus);
    lemma_power_is_read(digits, mark, plus);
    assert('0' <= power[0] <= '9');
}

/// A number with a power of ten is read as its digits and the value of the power.
proof fn lemma_power_is_read(digits: Seq<char>, mark: char, power: Seq<char>)
    requires
        digits.len() > 0,
        text::all_digits(digits),
        mark == 'e' || mark == 'E',
        is_power(power),
    ensures
        reading(digits.push(mark) + power) == (Reading::Number {
            digits,
            scale: power_value(power),
        }),
{
    let letters = digits.push(mark) + power;
    assert('0' <= digits[0] <= '9');
    assert(letters[0] == digits[0]);
    lemma_numbers_are_not_special(letters);
    assert(without_sign(letters) == letters);
    assert forall|i: int| 0 <= i < digits.len() implies #[trigger] digits[i] != 'e' && digits[i]
        != 'E' by {
        assert('0' <= digits[i] <= '9');
    }
    lemma_mark_behind(digits, mark, power);
    let place = digits.len() as int;
    assert(letters.take(place) =~= digits);
    assert(letters.skip(place + 1) =~= power);
    text::lemma_first_position(digits, '.');
    assert(text::first_position(digits, '.') is None) by {
        if text::first_position(digits, '.') is Some {
            let found = text::first_position(digits, '.')->0 as int;
            assert('0' <= digits[found] <= '9');
        }
    }
    assert(digits + Seq::<char>::empty() =~= digits);
}

/// A plus sign changes nothing, and a minus sign makes a number unusable.
pub proof fn law_signs_are_read(digits: Seq<char>)
    requires
        digits.len() > 0,
        text::all_digits(digits),
    ensures
        reading(seq!['+'] + digits) == reading(digits),
        reading(seq!['-'] + digits) is Unusable,
        reading(digits) is Number,
{
    let plus = seq!['+'] + digits;
    let minus = seq!['-'] + digits;
    assert(plus.skip(1) =~= digits && minus.skip(1) =~= digits);
    assert('0' <= digits[0] <= '9');
    assert(without_sign(digits) == digits);
    lemma_numbers_are_not_special(digits);
    lemma_no_mark(digits);
    assert(digits.take(digits.len() as int) =~= digits);
    text::lemma_first_position(digits, '.');
    assert(text::first_position(digits, '.') is None) by {
        if text::first_position(digits, '.') is Some {
            let found = text::first_position(digits, '.')->0 as int;
            assert('0' <= digits[found] <= '9');
        }
    }
}

/// The words for infinity and for no number are read in small and capital letters,
/// with and without a sign, and are unusable. An empty text is no number.
pub proof fn law_special_words_are_unusable(word: Seq<char>, sign: char)
    requires
        text::upper(word) == "INF"@ || text::upper(word) == "INFINITY"@ || text::upper(word)
            == "NAN"@,
        sign == '+' || sign == '-',
    ensures
        reading(word) is Unusable,
        reading(seq![sign] + word) is Unusable,
        reading(Seq::empty()) is NotANumber,
{
    reveal_strlit("inf");
    reveal_strlit("infinity");
    reveal_strlit("nan");
    reveal_strlit("INF");
    reveal_strlit("INFINITY");
    reveal_strlit("NAN");
    assert(text::upper("inf"@) =~= "INF"@);
    assert(text::upper("infinity"@) =~= "INFINITY"@);
    assert(text::upper("nan"@) =~= "NAN"@);
    assert(word.len() == text::upper(word).len());
    assert(text::upper(word)[0] == text::ascii_upper(word[0]));
    assert(without_sign(word) == word);
    assert((seq![sign] + word).skip(1) =~= word);
    let empty = Seq::<char>::empty();
    assert(text::upper(empty).len() == 0);
    assert(empty.take(0) =~= empty);
    assert(without_sign(empty) == empty);
    assert(mark_position(empty) == 0);
    assert(whole_digits(empty) == empty);
    assert(fraction_digits(empty).len() == 0);
}

} // verus!
