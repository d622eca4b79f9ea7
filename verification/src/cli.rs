//! Command-line values and fast-path defaults.
//!
//! A bare `record` command does not parse anything. It uses [`Cli::default`]
//! and starts audio capture immediately. Commands with options use the same
//! values. The duration parsers accept decimal values and reject zero,
//! negative, infinite, and unrepresentable values before capture starts.
use vstd::prelude::*;

use crate::binary64;
use crate::decimal;
use crate::decimal::PositiveReading;
use crate::path::FilePath;
use crate::session::default_segment_duration;
use crate::text;
use crate::time::Duration;

verus! {

/// Selects one of the MP3 bit rates offered by the command line.
#[derive(Clone, Copy, Debug, PartialEq, Eq, Structural)]
pub enum Bitrate {
    /// Request 128 kilobits per second.
    K128,
    /// Request 192 kilobits per second.
    K192,
    /// Request 256 kilobits per second.
    K256,
    /// Request 320 kilobits per second.
    K320,
}

impl Bitrate {
    /// The command-line name of this rate.
    pub open spec fn name(self) -> Seq<char> {
        match self {
            Bitrate::K128 => "k128"@,
            Bitrate::K192 => "k192"@,
            Bitrate::K256 => "k256"@,
            Bitrate::K320 => "k320"@,
        }
    }

    /// Returns the rate with this command-line name.
    #[must_use]
    pub fn from_name(name: &str) -> (rate: Option<Bitrate>)
        ensures
            rate is Some ==> rate->0.name() == name@,
            rate is None ==> forall|other: Bitrate| #[trigger] other.name() != name@,
    {
        let letters = text::characters(name);
        if text::spells(&letters, "k128") {
            Some(Bitrate::K128)
        } else if text::spells(&letters, "k192") {
            Some(Bitrate::K192)
        } else if text::spells(&letters, "k256") {
            Some(Bitrate::K256)
        } else if text::spells(&letters, "k320") {
            Some(Bitrate::K320)
        } else {
            None
        }
    }

    /// Returns the selected rate in bits per second.
    #[must_use]
    pub fn bits_per_second(self) -> (rate: u32)
        ensures
            rate == match self {
                Bitrate::K128 => 128_000u32,
                Bitrate::K192 => 192_000u32,
                Bitrate::K256 => 256_000u32,
                Bitrate::K320 => 320_000u32,
            },
    {
        match self {
            Bitrate::K128 => 128_000,
            Bitrate::K192 => 192_000,
            Bitrate::K256 => 256_000,
            Bitrate::K320 => 320_000,
        }
    }
}

/// Contains all parsed command-line options.
#[derive(Debug)]
pub struct Cli {
    /// MP3 destination. Without one, capture creates a session directory.
    pub output: Option<FilePath>,
    /// MP3 bitrate.
    pub bitrate: Bitrate,
    /// Stop automatically after this length.
    pub duration: Option<Duration>,
    /// Length of each automatic session part.
    pub segment_duration: Duration,
    /// Disable the full-screen interface.
    pub no_tui: bool,
    /// Replace an existing output file.
    pub force: bool,
    /// Internal probe used by the startup benchmark.
    pub startup_probe: bool,
    /// Optional command that runs instead of audio capture.
    pub command: Option<Command>,
}

impl Default for Cli {
    fn default() -> (cli: Cli)
        ensures
            cli.output is None,
            cli.bitrate == Bitrate::K320,
            cli.duration is None,
            cli.segment_duration@ == 600_000_000_000,
            !cli.no_tui,
            !cli.force,
            !cli.startup_probe,
            cli.command is None,
    {
        Cli {
            output: None,
            bitrate: Bitrate::K320,
            duration: None,
            segment_duration: default_segment_duration(),
            no_tui: false,
            force: false,
            startup_probe: false,
            command: None,
        }
    }
}

/// Commands that do not record audio alone.
#[derive(Debug)]
pub enum Command {
    /// Verify that system capture and the native MP3 encoder are available.
    Doctor,
    /// Record the screen and system audio to one MP4 file.
    Video(VideoOptions),
}

/// Contains the options of the screen recording command as they were typed.
#[derive(Debug)]
pub struct VideoOptions {
    /// MP4 destination. Without one, capture uses a dated name.
    pub output: Option<FilePath>,
    /// Monitor index, `primary`, or `list`.
    pub monitor: String,
    /// Name of the fit mode.
    pub fit: String,
    /// Canvas size or preset name.
    pub canvas: Option<String>,
    /// Crop rectangle.
    pub crop: Option<String>,
    /// H.264 bit rate in megabits per second.
    pub video_bitrate: u32,
    /// AAC bit rate in kilobits per second.
    pub audio_bitrate: u32,
    /// Frames per second.
    pub fps: u32,
    /// Stop automatically after this length.
    pub duration: Option<Duration>,
    /// Replace an existing output file.
    pub force: bool,
    /// Show the settings and wait before capture starts.
    pub setup: bool,
    /// Disable the full-screen interface.
    pub no_tui: bool,
}

/// Why a typed length is not usable.
#[derive(Clone, Copy, Debug, PartialEq, Eq, Structural)]
pub enum LengthProblem {
    /// The text is not a number.
    NotANumber,
    /// The number is not finite or not above zero.
    NotPositive,
    /// The length is beyond every duration.
    TooLarge,
}

/// The nanoseconds of a typed length in units of `factor` seconds.
///
/// The text and its product with the factor are each rounded to double
/// precision before the conversion to nanoseconds. A length that is nearer to
/// zero than to one nanosecond is not positive.
pub open spec fn length_of(letters: Seq<char>, factor: nat) -> Result<nat, LengthProblem> {
    match decimal::reading(letters) {
        decimal::Reading::NotANumber => Err(LengthProblem::NotANumber),
        decimal::Reading::Unusable => Err(LengthProblem::NotPositive),
        decimal::Reading::Number { digits, scale } => {
            let value = decimal::nearest_decimal(digits, scale);
            let seconds = value.times(factor);
            if value.overflows() || seconds.overflows() || seconds.significand == 0 {
                Err(LengthProblem::NotPositive)
            } else if !seconds.is_below_power(64) {
                Err(LengthProblem::TooLarge)
            } else if seconds.nanoseconds() == 0 {
                Err(LengthProblem::NotPositive)
            } else {
                Ok(seconds.nanoseconds())
            }
        },
    }
}

/// The message behind the label of a rejected length.
pub open spec fn problem_text(problem: LengthProblem) -> Seq<char> {
    match problem {
        LengthProblem::NotANumber => " must be a number"@,
        LengthProblem::NotPositive => " must be greater than zero"@,
        LengthProblem::TooLarge => " is too large"@,
    }
}

/// Whether a parser result is the given length or the message for its problem.
pub open spec fn is_parsed(
    result: Result<Duration, String>,
    expected: Result<nat, LengthProblem>,
    label: Seq<char>,
) -> bool {
    match expected {
        Ok(nanoseconds) => result is Ok && result->Ok_0@ == nanoseconds,
        Err(problem) => result is Err && result->Err_0@ == label + problem_text(problem),
    }
}

/// Parses a duration in seconds.
pub fn parse_duration(value: &str) -> (result: Result<Duration, String>)
    ensures
        is_parsed(result, length_of(value@, 1), "duration"@),
{
    parse_scaled_duration(value, 1, "duration")
}

/// Parses a session part length in minutes.
pub fn parse_minutes(value: &str) -> (result: Result<Duration, String>)
    ensures
        is_parsed(result, length_of(value@, 60), "part length"@),
{
    parse_scaled_duration(value, 60, "part length")
}

/// Parses one positive decimal value and converts it to seconds.
fn parse_scaled_duration(value: &str, scale: u32, label: &str) -> (result: Result<Duration, String>)
    ensures
        is_parsed(result, length_of(value@, scale as nat), label@),
{
    let letters = text::characters(value);
    let number = match decimal::read_positive(&letters) {
        PositiveReading::NotANumber => {
            return Err(message(label, LengthProblem::NotANumber));
        },
        PositiveReading::Unusable => {
            return Err(message(label, LengthProblem::NotPositive));
        },
        PositiveReading::Number(number) => number,
    };
    let seconds = match number.times(scale) {
        None => {
            return Err(message(label, LengthProblem::NotPositive));
        },
        Some(seconds) => seconds,
    };
    if seconds.significand == 0 {
        return Err(message(label, LengthProblem::NotPositive));
    }
    match seconds.seconds() {
        None => Err(message(label, LengthProblem::TooLarge)),
        Some(duration) => {
            if duration.as_nanos() == 0 {
                Err(message(label, LengthProblem::NotPositive))
            } else {
                Ok(duration)
            }
        },
    }
}

/// Writes the message for a rejected length.
fn message(label: &str, problem: LengthProblem) -> (message: String)
    ensures
        message@ == label@ + problem_text(problem),
{
    let mut message = String::from_str(label);
    message.append(
        match problem {
            LengthProblem::NotANumber => " must be a number",
            LengthProblem::NotPositive => " must be greater than zero",
            LengthProblem::TooLarge => " is too large",
        },
    );
    message
}

/// Every accepted length is greater than zero.
pub proof fn law_accepted_lengths_are_positive(letters: Seq<char>, factor: nat)
    ensures
        length_of(letters, factor) matches Ok(nanoseconds) ==> nanoseconds > 0,
{
}

/// A text that spells zero is rejected, whatever its digits and power of ten.
pub proof fn law_zero_lengths_are_rejected(letters: Seq<char>, factor: nat)
    requires
        decimal::reading(letters) is Number,
        text::number_of(decimal::reading(letters)->digits) == 0,
    ensures
        length_of(letters, factor) == Err::<nat, LengthProblem>(LengthProblem::NotPositive),
{
    let number = decimal::reading(letters);
    decimal::lemma_zero_stays_zero(number->digits, number->scale);
    let value = decimal::nearest_decimal(number->digits, number->scale);
    assert(value.numerator() * factor == 0) by (nonlinear_arith)
        requires
            value.numerator() == 0,
    ;
    assert(0 * vstd::arithmetic::power2::pow2(1075) == 0) by (nonlinear_arith);
    vstd::arithmetic::power2::lemma_pow2_pos(1074);
    binary64::lemma_tiny_fraction_vanishes(0, value.denominator());
}

/// A length with a minus sign is never accepted.
pub proof fn law_negative_lengths_are_rejected(letters: Seq<char>, factor: nat)
    requires
        decimal::has_minus(letters),
    ensures
        length_of(letters, factor) is Err,
{
}

/// Different rates have different names, so a name selects exactly one rate.
pub proof fn law_bitrate_names_are_distinct(left: Bitrate, right: Bitrate)
    requires
        left.name() == right.name(),
    ensures
        left == right,
{
    reveal_strlit("k128");
    reveal_strlit("k192");
    reveal_strlit("k256");
    reveal_strlit("k320");
    assert("k128"@[1] == '1' && "k128"@[2] == '2');
    assert("k192"@[1] == '1' && "k192"@[2] == '9');
    assert("k256"@[1] == '2');
    assert("k320"@[1] == '3');
}

/// Decimal digits are read as the number that they spell.
proof fn lemma_digits_are_read(letters: Seq<char>)
    requires
        letters.len() > 0,
        text::all_digits(letters),
    ensures
        decimal::reading(letters) == (decimal::Reading::Number { digits: letters, scale: 0 }),
{
    assert('0' <= letters[0] <= '9');
    assert(decimal::without_sign(letters) == letters);
    reveal_strlit("inf");
    reveal_strlit("infinity");
    reveal_strlit("nan");
    assert(text::upper(letters)[0] == letters[0]);
    assert(text::upper("inf"@)[0] == 'I');
    assert(text::upper("infinity"@)[0] == 'I');
    assert(text::upper("nan"@)[0] == 'N');
    decimal::lemma_no_mark(letters);
    text::lemma_first_position(letters, '.');
    assert(letters.take(letters.len() as int) =~= letters);
    assert(letters + Seq::<char>::empty() =~= letters);
}

/// A typed whole number of units is exact, whatever the unit, as long as the
/// seconds stay below two to the power of 53.
pub proof fn law_whole_lengths_are_exact(number: nat, factor: nat)
    requires
        number > 0,
        factor > 0,
        number * factor < 0x20_0000_0000_0000,
    ensures
        length_of(text::decimal(number), factor) == Ok::<nat, LengthProblem>(
            number * factor * 1_000_000_000,
        ),
{
    let letters = text::decimal(number);
    text::lemma_decimal_spells(number);
    assert(text::all_digits(letters));
    lemma_digits_are_read(letters);
    binary64::lemma_whole_product_is_exact(number, factor);
    assert(number * factor > 0) by (nonlinear_arith)
        requires
            number > 0,
            factor > 0,
    ;
}

/// The part length that the command line shows as its default, ten minutes, is
/// the part length of a bare command.
pub proof fn law_default_part_lengths_agree()
    ensures
        length_of("10"@, 60) == Ok::<nat, LengthProblem>(600_000_000_000),
{
    reveal_strlit("10");
    reveal_with_fuel(text::decimal, 2);
    assert(text::decimal(10) =~= "10"@);
    law_whole_lengths_are_exact(10, 60);
}

/// The name of a rate is the letter `k` and its kilobits per second.
pub proof fn law_rates_are_named_in_kilobits(name: &str, rate: Option<Bitrate>, bits: u32)
    requires
        call_ensures(Bitrate::from_name, (name,), rate),
        rate is Some ==> call_ensures(Bitrate::bits_per_second, (rate->0,), bits),
    ensures
        rate is Some ==> bits % 1_000 == 0 && name@ == "k"@ + text::decimal((bits / 1_000) as nat),
        rate is Some <==> name@ == "k"@ + text::decimal(128) || name@ == "k"@ + text::decimal(192)
            || name@ == "k"@ + text::decimal(256) || name@ == "k"@ + text::decimal(320),
{
    reveal_strlit("k");
    reveal_strlit("k128");
    reveal_strlit("k192");
    reveal_strlit("k256");
    reveal_strlit("k320");
    reveal_with_fuel(text::decimal, 4);
    assert("k"@ + text::decimal(128) =~= "k128"@);
    assert("k"@ + text::decimal(192) =~= "k192"@);
    assert("k"@ + text::decimal(256) =~= "k256"@);
    assert("k"@ + text::decimal(320) =~= "k320"@);
    if rate is None {
        assert(Bitrate::K128.name() != name@);
        assert(Bitrate::K192.name() != name@);
        assert(Bitrate::K256.name() != name@);
        assert(Bitrate::K320.name() != name@);
    }
}

/// A whole number of minutes is sixty times as many seconds, exactly.
pub proof fn law_minutes_are_sixty_seconds(
    minutes: &str,
    seconds: &str,
    number: nat,
    long: Result<Duration, String>,
    short: Result<Duration, String>,
)
    requires
        call_ensures(parse_minutes, (minutes,), long),
        call_ensures(parse_duration, (seconds,), short),
        number > 0,
        number * 60 < 0x20_0000_0000_0000,
        minutes@ == text::decimal(number),
        seconds@ == text::decimal(number),
    ensures
        long is Ok,
        short is Ok,
        short->Ok_0@ == number * 1_000_000_000,
        long->Ok_0@ == 60 * short->Ok_0@,
{
    law_whole_lengths_are_exact(number, 60);
    law_whole_lengths_are_exact(number, 1);
    assert(number * 1 == number);
}

/// Digits with a point between them are read as all the digits, moved by those
/// behind the point.
proof fn lemma_points_are_read(whole: Seq<char>, fraction: Seq<char>)
    requires
        whole.len() + fraction.len() > 0,
        text::all_digits(whole),
        text::all_digits(fraction),
    ensures
        decimal::reading(whole.push('.') + fraction) == (decimal::Reading::Number {
            digits: whole + fraction,
            scale: -(fraction.len() as int),
        }),
{
    let letters = whole.push('.') + fraction;
    let middle = whole.len() as int;
    assert(letters[middle] == '.');
    assert forall|i: int| 0 <= i < middle implies letters[i] == whole[i] by {}
    assert forall|i: int| middle < i < letters.len() implies letters[i] == fraction[i - middle - 1] by {}
    assert(letters[0] == '.' || '0' <= letters[0] <= '9') by {
        if middle > 0 {
            assert(letters[0] == whole[0]);
        }
    }
    assert(decimal::without_sign(letters) == letters);
    reveal_strlit("inf");
    reveal_strlit("infinity");
    reveal_strlit("nan");
    assert(text::upper(letters)[0] == letters[0]);
    assert(text::upper("inf"@)[0] == 'I');
    assert(text::upper("infinity"@)[0] == 'I');
    assert(text::upper("nan"@)[0] == 'N');
    lemma_no_mark_in(letters, middle);
    assert(letters.take(letters.len() as int) =~= letters);
    text::lemma_first_position(letters, '.');
    assert(text::first_position(letters, '.') == Some(whole.len())) by {
        let found = text::first_position(letters, '.')->0 as int;
        if found < middle {
            assert(letters[found] == whole[found]);
        }
    }
    assert(letters.take(middle) =~= whole);
    assert(letters.skip(middle + 1) =~= fraction);
}

/// Digits and points contain no mark of a power of ten.
proof fn lemma_no_mark_in(letters: Seq<char>, middle: int)
    requires
        forall|i: int|
            0 <= i < letters.len() && i != middle ==> '0' <= #[trigger] letters[i] <= '9',
        0 <= middle < letters.len() ==> letters[middle] == '.',
    ensures
        decimal::mark_position(letters) == letters.len(),
    decreases letters.len(),
{
    if letters.len() > 0 {
        let rest = letters.skip(1);
        assert(letters[0] == '.' || '0' <= letters[0] <= '9') by {
            if middle != 0 {
                assert('0' <= letters[0] <= '9');
            }
        }
        assert forall|i: int| 0 <= i < rest.len() && i != middle - 1 implies '0'
            <= #[trigger] rest[i] <= '9' by {
            assert(rest[i] == letters[i + 1]);
        }
        lemma_no_mark_in(rest, middle - 1);
    }
}

/// A typed decimal length is the number that it spells, to the nearest nanosecond
/// and up to the rounding of double precision. Minutes are sixty seconds.
pub proof fn law_typed_lengths_are_close(
    value: &str,
    whole: Seq<char>,
    fraction: Seq<char>,
    seconds: Result<Duration, String>,
    minutes: Result<Duration, String>,
)
    requires
        call_ensures(parse_duration, (value,), seconds),
        call_ensures(parse_minutes, (value,), minutes),
        value@ == whole.push('.') + fraction,
        whole.len() + fraction.len() > 0,
        fraction.len() <= 15,
        text::all_digits(whole),
        text::all_digits(fraction),
    ensures
        ({
            let number = text::number_of(whole + fraction) as nat;
            let parts = decimal::ten_to(fraction.len());
            let fine = binary64::error::parts();
            &&& seconds is Ok ==> {
                let length = seconds->Ok_0@;
                &&& 2 * (length * parts) * fine <= 2 * (number * 1_000_000_000) * (fine + 5) + parts
                    * fine
                &&& 2 * (number * 1_000_000_000) * fine <= (2 * length + 1) * parts * (fine + 5)
            }
            &&& minutes is Ok ==> {
                let length = minutes->Ok_0@;
                &&& 2 * (length * parts) * fine <= 2 * (number * 60 * 1_000_000_000) * (fine + 5)
                    + parts * fine
                &&& 2 * (number * 60 * 1_000_000_000) * fine <= (2 * length + 1) * parts * (fine
                    + 5)
            }
        }),
{
    lemma_points_are_read(whole, fraction);
    let digits = whole + fraction;
    let number = text::number_of(digits) as nat;
    assert(number * 1 == number);
    lemma_length_is_close(digits, fraction.len(), 1);
    lemma_length_is_close(digits, fraction.len(), 60);
}

/// The rounded product of a decimal number and a factor is close to the product.
proof fn lemma_length_is_close(digits: Seq<char>, places: nat, factor: nat)
    requires
        places <= 15,
        1 <= factor <= 60,
    ensures
        ({
            let number = text::number_of(digits) as nat;
            let parts = decimal::ten_to(places);
            let fine = binary64::error::parts();
            let length = decimal::nearest_decimal(digits, -(places as int)).times(
                factor,
            ).nanoseconds();
            &&& 2 * (length * parts) * fine <= 2 * (number * factor * 1_000_000_000) * (fine + 5)
                + parts * fine
            &&& 2 * (number * factor * 1_000_000_000) * fine <= (2 * length + 1) * parts * (fine
                + 5)
        }),
{
    let number = text::number_of(digits) as nat;
    let parts = decimal::ten_to(places);
    decimal::lemma_ten_to_is_small(places);
    let value = decimal::nearest_decimal(digits, -(places as int));
    assert(value == binary64::nearest(number, parts)) by {
        if places == 0 {
            assert(parts == 1);
        }
    }
    binary64::error::lemma_ordinary_size(number, parts);
    binary64::error::lemma_nearest_is_about(number, parts);
    binary64::error::lemma_factor_keeps_slack(
        value.numerator(),
        value.denominator(),
        number,
        parts,
        factor,
        2,
    );
    binary64::error::lemma_factor_keeps_slack(
        number,
        parts,
        value.numerator(),
        value.denominator(),
        factor,
        2,
    );
    binary64::lemma_denominator_is_positive(value);
    binary64::error::lemma_rounding_adds_slack(
        value.numerator() * factor,
        value.denominator(),
        number * factor,
        parts,
        2,
    );
    binary64::error::lemma_units_are_close(
        value.times(factor),
        number * factor,
        parts,
        5,
        1_000_000_000,
    );
}

/// A command without options records to a new session of ten-minute parts at the
/// highest rate, with the interface and without an end.
pub proof fn law_bare_commands_record_a_session(cli: Cli)
    requires
        call_ensures(Cli::default, (), cli),
    ensures
        cli.output is None && cli.command is None && cli.duration is None,
        cli.bitrate == Bitrate::K320,
        cli.segment_duration@ == 10 * 60 * 1_000_000_000,
        !cli.no_tui && !cli.force && !cli.startup_probe,
{
}

/// A rejected length is told with its label: a text that is no number, a number
/// that is not above zero, and a number from 2^64 seconds on.
pub proof fn law_rejected_lengths_are_told(
    value: &str,
    number: nat,
    seconds: Result<Duration, String>,
    minutes: Result<Duration, String>,
)
    requires
        call_ensures(parse_duration, (value,), seconds),
        call_ensures(parse_minutes, (value,), minutes),
        0x1_0000_0000_0000_0000 <= number <= 0x1_0000_0000_0000_0000_0000_0000,
    ensures
        value@.len() == 0 ==> seconds is Err && seconds->Err_0@ == "duration"@
            + " must be a number"@,
        value@.len() == 0 ==> minutes is Err && minutes->Err_0@ == "part length"@
            + " must be a number"@,
        text::upper(value@) == "INF"@ || text::upper(value@) == "NAN"@ ==> seconds is Err
            && seconds->Err_0@ == "duration"@ + " must be greater than zero"@,
        text::all_digits(value@) && value@.len() > 0 && text::number_of(value@) == 0 ==> minutes
            is Err && minutes->Err_0@ == "part length"@ + " must be greater than zero"@,
        value@ == text::decimal(number) ==> seconds is Err && seconds->Err_0@ == "duration"@
            + " is too large"@,
        value@ == text::decimal(number) ==> minutes is Err && minutes->Err_0@ == "part length"@
            + " is too large"@,
{
    if value@.len() == 0 {
        reveal_strlit("INF");
        assert(value@ =~= Seq::<char>::empty());
        reveal_strlit("inf");
        assert(text::upper("inf"@) =~= "INF"@);
        decimal::law_special_words_are_unusable("inf"@, '+');
    }
    if text::upper(value@) == "INF"@ || text::upper(value@) == "NAN"@ {
        decimal::law_special_words_are_unusable(value@, '+');
    }
    if text::all_digits(value@) && value@.len() > 0 {
        lemma_digits_are_read(value@);
        if text::number_of(value@) == 0 {
            law_zero_lengths_are_rejected(value@, 60);
        }
    }
    if value@ == text::decimal(number) {
        text::lemma_decimal_spells(number);
        lemma_digits_are_read(value@);
        lemma_long_lengths(number, 1);
        lemma_long_lengths(number, 60);
    }
}

/// A length from 2^64 seconds on is not below that limit after rounding.
proof fn lemma_long_lengths(number: nat, factor: nat)
    requires
        0x1_0000_0000_0000_0000 <= number <= 0x1_0000_0000_0000_0000_0000_0000,
        1 <= factor <= 60,
    ensures
        ({
            let value = binary64::nearest(number, 1);
            let seconds = value.times(factor);
            &&& !value.overflows() && !seconds.overflows() && seconds.significand != 0
            &&& !seconds.is_below_power(64)
        }),
{
    use_powers();
    let limit = vstd::arithmetic::power2::pow2(64);
    let value = binary64::nearest(number, 1);
    let mark = binary64::Rounded { significand: 1, exponent: 64 };
    assert(mark.numerator() == limit && mark.denominator() == 1);
    assert(number <= 1 * vstd::arithmetic::power2::pow2(96));
    binary64::lemma_rounding_keeps_limit(number, 1, 96);
    binary64::order::lemma_nearest_reaches(mark, number, 1);
    let (n, d) = (value.numerator(), value.denominator());
    assert(limit * d <= n);
    assert(limit * d <= n * factor) by (nonlinear_arith)
        requires
            limit * d <= n,
            factor >= 1,
    ;
    let wide = vstd::arithmetic::power2::pow2(96);
    let more = vstd::arithmetic::power2::pow2(102);
    assert(n * factor <= d * more) by (nonlinear_arith)
        requires
            n <= d * wide,
            factor <= 64,
            more == 64 * wide,
    ;
    binary64::lemma_rounding_keeps_limit(n * factor, d, 102);
    binary64::order::lemma_nearest_reaches(mark, n * factor, d);
    let seconds = value.times(factor);
    binary64::lemma_denominator_is_positive(seconds);
    assert(limit * seconds.denominator() <= seconds.numerator());
    assert(seconds.denominator() * limit <= seconds.numerator()) by (nonlinear_arith)
        requires
            limit * seconds.denominator() <= seconds.numerator(),
    ;
    assert(seconds.numerator() > 0) by (nonlinear_arith)
        requires
            limit * seconds.denominator() <= seconds.numerator(),
            limit > 0,
            seconds.denominator() > 0,
    ;
    if seconds.significand == 0 && seconds.exponent >= 0 {
        assert(0 * vstd::arithmetic::power2::pow2(seconds.exponent as nat) == 0)
            by (nonlinear_arith);
    }
}

/// The powers of two around the limit of a duration.
proof fn use_powers()
    ensures
        vstd::arithmetic::power2::pow2(64) == 0x1_0000_0000_0000_0000,
        vstd::arithmetic::power2::pow2(96) == 0x1_0000_0000_0000_0000_0000_0000,
        vstd::arithmetic::power2::pow2(102) == 64 * vstd::arithmetic::power2::pow2(96),
{
    vstd::arithmetic::power2::lemma2_to64();
    vstd::arithmetic::power2::lemma2_to64_rest();
    vstd::arithmetic::power2::lemma_pow2_adds(64, 32);
    vstd::arithmetic::power2::lemma_pow2_adds(96, 6);
}

} // verus!
