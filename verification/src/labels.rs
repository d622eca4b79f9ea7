//! Texts for numbers, times, and paths.
use vstd::prelude::*;

use crate::binary64;
use crate::binary64::{duration_seconds, Binary64};
use crate::path::FilePath;
use crate::text;
use crate::time::Duration;

verus! {

/// A small power of ten.
pub open spec fn decimal_unit(places: nat) -> nat {
    if places == 0 {
        1
    } else if places == 1 {
        10
    } else if places == 2 {
        100
    } else {
        1_000
    }
}

/// A number with up to three decimal places. A tie goes to the even digit.
pub open spec fn fixed(value: binary64::Rounded, places: nat) -> Seq<char> {
    let units = value.units(decimal_unit(places));
    if places == 0 {
        text::decimal(units)
    } else {
        text::decimal(units / decimal_unit(places)) + "."@ + text::padded(
            units % decimal_unit(places),
            places,
        )
    }
}

/// Appends a number with up to three decimal places.
pub fn push_fixed(buffer: &mut String, value: &Binary64, places: u32)
    requires
        value.wf(),
        value@.is_below_power(80),
        places <= 3,
    ensures
        final(buffer)@ == old(buffer)@ + fixed(value@, places as nat),
{
    let unit: u32 = match places {
        0 => 1,
        1 => 10,
        2 => 100,
        _ => 1_000,
    };
    let units: u128 = match value.units(unit, 80) {
        Some(units) => units,
        None => 0,
    };
    if places == 0 {
        text::push_wide_decimal(buffer, units);
    } else {
        text::push_wide_decimal(buffer, units / unit as u128);
        buffer.append(".");
        text::push_padded(buffer, (units % unit as u128) as u64, places as usize);
        proof {
            assert(buffer@ =~= old(buffer)@ + fixed(value@, places as nat));
        }
    }
}

/// The seconds of a nanosecond count with up to three decimal places.
pub open spec fn seconds_text(nanoseconds: nat, places: nat) -> Seq<char> {
    fixed(binary64::seconds_value(nanoseconds), places)
}

/// Appends the seconds of a duration with up to three decimal places.
pub fn push_seconds(buffer: &mut String, duration: &Duration, places: u32)
    requires
        places <= 3,
    ensures
        final(buffer)@ == old(buffer)@ + seconds_text(duration@, places as nat),
{
    let seconds = duration_seconds(duration);
    push_fixed(buffer, &seconds, places);
}

/// Hours, minutes, and seconds with at least two digits each.
pub open spec fn clock(seconds: nat) -> Seq<char> {
    text::padded(seconds / 3_600, 2) + ":"@ + text::padded(seconds / 60 % 60, 2) + ":"@
        + text::padded(seconds % 60, 2)
}

/// Returns a number of seconds as an hours, minutes, and seconds clock.
pub fn clock_text(seconds: u64) -> (label: String)
    ensures
        label@ == clock(seconds as nat),
{
    let mut label = String::new();
    text::push_padded(&mut label, seconds / 3_600, 2);
    label.append(":");
    text::push_padded(&mut label, seconds / 60 % 60, 2);
    label.append(":");
    text::push_padded(&mut label, seconds % 60, 2);
    proof {
        assert(label@ =~= clock(seconds as nat));
    }
    label
}

/// Formats a duration as an hours, minutes, and seconds clock.
pub fn format_clock(duration: Duration) -> (label: String)
    ensures
        label@ == clock(duration@ / 1_000_000_000),
{
    clock_text(duration.as_secs())
}

/// The milliseconds of a frame count, as far as they fit a counter.
pub open spec fn frame_milliseconds(frames: nat, sample_rate: nat) -> nat {
    let milliseconds = frames * 1_000 / sample_rate;
    if milliseconds > u64::MAX {
        u64::MAX as nat
    } else {
        milliseconds
    }
}

/// Minutes, seconds, and milliseconds, with hours in front where there are any.
pub open spec fn clip_time(milliseconds: nat) -> Seq<char> {
    let tail = text::padded(milliseconds / 60_000 % 60, 2) + ":"@ + text::padded(
        milliseconds / 1_000 % 60,
        2,
    ) + "."@ + text::padded(milliseconds % 1_000, 3);
    if milliseconds / 3_600_000 > 0 {
        text::padded(milliseconds / 3_600_000, 2) + ":"@ + tail
    } else {
        tail
    }
}

/// Formats an absolute frame count with millisecond resolution.
pub fn format_clip_time(frames: u64, sample_rate: u32) -> (label: String)
    ensures
        sample_rate == 0 ==> label@ == "00:00.000"@,
        sample_rate > 0 ==> label@ == clip_time(
            frame_milliseconds(frames as nat, sample_rate as nat),
        ),
{
    if sample_rate == 0 {
        return String::from_str("00:00.000");
    }
    let exact: u128 = frames as u128 * 1_000 / sample_rate as u128;
    let milliseconds: u64 = if exact > u64::MAX as u128 {
        u64::MAX
    } else {
        exact as u64
    };
    let mut label = String::new();
    if milliseconds / 3_600_000 > 0 {
        text::push_padded(&mut label, milliseconds / 3_600_000, 2);
        label.append(":");
    }
    text::push_padded(&mut label, milliseconds / 60_000 % 60, 2);
    label.append(":");
    text::push_padded(&mut label, milliseconds / 1_000 % 60, 2);
    label.append(".");
    text::push_padded(&mut label, milliseconds % 1_000, 3);
    proof {
        assert(label@ =~= clip_time(frame_milliseconds(frames as nat, sample_rate as nat)));
    }
    label
}

/// `count` copies of a character.
pub open spec fn repeated(character: char, count: nat) -> Seq<char> {
    Seq::new(count, |i: int| character)
}

/// A text within a limit of characters. A longer text keeps its end.
pub open spec fn compacted(whole: Seq<char>, maximum: nat) -> Seq<char> {
    if whole.len() <= maximum {
        whole
    } else if maximum <= 3 {
        repeated('.', maximum)
    } else {
        "..."@ + whole.skip(whole.len() - (maximum - 3))
    }
}

/// Keeps the end of a path within a display-width character limit.
pub fn compact_path(path: &FilePath, maximum: usize) -> (label: String)
    ensures
        maximum == 0 ==> label@ == Seq::<char>::empty(),
        maximum > 0 ==> label@ == compacted(path@.text(), maximum as nat),
{
    if maximum == 0 {
        return String::new();
    }
    let whole = path.text();
    let letters = text::characters(whole.as_str());
    if letters.len() <= maximum {
        return whole;
    }
    let mut label = String::new();
    if maximum <= 3 {
        let mut count: usize = 0;
        while count < maximum
            invariant
                count <= maximum,
                label@ == repeated('.', count as nat),
            decreases maximum - count,
        {
            label.push('.');
            count += 1;
            proof {
                assert(label@ =~= repeated('.', count as nat));
            }
        }
        return label;
    }
    label.append("...");
    let tail = text::slice(&letters, letters.len() - (maximum - 3), letters.len());
    proof {
        assert(tail@ =~= letters@.skip(letters@.len() - (maximum - 3)));
    }
    text::push_characters(&mut label, &tail);
    label
}

/// A compact path never exceeds its limit, and a path within the limit stays
/// whole. Where there is room for more than dots, its last characters stay.
pub proof fn law_compact_paths_respect_the_limit(whole: Seq<char>, maximum: nat)
    ensures
        compacted(whole, maximum).len() <= maximum,
        whole.len() <= maximum ==> compacted(whole, maximum) == whole,
        maximum > 3 && whole.len() > maximum ==> compacted(whole, maximum).skip(3) == whole.skip(
            whole.len() - (maximum - 3),
        ),
{
    reveal_strlit("...");
    if maximum > 3 && whole.len() > maximum {
        assert(compacted(whole, maximum).skip(3) =~= whole.skip(whole.len() - (maximum - 3)));
    }
}

/// A text with spaces behind it up to a minimum width.
pub open spec fn left_aligned(word: Seq<char>, width: nat) -> Seq<char> {
    if word.len() < width {
        word + repeated(' ', (width - word.len()) as nat)
    } else {
        word
    }
}

/// Returns a text with spaces behind it up to a minimum width.
pub fn align_left(word: &str, width: usize) -> (label: String)
    ensures
        label@ == left_aligned(word@, width as nat),
{
    let mut label = String::from_str(word);
    let mut length: usize = word.unicode_len();
    let ghost start = length;
    proof {
        assert(word@ + repeated(' ', 0) =~= word@);
    }
    while length < width
        invariant
            start == word@.len(),
            start <= length,
            length <= width || length == start,
            label@ == word@ + repeated(' ', (length - start) as nat),
        decreases width - length,
    {
        label.push(' ');
        length += 1;
        proof {
            assert(label@ =~= word@ + repeated(' ', (length - start) as nat));
        }
    }
    label
}

/// A clock shows hours, minutes below sixty, and seconds below sixty that add up
/// to the time.
pub proof fn law_clocks_show_the_time(seconds: u64, label: String)
    requires
        call_ensures(clock_text, (seconds,), label),
    ensures
        exists|h: nat, m: nat, s: nat|
            m < 60 && s < 60 && 3_600 * h + 60 * m + s == seconds && label@
                == #[trigger] clock_shows(h, m, s),
{
    let h = seconds as nat / 3_600;
    let m = seconds as nat / 60 % 60;
    let s = seconds as nat % 60;
    assert(label@ == clock_shows(h, m, s));
}

/// The text of a clock that shows these hours, minutes, and seconds.
pub open spec fn clock_shows(h: nat, m: nat, s: nat) -> Seq<char> {
    text::padded(h, 2) + ":"@ + text::padded(m, 2) + ":"@ + text::padded(s, 2)
}

/// The clock of a duration shows its whole seconds.
pub proof fn law_clocks_drop_fractions(
    duration: Duration,
    seconds: u64,
    label: String,
    other: String,
)
    requires
        seconds * 1_000_000_000 <= duration@ < (seconds + 1) * 1_000_000_000,
        call_ensures(format_clock, (duration,), label),
        call_ensures(clock_text, (seconds,), other),
    ensures
        label@ == other@,
{
    assert(duration@ / 1_000_000_000 == seconds);
}

/// A clip time shows hours where there are any, minutes and seconds below sixty,
/// and milliseconds that add up to the length of the frames, rounded down.
pub proof fn law_clip_times_show_the_length(frames: u64, sample_rate: u32, label: String)
    requires
        sample_rate > 0,
        frames * 1_000 <= u64::MAX,
        call_ensures(format_clip_time, (frames, sample_rate), label),
    ensures
        exists|h: nat, m: nat, s: nat, ms: nat|
            {
                let total = 3_600_000 * h + 60_000 * m + 1_000 * s + ms;
                &&& m < 60 && s < 60 && ms < 1_000
                &&& total * sample_rate <= frames * 1_000 < (total + 1) * sample_rate
                &&& label@ == #[trigger] clip_time_shows(h, m, s, ms)
            },
{
    let total = frames as nat * 1_000 / sample_rate as nat;
    vstd::arithmetic::div_mod::lemma_fundamental_div_mod(
        (frames * 1_000) as int,
        sample_rate as int,
    );
    let remainder = (frames * 1_000) % sample_rate as int;
    assert(total * sample_rate <= frames * 1_000 && frames * 1_000 < (total + 1) * sample_rate)
        by (nonlinear_arith)
        requires
            frames * 1_000 == sample_rate * total + remainder,
            0 <= remainder < sample_rate,
    ;
    assert(total <= frames * 1_000) by (nonlinear_arith)
        requires
            total * sample_rate <= frames * 1_000,
            sample_rate >= 1,
    ;
    let h = total / 3_600_000;
    let m = total / 60_000 % 60;
    let s = total / 1_000 % 60;
    let ms = total % 1_000;
    assert(3_600_000 * h + 60_000 * m + 1_000 * s + ms == total);
    assert(label@ == clip_time_shows(h, m, s, ms));
}

/// The text of a clip time with these parts.
pub open spec fn clip_time_shows(h: nat, m: nat, s: nat, ms: nat) -> Seq<char> {
    let tail = text::padded(m, 2) + ":"@ + text::padded(s, 2) + "."@ + text::padded(ms, 3);
    if h > 0 {
        text::padded(h, 2) + ":"@ + tail
    } else {
        tail
    }
}

/// A shortened path fills its limit: three dots and the end of the path, or dots
/// alone where there is room for no more. Without room nothing is left.
pub proof fn law_short_paths_show_the_end(path: FilePath, maximum: usize, label: String)
    requires
        call_ensures(compact_path, (&path, maximum), label),
    ensures
        ({
            let whole = path.folder@ + path.name@;
            &&& whole.len() <= maximum && maximum > 0 ==> label@ == whole
            &&& whole.len() > maximum ==> label@.len() == maximum
            &&& whole.len() > maximum ==> forall|i: int|
                0 <= i < label@.len() && i < 3 ==> #[trigger] label@[i] == '.'
            &&& whole.len() > maximum ==> forall|i: int|
                3 <= i < label@.len() ==> #[trigger] label@[i] == whole[i + whole.len() - maximum]
        }),
{
    reveal_strlit("...");
}

/// An aligned word keeps its letters, has at least the width, and nothing but
/// spaces behind it.
pub proof fn law_aligned_words_are_filled_with_spaces(word: &str, width: usize, label: String)
    requires
        call_ensures(align_left, (word, width), label),
    ensures
        label@.len() == (if word@.len() < width {
            width as nat
        } else {
            word@.len()
        }),
        label@.take(word@.len() as int) == word@,
        forall|i: int| word@.len() <= i < label@.len() ==> #[trigger] label@[i] == ' ',
{
    assert(label@.take(word@.len() as int) =~= word@);
}

/// A number with decimal places shows a whole number of tenths, hundredths, or
/// thousandths that is nearest to it: no further than one half away.
pub proof fn law_fixed_numbers_are_nearest(value: binary64::Rounded, places: nat)
    requires
        places <= 3,
    ensures
        ({
            let unit: nat = if places == 0 {
                1
            } else if places == 1 {
                10
            } else if places == 2 {
                100
            } else {
                1_000
            };
            exists|whole: nat, part: nat|
                {
                    let units = whole * unit + part;
                    let exact = 2 * (value.numerator() * unit);
                    &&& part < unit
                    &&& 2 * (units * value.denominator()) <= exact + value.denominator()
                    &&& exact <= 2 * (units * value.denominator()) + value.denominator()
                    &&& fixed(value, places) == #[trigger] fixed_shows(whole, part, places)
                }
        }),
{
    let unit: nat = decimal_unit(places);
    let units = value.units(unit);
    let whole = units / unit;
    let part = units % unit;
    assert(units == whole * unit + part) by {
        vstd::arithmetic::div_mod::lemma_fundamental_div_mod(units as int, unit as int);
        assert(unit * whole == whole * unit) by (nonlinear_arith);
    }
    binary64::lemma_denominator_is_positive(value);
    if value.exponent < 0 {
        binary64::error::law_nearest_wholes_are_off_by_half(
            value.significand * unit,
            value.denominator(),
        );
    } else {
        assert(units == value.numerator() * unit);
        assert(units * 1 == units);
    }
    assert(fixed(value, places) == fixed_shows(whole, part, places));
}

/// The text of a number with these places behind its point.
pub open spec fn fixed_shows(whole: nat, part: nat, places: nat) -> Seq<char> {
    if places == 0 {
        text::decimal(whole)
    } else {
        text::decimal(whole) + "."@ + text::padded(part, places)
    }
}

} // verus!
