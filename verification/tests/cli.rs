//! Command-line values and typed numbers.
use clap::{Arg, ArgAction, ArgMatches, Command};
use record_tui::binary64::{checked_frame_duration, count_ratio, Binary64};
use record_tui::cli::{parse_duration, parse_minutes, Bitrate, Cli};
use record_tui::labels;
use record_tui::launch;
use record_tui::time::Duration;

fn command_line(arguments: &[&str]) -> ArgMatches {
    Command::new("record")
        .arg(Arg::new("output").short('o').long("output"))
        .arg(Arg::new("bitrate").short('b').long("bitrate").default_value("k320"))
        .arg(Arg::new("duration").short('d').long("duration").value_parser(parse_duration))
        .arg(
            Arg::new("part-minutes")
                .long("part-minutes")
                .value_parser(parse_minutes)
                .default_value("10"),
        )
        .arg(Arg::new("no-tui").long("no-tui").action(ArgAction::SetTrue))
        .try_get_matches_from(arguments)
        .unwrap()
}

fn bitrate(parsed: &ArgMatches) -> u32 {
    Bitrate::from_name(parsed.get_one::<String>("bitrate").unwrap()).unwrap().bits_per_second()
}

#[test]
fn parses_fractional_duration() {
    assert_eq!(parse_duration("2.5").unwrap(), Duration::from_millis(2_500));
}

#[test]
fn rejects_non_positive_duration() {
    assert!(parse_duration("0").is_err());
    assert!(parse_duration("-1").is_err());
}

#[test]
fn parses_fractional_part_minutes() {
    assert_eq!(parse_minutes("0.5").unwrap(), Duration::from_secs(30));
}

#[test]
fn default_cli_uses_ten_minute_parts() {
    assert_eq!(Cli::default().segment_duration, Duration::from_secs(600));
}

#[test]
fn clap_defaults_match_the_bare_command_fast_path() {
    let parsed = command_line(&["record"]);
    let fast = Cli::default();
    assert_eq!(
        parsed.get_one::<String>("output").cloned(),
        fast.output.as_ref().map(|path| path.text())
    );
    assert_eq!(bitrate(&parsed), fast.bitrate.bits_per_second());
    assert_eq!(parsed.get_one::<Duration>("duration").copied(), fast.duration);
    assert_eq!(
        parsed.get_one::<Duration>("part-minutes").copied(),
        Some(fast.segment_duration)
    );
    assert_eq!(parsed.get_flag("no-tui"), fast.no_tui);
}

#[test]
fn clap_parses_output_rate_duration_and_part_length() {
    let parsed = command_line(&[
        "record",
        "-o",
        "take.mp3",
        "-b",
        "k192",
        "-d",
        "2.5",
        "--part-minutes",
        "0.25",
        "--no-tui",
    ]);
    assert_eq!(parsed.get_one::<String>("output").map(String::as_str), Some("take.mp3"));
    assert_eq!(bitrate(&parsed), 192_000);
    assert_eq!(
        parsed.get_one::<Duration>("duration").copied(),
        Some(Duration::from_millis(2_500))
    );
    assert_eq!(
        parsed.get_one::<Duration>("part-minutes").copied(),
        Some(Duration::from_secs(15))
    );
    assert!(parsed.get_flag("no-tui"));
}

#[test]
fn parser_rejects_nonfinite_and_too_large_values() {
    for value in ["NaN", "inf", "-inf", "1e999"] {
        assert!(parse_duration(value).is_err(), "{value} should fail");
        assert!(parse_minutes(value).is_err(), "{value} should fail");
    }
}

#[test]
fn length_problems_have_their_own_messages() {
    let cases = [
        ("", "duration must be a number"),
        ("two", "duration must be a number"),
        ("1.2.3", "duration must be a number"),
        (" 1", "duration must be a number"),
        ("1e", "duration must be a number"),
        ("-3", "duration must be greater than zero"),
        ("0e5", "duration must be greater than zero"),
        ("Infinity", "duration must be greater than zero"),
        ("1e20", "duration is too large"),
        ("18446744073709551616", "duration is too large"),
    ];
    for (value, message) in cases {
        assert_eq!(parse_duration(value).unwrap_err(), message, "{value:?}");
    }
    assert_eq!(parse_minutes("x").unwrap_err(), "part length must be a number");
    assert_eq!(parse_minutes("1e308").unwrap_err(), "part length must be greater than zero");
}

#[test]
fn typed_lengths_round_like_double_precision_numbers() {
    for value in ["0.1", "1e-9", "1.000000001", "+7.", ".5", "123456789.987654321", "3E-4", "60"] {
        let expected = std::time::Duration::try_from_secs_f64(value.parse::<f64>().unwrap());
        assert_eq!(
            parse_duration(value).unwrap().as_nanos(),
            expected.unwrap().as_nanos(),
            "{value}"
        );
        let minutes = std::time::Duration::try_from_secs_f64(value.parse::<f64>().unwrap() * 60.0);
        assert_eq!(
            parse_minutes(value).unwrap().as_nanos(),
            minutes.unwrap().as_nanos(),
            "{value}"
        );
    }
    assert_eq!(parse_duration("1e-10").unwrap_err(), "duration must be greater than zero");
    assert_eq!(parse_duration("1e-12").unwrap_err(), "duration must be greater than zero");
    assert_eq!(parse_minutes("1e-12").unwrap_err(), "part length must be greater than zero");
    assert_eq!(parse_duration("6e-10").unwrap(), Duration::from_nanos(1));
}

#[test]
fn whole_typed_lengths_are_exact() {
    assert_eq!(parse_minutes("10").unwrap(), Duration::from_secs(600));
    assert_eq!(parse_duration("4503599627370495").unwrap().as_secs(), 4_503_599_627_370_495);
}

#[test]
fn bitrates_have_names() {
    let names = ["k128", "k192", "k256", "k320"];
    let rates = [128_000, 192_000, 256_000, 320_000];
    for (name, rate) in names.iter().zip(rates) {
        assert_eq!(Bitrate::from_name(name).unwrap().bits_per_second(), rate);
    }
    assert_eq!(Bitrate::from_name("K320"), None);
    assert_eq!(Bitrate::from_name("k64"), None);
}

#[test]
fn a_startup_probe_runs_without_the_interface() {
    let probe = launch::bare_command(true);
    assert!(probe.startup_probe && probe.no_tui);
    let plain = launch::bare_command(false);
    assert!(!plain.startup_probe && !plain.no_tui);
    assert!(plain.command.is_none());
    assert!(launch::opens_interface(false, false, true, true));
    assert!(!launch::opens_interface(true, false, true, true));
    assert!(!launch::opens_interface(false, true, true, true));
    assert!(!launch::opens_interface(false, false, false, true));
    assert!(!launch::opens_interface(false, false, true, false));
}

#[test]
fn frame_lengths_follow_double_precision_division() {
    for (frames, rate) in [(1_u64, 44_100_u32), (88_201, 44_100), (1 << 60, 48_000), (7, 3)] {
        let expected =
            std::time::Duration::from_secs_f64(frames as f64 / f64::from(rate)).as_nanos();
        assert_eq!(checked_frame_duration(frames, rate).unwrap().as_nanos(), expected);
    }
    assert_eq!(checked_frame_duration(100, 0).unwrap(), Duration::zero());
    assert!(checked_frame_duration(u64::MAX, 1).is_none());
}

fn number(value: Binary64) -> f64 {
    value.significand as f64 * 2.0_f64.powi(value.exponent)
}

#[test]
fn sums_products_and_ratios_round_like_the_hardware() {
    let numbers = [1.0, 0.1, 1.0 / 3.0, 48_000.0 / 44_100.0, 123_456.789, 2.0_f64.powi(40) + 0.5];
    for left in numbers {
        for right in numbers {
            let a = Binary64::from_bits(left.to_bits()).unwrap();
            let b = Binary64::from_bits(right.to_bits()).unwrap();
            assert_eq!(number(a.plus(&b).unwrap()), left + right);
            assert_eq!(number(a.multiplied(&b)), left * right);
            assert_eq!(a.is_at_most(&b), left <= right);
            assert_eq!(a.split().0, left.floor() as u64);
        }
    }
    assert_eq!(number(count_ratio(1, 3)), 1.0 / 3.0);
    assert_eq!(number(count_ratio(u64::MAX, 7)), u64::MAX as f64 / 7.0);
    assert!(Binary64::from_bits(f64::INFINITY.to_bits()).is_none());
}

#[test]
fn fixed_numbers_round_half_to_even() {
    let cases = [(0.25, 1, "0.2"), (0.35, 1, "0.3"), (2.5, 0, "2"), (99.9996, 3, "100.000")];
    for (value, places, expected) in cases {
        let mut text = String::new();
        labels::push_fixed(&mut text, &Binary64::from_bits(f64::to_bits(value)).unwrap(), places);
        assert_eq!(text, expected);
        assert_eq!(text, format!("{:.*}", places as usize, value));
    }
}
