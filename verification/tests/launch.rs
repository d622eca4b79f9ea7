//! Destinations, typed options, reports, and progress messages.
use std::cell::RefCell;

use record_tui::audio::{AudioEvent, RecordingSummary, SavedFile, SavedFileKind};
use record_tui::binary64::Binary64;
use record_tui::cli::VideoOptions;
use record_tui::disk::{CreateError, CreateOutcome, Disk};
use record_tui::headless::{
    audio_finalizing_message, audio_start_messages, video_messages, video_start_messages,
    AudioProgress, Message,
};
use record_tui::launch::{
    local_timestamp, monitor_line, output_target, parse_canvas, parse_crop, parse_fit,
    parse_monitor, picture_settings, portable_timestamp, setup_lines, video_config, video_target,
    CalendarTime, MonitorChoice, OptionProblem, TargetError,
};
use record_tui::path::FilePath;
use record_tui::report::{
    doctor_lines, file_uri, output_link, percent_encode_uri_path, summary_detail, summary_lines,
    video_lines,
};
use record_tui::session::{NameProblem, OutputTarget};
use record_tui::time::Duration;
use record_tui::video::{
    CanvasSize, CropRect, FitMode, MonitorInfo, VideoEvent, VideoSource, VideoSummary,
};

fn path(name: &str) -> FilePath {
    FilePath::new("", name, '/')
}

fn directory() -> FilePath {
    FilePath::new("/", "tmp", '/')
}

fn target(
    requested: Option<&FilePath>,
    force: bool,
    existing: &[&str],
    folder_works: bool,
) -> Result<OutputTarget, TargetError> {
    output_target(
        requested,
        force,
        Duration::from_secs(600),
        &directory(),
        "20260820-190800",
        &mut Disk::new(
            |place: &FilePath| existing.contains(&place.text().as_str()),
            |_: &FilePath| folder_works,
            |_: &FilePath| CreateOutcome::Created,
        ),
    )
}

#[test]
fn explicit_target_can_live_in_a_temp_directory() {
    let requested = directory().child("take");
    let target = target(Some(&requested), false, &[], true).unwrap();
    assert!(target.root().same(&directory().child("take.mp3")));
    assert!(!target.is_session());
}

#[test]
fn default_target_creates_a_session_directory() {
    let created: RefCell<Vec<String>> = RefCell::new(Vec::new());
    let target = output_target(
        None,
        false,
        Duration::from_secs(600),
        &directory(),
        "20260820-190800",
        &mut Disk::new(
            |_: &FilePath| false,
            |_: &FilePath| true,
            |place: &FilePath| {
                created.borrow_mut().push(place.text());
                CreateOutcome::Created
            },
        ),
    )
    .unwrap();
    assert!(target.is_session());
    assert_eq!(*created.borrow(), vec![target.root().text()]);
    assert_eq!(target.root().text(), "/tmp/recording-20260820-190800");
}

#[test]
fn explicit_target_protects_an_existing_file() {
    let requested = directory().child("take.mp3");
    let error = target(Some(&requested), false, &["/tmp/take.mp3"], true).unwrap_err();
    assert_eq!(
        error.message(),
        "refusing to overwrite /tmp/take.mp3; choose another path or pass --force"
    );
    match target(Some(&requested), true, &["/tmp/take.mp3"], true).unwrap() {
        OutputTarget::SingleFile { path, replace } => {
            assert!(path.same(&requested));
            assert!(replace);
        }
        OutputTarget::Session { .. } => panic!("one file is expected"),
    }
}

#[test]
fn explicit_target_rejects_a_non_mp3_extension() {
    match target(Some(&path("take.wav")), false, &[], true).unwrap_err() {
        TargetError::InvalidName { requested, problem } => {
            assert_eq!(requested.text(), "take.wav");
            assert_eq!(problem, NameProblem::OtherExtension);
        }
        _ => panic!("the name must be refused"),
    }
    let error = target(Some(&path("take.wav")), false, &[], true).unwrap_err();
    assert_eq!(error.message(), "invalid output path take.wav");
    assert_eq!(error.cause(), Some("the output file must use the .mp3 extension"));
}

#[test]
fn folders_and_sessions_can_fail() {
    let requested = directory().child("take");
    let error = target(Some(&requested), false, &[], false).unwrap_err();
    assert_eq!(error.message(), "could not create output directory /tmp");
    assert!(target(Some(&path("take")), false, &[], false).is_ok());
    let root = FilePath::new("/", "take", '/');
    let error = target(Some(&root), false, &[], false).unwrap_err();
    assert_eq!(error.message(), "could not create output directory /");
    let failed = output_target(
        None,
        false,
        Duration::from_secs(600),
        &path("."),
        "1",
        &mut Disk::new(
            |_: &FilePath| false,
            |_: &FilePath| true,
            |_: &FilePath| CreateOutcome::Failed,
        ),
    )
    .unwrap_err();
    assert_eq!(failed.message(), "could not create a recording session in .");
    assert_eq!(failed.cause(), None);
    match failed {
        TargetError::NoSession { cause, .. } => assert_eq!(cause, CreateError::Failed),
        _ => panic!("no session can be created"),
    }
}

#[test]
fn destinations_touch_the_disk_only_where_they_must() {
    let calls: RefCell<Vec<String>> = RefCell::new(Vec::new());
    let note = |call: &str, place: &FilePath| {
        calls.borrow_mut().push(format!("{call} {}", place.text()));
    };
    let run = |requested: Option<&FilePath>, force: bool, exists: bool| {
        calls.borrow_mut().clear();
        let mut disk = Disk::new(
            |place: &FilePath| {
                note("exists", place);
                exists
            },
            |place: &FilePath| {
                note("folder", place);
                true
            },
            |place: &FilePath| {
                note("create", place);
                CreateOutcome::Created
            },
        );
        let _ = output_target(requested, force, Duration::from_secs(1), &directory(), "1", &mut disk);
        calls.borrow().clone()
    };
    let take = directory().child("take.mp3");
    assert_eq!(run(Some(&take), false, true), vec!["exists /tmp/take.mp3"]);
    assert_eq!(
        run(Some(&take), false, false),
        vec!["exists /tmp/take.mp3", "folder /tmp/take.mp3"]
    );
    assert_eq!(run(Some(&take), true, true), vec!["folder /tmp/take.mp3"]);
    assert_eq!(run(Some(&path("take")), true, true), Vec::<String>::new());
    assert_eq!(run(Some(&path("take.wav")), false, false), Vec::<String>::new());
    assert_eq!(
        run(None, false, false),
        vec!["folder /tmp/recording-1", "create /tmp/recording-1"]
    );
}

#[test]
fn a_session_without_a_free_name_says_so() {
    let mut disk = Disk::new(
        |_: &FilePath| false,
        |_: &FilePath| true,
        |_: &FilePath| CreateOutcome::AlreadyExists,
    );
    let error =
        output_target(None, false, Duration::from_secs(1), &path("."), "1", &mut disk).unwrap_err();
    assert_eq!(error.cause(), Some("could not choose a unique recording directory"));
}

#[test]
fn videos_have_their_own_destination() {
    let chosen = |requested: Option<&FilePath>, exists: bool| {
        let mut disk = Disk::new(
            |_: &FilePath| exists,
            |_: &FilePath| true,
            |_: &FilePath| CreateOutcome::Failed,
        );
        video_target(requested, false, "7", '/', &mut disk)
    };
    assert_eq!(chosen(Some(&path("..")), false).unwrap().text(), "..");
    assert_eq!(chosen(Some(&path(".")), false).unwrap().text(), ".");
    assert_eq!(chosen(Some(&FilePath::new("/", "", '/')), false).unwrap().text(), "/");
    assert_eq!(chosen(None, true).unwrap().text(), "recording-7.mp4");
    assert_eq!(chosen(Some(&path("clip")), false).unwrap().text(), "clip.mp4");
    assert_eq!(chosen(Some(&path("clip.MP4")), false).unwrap().text(), "clip.MP4");
    assert_eq!(
        chosen(Some(&path("clip.mov")), false).unwrap_err().message(),
        "the video output file must use the .mp4 extension"
    );
    assert!(matches!(
        chosen(Some(&path("clip")), true).unwrap_err(),
        TargetError::InUse { .. }
    ));
}

#[test]
fn timestamps_have_a_fixed_width() {
    let time = CalendarTime { year: 2026, month: 8, day: 2, hour: 9, minute: 8, second: 0 };
    assert_eq!(local_timestamp(&time), "20260802-090800");
    assert_eq!(portable_timestamp(1_787_000_000), "1787000000");
}

fn options() -> VideoOptions {
    VideoOptions {
        output: None,
        monitor: "primary".to_owned(),
        fit: "Cover".to_owned(),
        canvas: Some("1280x720".to_owned()),
        crop: Some("1, 2,30 ,40".to_owned()),
        video_bitrate: 20,
        audio_bitrate: 192,
        fps: 75,
        duration: None,
        force: true,
        setup: false,
        no_tui: false,
    }
}

#[test]
fn picture_options_are_parsed_in_order() {
    let settings = picture_settings(&options()).unwrap();
    assert_eq!(settings.fit, FitMode::Cover);
    assert_eq!(settings.canvas, CanvasSize { width: 1280, height: 720 });
    assert_eq!(settings.crop, CropRect { left: 1, top: 2, width: 30, height: 40 });
    let bad = VideoOptions {
        fit: "wide".to_owned(),
        canvas: Some("?".to_owned()),
        crop: Some("?".to_owned()),
        ..options()
    };
    let error = picture_settings(&bad).unwrap_err();
    assert_eq!(error.message(), "invalid fit wide; use contain, cover, stretch, or native");
    let error = picture_settings(&VideoOptions { fit: "NATIVE".to_owned(), ..bad }).unwrap_err();
    assert_eq!(error.message(), "invalid canvas ?; use WxH or a preset name");
    let none = VideoOptions { canvas: None, crop: None, ..options() };
    assert_eq!(picture_settings(&none).unwrap().canvas.width, 0);
}

#[test]
fn canvas_options_have_exact_messages() {
    assert_eq!(parse_canvas("4K").unwrap(), CanvasSize { width: 3840, height: 2160 });
    assert_eq!(parse_canvas("native").unwrap(), CanvasSize { width: 0, height: 0 });
    assert_eq!(parse_canvas("+1x02").unwrap(), CanvasSize { width: 1, height: 2 });
    let cases = [
        ("ax720", "invalid canvas width in ax720"),
        ("x", "invalid canvas width in x"),
        ("1280x", "invalid canvas height in 1280x"),
        ("1x2x3", "invalid canvas height in 1x2x3"),
        ("4294967296x1", "invalid canvas width in 4294967296x1"),
        ("0x720", "canvas dimensions must be greater than zero"),
        ("1280X720", "invalid canvas 1280X720; use WxH or a preset name"),
    ];
    for (value, message) in cases {
        assert_eq!(parse_canvas(value).unwrap_err().message(), message);
    }
    assert_eq!(parse_canvas("4294967295x1").unwrap().width, u32::MAX);
}

#[test]
fn crop_options_have_exact_messages() {
    let cases = [
        ("1,2,3", "crop must be LEFT,TOP,WIDTH,HEIGHT"),
        ("1,2,3,4,5", "crop must be LEFT,TOP,WIDTH,HEIGHT"),
        ("a,2,3,4", "invalid crop left in a,2,3,4"),
        ("1,-2,3,4", "invalid crop top in 1,-2,3,4"),
        ("1,2,,4", "invalid crop width in 1,2,,4"),
        ("1,2,3,4x", "invalid crop height in 1,2,3,4x"),
        ("1,2,0,4", "crop dimensions must be greater than zero"),
    ];
    for (value, message) in cases {
        assert_eq!(parse_crop(value).unwrap_err().message(), message);
    }
}

fn monitors() -> Vec<MonitorInfo> {
    let monitor = |index, primary| MonitorInfo {
        index,
        name: format!("DISPLAY{index}"),
        primary,
        width: 1920,
        height: 1080,
        left: 0,
        top: 0,
    };
    vec![monitor(0, false), monitor(3, true)]
}

#[test]
fn monitors_are_chosen_by_name_or_index() {
    let monitors = monitors();
    assert_eq!(parse_monitor(&monitors, "Primary").unwrap(), MonitorChoice::Index(3));
    assert_eq!(parse_monitor(&monitors, "LIST").unwrap(), MonitorChoice::List);
    assert_eq!(parse_monitor(&monitors, "7").unwrap(), MonitorChoice::Index(7));
    let error = parse_monitor(&monitors, "left").unwrap_err();
    assert_eq!(
        error.message(),
        "invalid monitor left; use a monitor index, primary, or list"
    );
    let error = parse_monitor(&Vec::new(), "primary").unwrap_err();
    assert_eq!(error.problem, OptionProblem::NoPrimaryMonitor);
    assert_eq!(error.message(), "no primary monitor found");
    assert_eq!(monitor_line(&monitors[0]), "  0 DISPLAY0 1920x1080");
    assert_eq!(monitor_line(&monitors[1]), "  3 DISPLAY3 1920x1080 (primary)");
    assert_eq!(parse_fit("sTretch").unwrap(), FitMode::Stretch);
}

#[test]
fn video_settings_use_bits_and_a_supported_rate() {
    let settings = picture_settings(&options()).unwrap();
    let config = video_config(&options(), &settings, 0, path("clip.mp4"));
    assert_eq!(config.source, VideoSource::Primary);
    assert_eq!((config.video_bitrate, config.audio_bitrate), (20_000_000, 192_000));
    assert_eq!(config.fps, 60);
    assert!(config.replace);
    let config = video_config(&VideoOptions { fps: 0, ..options() }, &settings, 2, path("a"));
    assert_eq!(config.source, VideoSource::Index(2));
    assert_eq!(config.fps, 1);
}

#[test]
fn the_setup_shows_the_settings() {
    let settings = picture_settings(&options()).unwrap();
    assert_eq!(
        setup_lines(&options(), &settings),
        vec![
            "record video setup",
            "  monitor: primary",
            "  fit: cover",
            "  canvas: 1280x720",
            "  crop: 1,2,30,40",
            "  fps: 75",
            "",
            "Press Enter to start capture.",
        ]
    );
    let plain = VideoOptions { canvas: None, crop: None, ..options() };
    let lines = setup_lines(&plain, &picture_settings(&plain).unwrap());
    assert_eq!(lines[3], "  canvas: native source size");
    assert_eq!(lines[4], "  crop: full frame");
}

fn summary(frames: u64, files: Vec<SavedFile>) -> RecordingSummary {
    RecordingSummary {
        output: path("session"),
        sample_rate: 48_000,
        bitrate: 320_000,
        frames,
        files,
    }
}

fn take(kind: SavedFileKind) -> SavedFile {
    SavedFile {
        path: path("take.mp3"),
        kind,
        sample_rate: 48_000,
        bitrate: 320_000,
        frames: 273_600,
        edit_source: None,
    }
}

#[test]
fn single_file_summary_keeps_the_compact_original_format() {
    let summary = summary(273_600, vec![take(SavedFileKind::Recording)]);
    assert_eq!(summary_detail(&summary, false), "5.7s · 320 kbps MP3 · 48 kHz stereo");
}

#[test]
fn session_summary_reports_its_file_count() {
    let summary = summary(48_000, vec![]);
    assert_eq!(
        summary_detail(&summary, true),
        "1.0s · 0 files · 320 kbps MP3 · 48 kHz stereo"
    );
}

#[test]
fn empty_summary_has_a_valid_zero_duration_detail() {
    let summary = summary(0, vec![]);
    assert_eq!(summary_detail(&summary, false), "0.0s · 320 kbps MP3 · 48 kHz stereo");
}

#[test]
fn summaries_name_their_output() {
    let single = summary(273_600, vec![take(SavedFileKind::Recording)]);
    assert_eq!(summary_lines(&single, "take.mp3")[0], "✓ Saved take.mp3");
    let session = summary(273_600, vec![take(SavedFileKind::Part)]);
    let lines = summary_lines(&session, "session");
    assert_eq!(lines[0], "✓ Saved session session");
    assert_eq!(lines[1], "  5.7s · 1 file · 320 kbps MP3 · 48 kHz stereo");
    assert_eq!(summary_lines(&summary(0, vec![]), "x")[0], "✓ No audio was captured");
}

#[test]
fn hyperlink_uri_escapes_spaces_symbols_and_unicode() {
    assert_eq!(
        percent_encode_uri_path("C:/My Music/café #1.mp3"),
        "C:/My%20Music/caf%C3%A9%20%231.mp3"
    );
}

#[test]
fn windows_file_uri_targets_an_absolute_path() {
    assert_eq!(
        file_uri(r"C:\Users\Ada Lovelace\take #1.mp3", true),
        "file:///C:/Users/Ada%20Lovelace/take%20%231.mp3"
    );
}

#[test]
fn file_uris_know_shares_and_long_paths() {
    assert_eq!(file_uri(r"\\server\share\a", true), "file://server/share/a");
    assert_eq!(file_uri(r"\\?\UNC\server\share\a", true), "file://server/share/a");
    assert_eq!(file_uri(r"\\?\C:\a", true), "file:///C:/a");
    assert_eq!(file_uri("/home/a b", false), "file:///home/a%20b");
    assert_eq!(output_link("label", Some("file:///x"), false), "label");
    assert_eq!(output_link("label", None, true), "label");
    assert_eq!(
        output_link("label", Some("file:///x"), true),
        "\u{1b}]8;;file:///x\u{1b}\\label\u{1b}]8;;\u{1b}\\"
    );
}

#[test]
fn doctor_reports_both_diagnoses() {
    assert_eq!(doctor_lines(None).len(), 5);
    let lines = doctor_lines(Some("no device"));
    assert_eq!(lines.len(), 4);
    assert_eq!(lines[3], "✗ screen capture unavailable: no device");
}

fn exact(value: f64) -> Binary64 {
    Binary64::from_bits(value.to_bits()).unwrap()
}

#[test]
fn video_summaries_have_two_lines_when_ready() {
    let mut summary = VideoSummary {
        output: path("a.mp4"),
        width: 1920,
        height: 1080,
        fps: 60,
        frames: 90,
        sample_rate: 48_000,
        video_bitrate: 20_000_000,
        audio_bitrate: 192_000,
        recording_ready_ms: None,
        finalize_ms: exact(87.25),
    };
    assert_eq!(
        video_lines(&summary),
        vec!["  1.5s · 1920x1080 @ 60 fps · H.264 20 Mbps + AAC 192 kbps"]
    );
    summary.recording_ready_ms = Some(exact(148.06));
    assert_eq!(video_lines(&summary)[1], "  capture ready 148.1 ms · finalized in 87.2 ms");
}

fn shown(messages: &[Message]) -> Vec<(String, bool)> {
    messages.iter().map(|message| (message.text.clone(), message.ends_line)).collect()
}

#[test]
fn headless_progress_follows_the_events() {
    let elapsed = Duration::from_nanos(12_345_678);
    let mut progress = AudioProgress::new();
    assert_eq!(progress.sample_rate, 48_000);
    let started = AudioEvent::Started { sample_rate: 44_100, bitrate: 192_000, channels: 2 };
    let (messages, stop) = progress.messages(&started, false, &elapsed);
    assert_eq!(shown(&messages), vec![("  192 kbps · 44 kHz · stereo".to_owned(), true)]);
    assert!(!stop);
    let (messages, stop) = progress.messages(&started, true, &elapsed);
    assert_eq!(messages[1].text, "RECORD_READY_MS=12.346");
    assert!(stop);
    let samples =
        AudioEvent::Samples { left: vec![], right: vec![], encoded_frames: 44_100 * 3_725 };
    let (messages, _) = progress.messages(&samples, false, &elapsed);
    assert_eq!(shown(&messages), vec![("\r  01:02:05  Ctrl+C to stop".to_owned(), false)]);
    let saved = AudioEvent::Saved(take(SavedFileKind::Part));
    let (messages, _) = progress.messages(&saved, false, &elapsed);
    assert!(messages[0].text.starts_with("\r✓ Saved take.mp3 (5.7s)   "));
    let (messages, _) =
        progress.messages(&AudioEvent::Notice("late".to_owned()), false, &elapsed);
    assert_eq!(messages[0].text, "\r  late");
    let (messages, _) = progress.messages(&AudioEvent::Finalizing, false, &elapsed);
    assert_eq!(messages[0].text, audio_finalizing_message().text);
    assert_eq!(audio_start_messages(&path("a")).len(), 2);
    assert_eq!(audio_start_messages(&path("a"))[0].text, "● Recording system audio → a");
}

#[test]
fn headless_video_progress_follows_the_events() {
    let started = VideoEvent::Started {
        width: 1280,
        height: 720,
        fps: 30,
        sample_rate: 48_000,
        capture_ready_ms: exact(99.5),
    };
    assert_eq!(
        shown(&video_messages(&started)),
        vec![
            ("  1280x720 @ 30 fps · H.264 + AAC".to_owned(), true),
            ("CAPTURE_READY_MS=99.500".to_owned(), true),
        ]
    );
    assert_eq!(
        shown(&video_messages(&VideoEvent::Finalizing)),
        vec![("  Finalizing MP4...".to_owned(), false)]
    );
    assert_eq!(video_messages(&VideoEvent::Notice("x".to_owned()))[0].text, "  x");
    assert_eq!(video_start_messages()[0].text, "● Recording screen");
}
