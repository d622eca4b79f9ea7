//! Interface state and its lines of text.
use crossbeam_channel::{bounded, Receiver};
use record_tui::audio::{
    AudioCommand, AudioEvent, ClipEditSource, SavedFile, SavedFileKind,
};
use record_tui::binary64::Binary64;
use record_tui::channel::{Inbox, Outbox};
use record_tui::clip::peaks::{ClipWaveform, WaveformBin};
use record_tui::labels::{align_left, compact_path, format_clip_time, format_clock};
use record_tui::path::FilePath;
use record_tui::sample::Sample;
use record_tui::session::OutputTarget;
use record_tui::time::Duration;
use record_tui::tui::texts::{
    footer_lines, header_line, help_lines, prompt_lines, review_controls_line, review_head_lines,
    review_message_piece, review_title, saves_lines, saves_title_text, saves_window_start,
    title_line, video_footer_line, video_header_line, video_help_lines, video_status_lines, Piece,
    Tone,
};
use record_tui::tui::video::VideoApp;
use record_tui::tui::{
    App, CaptureState, ClipPrompt, Key, KeyCode, Request, TrimJob, ViewMode, PROMPT_LIMIT,
};
use record_tui::video::VideoEvent;

fn path(name: &str) -> FilePath {
    FilePath::new("", name, '/')
}

fn key(code: KeyCode, control: bool, shift: bool) -> Key {
    Key { code, pressed: true, control, shift, alt: false }
}

struct Session {
    app: App,
    commands: Outbox<AudioCommand>,
    received: Receiver<AudioCommand>,
}

impl Session {
    fn new() -> Session {
        let (commands, received) = bounded(8);
        let app = App::new(&OutputTarget::Session {
            directory: path("recording-session"),
            segment_duration: Duration::from_secs(600),
        });
        Session { app, commands: Outbox::new(commands), received }
    }

    fn press(&mut self, code: KeyCode) -> Request {
        self.app.handle_event(key(code, false, false), &mut self.commands)
    }

    fn type_text(&mut self, text: &str) {
        for character in text.chars() {
            self.press(KeyCode::Char(character));
        }
    }
}

fn saved_file(name: &str, kind: SavedFileKind) -> SavedFile {
    SavedFile {
        path: path(name),
        kind,
        sample_rate: 48_000,
        bitrate: 320_000,
        frames: 48_000,
        edit_source: None,
    }
}

fn clip_file(name: &str) -> SavedFile {
    SavedFile {
        edit_source: Some(ClipEditSource {
            pcm_path: path("part.pcm"),
            start_frame: 0,
            end_frame: 48_000,
        }),
        ..saved_file(name, SavedFileKind::Clip)
    }
}

fn words(line: &[Piece]) -> String {
    line.iter().map(|piece| piece.text.as_str()).collect()
}

fn page(lines: &[Vec<Piece>]) -> String {
    lines.iter().map(|line| words(line) + "\n").collect()
}

#[test]
fn split_is_the_default_view() {
    let session = Session::new();
    assert!(matches!(session.app.view, ViewMode::Split));
    assert!(!session.app.spectrum);
}

#[test]
fn view_key_cycles_all_three_modes() {
    let mut session = Session::new();
    session.press(KeyCode::Char('w'));
    assert!(matches!(session.app.view, ViewMode::Waveform));
    session.press(KeyCode::Char('w'));
    assert!(matches!(session.app.view, ViewMode::Spectrum));
    assert!(session.app.spectrum);
    session.press(KeyCode::Char('w'));
    assert!(matches!(session.app.view, ViewMode::Split));
}

#[test]
fn clip_prompt_validates_and_sends_a_trimmed_name() {
    let mut session = Session::new();
    session.app.state = CaptureState::Recording;
    session.press(KeyCode::Char('c'));
    session.type_text("  demo clip.mp3  ");
    session.press(KeyCode::Enter);
    match session.received.try_recv().unwrap() {
        AudioCommand::SaveClip(stem) => assert_eq!(stem, "demo clip"),
    }
    assert!(session.app.clip_prompt.is_none());
}

#[test]
fn invalid_clip_name_keeps_the_prompt_open() {
    let mut session = Session::new();
    session.app.state = CaptureState::Recording;
    session.press(KeyCode::Char('c'));
    session.type_text("NUL");
    session.press(KeyCode::Enter);
    assert!(session.received.try_recv().is_err());
    assert!(session
        .app
        .clip_prompt
        .as_ref()
        .and_then(|prompt| prompt.error.as_ref())
        .is_some());
}

#[test]
fn a_full_command_channel_keeps_the_prompt_open() {
    let (commands, received) = bounded(1);
    commands.send(AudioCommand::SaveClip("first".to_owned())).unwrap();
    let mut session =
        Session { commands: Outbox::new(commands), received, ..Session::new() };
    session.app.state = CaptureState::Recording;
    session.press(KeyCode::Char('c'));
    session.type_text("second");
    session.press(KeyCode::Enter);
    assert!(session.app.clip_prompt.as_ref().unwrap().error.is_some());
    match session.received.try_recv().unwrap() {
        AudioCommand::SaveClip(stem) => assert_eq!(stem, "first"),
    }
    assert!(session.received.try_recv().is_err());
}

#[test]
fn explicit_output_disables_the_clip_prompt() {
    let (commands, _received) = bounded(1);
    let mut app =
        App::new(&OutputTarget::SingleFile { path: path("take.mp3"), replace: false });
    app.state = CaptureState::Recording;
    app.handle_event(key(KeyCode::Char('c'), false, false), &mut Outbox::new(commands));
    assert!(app.clip_prompt.is_none());
}

#[test]
fn control_shift_c_stops_capture_from_any_modal() {
    let mut session = Session::new();
    session.app.state = CaptureState::Recording;
    session.app.clip_prompt = Some(ClipPrompt { input: String::new(), error: None });
    session.app.handle_event(key(KeyCode::Char('C'), true, true), &mut session.commands);
    assert!(session.app.stop);
    assert!(matches!(session.app.state, CaptureState::Finalizing));
}

#[test]
fn a_prompt_limits_its_input() {
    let mut session = Session::new();
    session.app.state = CaptureState::Recording;
    session.press(KeyCode::Char('c'));
    session.type_text(&"x".repeat(PROMPT_LIMIT + 5));
    assert_eq!(session.app.clip_prompt.as_ref().unwrap().input.len(), PROMPT_LIMIT);
    session.press(KeyCode::Backspace);
    assert_eq!(session.app.clip_prompt.as_ref().unwrap().input.len(), PROMPT_LIMIT - 1);
    session.press(KeyCode::Esc);
    assert!(session.app.clip_prompt.is_none());
}

#[test]
fn released_keys_have_no_effect() {
    let mut session = Session::new();
    let released = Key { pressed: false, ..key(KeyCode::Char('s'), false, false) };
    session.app.handle_event(released, &mut session.commands);
    assert!(!session.app.stop);
    session.press(KeyCode::Char('s'));
    assert!(session.app.stop);
}

#[test]
fn audio_events_update_state_samples_and_saved_selection() {
    let mut session = Session::new();
    let (sender, receiver) = bounded(8);
    sender
        .send(AudioEvent::Started { sample_rate: 44_100, bitrate: 192_000, channels: 2 })
        .unwrap();
    sender
        .send(AudioEvent::Samples {
            left: vec![Sample { bits: 0.5_f32.to_bits() }],
            right: vec![Sample { bits: (-0.25_f32).to_bits() }],
            encoded_frames: 44_100,
        })
        .unwrap();
    sender.send(AudioEvent::Saved(saved_file("part-001.mp3", SavedFileKind::Part))).unwrap();
    sender.send(AudioEvent::Notice("backend notice".to_owned())).unwrap();
    let update = session.app.drain_audio_events(&mut Inbox::new(receiver));
    let app = &session.app;
    assert!(update);
    assert!(matches!(app.state, CaptureState::Recording));
    assert_eq!(app.sample_rate, 44_100);
    assert_eq!(app.bitrate, 192_000);
    assert_eq!(app.encoded_frames, 44_100);
    assert_eq!(app.saved.len(), 1);
    assert_eq!(app.selected_save, Some(0));
    assert_eq!(app.notice.as_deref(), Some("backend notice"));
    assert!(app.spectrum);
    assert_eq!(app.elapsed(), "00:00:01");
}

#[test]
fn saved_files_are_selected_and_browsed() {
    let mut session = Session::new();
    session.app.apply_events(vec![
        AudioEvent::Saved(saved_file("part-001.mp3", SavedFileKind::Part)),
        AudioEvent::Saved(clip_file("intro.mp3")),
    ]);
    assert_eq!(session.app.selected_save, Some(1));
    assert_eq!(session.app.source_label.as_deref(), Some("CLIP · intro.mp3"));
    session.press(KeyCode::Up);
    assert_eq!(session.app.selected_save, Some(0));
    session.press(KeyCode::Up);
    assert_eq!(session.app.selected_save, Some(0));
    session.press(KeyCode::Down);
    session.press(KeyCode::Down);
    assert_eq!(session.app.selected_save, Some(1));
}

fn reviewing() -> Session {
    let mut session = Session::new();
    session.app.state = CaptureState::Recording;
    session.app.apply_events(vec![AudioEvent::Saved(clip_file("intro.mp3"))]);
    match session.press(KeyCode::Char('e')) {
        Request::LoadClip { save_index } => {
            let bins = vec![WaveformBin { minimum: -5, maximum: 5 }];
            let waveform = ClipWaveform { left: bins.clone(), right: bins };
            session.app.clip_loaded(save_index, Ok(waveform));
        }
        _ => panic!("the clip must be loaded"),
    }
    session
}

#[test]
fn a_preview_pauses_capture_and_restores_it() {
    let mut session = reviewing();
    match session.press(KeyCode::Char('p')) {
        Request::StartPreview { file, start, end, sample_rate, was_paused } => {
            assert_eq!(file.name, "intro.mp3");
            assert_eq!((start, end, sample_rate, was_paused), (0, 48_000, 48_000, false));
            session.app.preview_started(was_paused, Ok(()));
        }
        _ => panic!("a preview must start"),
    }
    assert!(session.app.preview && session.app.paused);
    assert!(matches!(session.app.state, CaptureState::Previewing));
    session.app.poll_preview(Ok(true));
    assert!(session.app.preview);
    session.app.poll_preview(Ok(false));
    assert!(!session.app.preview && !session.app.paused);
    assert!(matches!(session.app.state, CaptureState::Recording));
}

#[test]
fn a_stopped_preview_leads_back_to_the_pause_state() {
    for was_paused in [false, true] {
        let mut session = reviewing();
        session.app.paused = was_paused;
        assert!(matches!(
            session.press(KeyCode::Char('p')),
            Request::StartPreview { was_paused: reported, .. } if reported == was_paused
        ));
        session.app.preview_started(was_paused, Ok(()));
        assert!(session.app.preview && session.app.paused);
        session.app.stop_preview();
        assert!(!session.app.preview);
        assert_eq!(session.app.paused, was_paused);
        assert_eq!(matches!(session.app.state, CaptureState::Paused), was_paused);
    }
}

#[test]
fn a_trim_replaces_the_selected_range() {
    let mut session = reviewing();
    session.press(KeyCode::Right);
    let job = match session.press(KeyCode::Enter) {
        Request::StartTrim { job } => job,
        _ => panic!("a trim must start"),
    };
    assert_eq!(job, TrimJob { save_index: 0, start_frame: 4_800, end_frame: 48_000 });
    session.app.trim_started(job, Ok(()));
    assert_eq!(session.app.trim_job, Some(job));
    session.app.poll_trim_job(Ok(43_200));
    assert!(session.app.trim_job.is_none() && session.app.clip_review.is_none());
    assert_eq!(session.app.saved[0].frames, 43_200);
    let source = session.app.saved[0].edit_source.as_ref().unwrap();
    assert_eq!((source.start_frame, source.end_frame), (4_800, 48_000));
}

#[test]
fn failed_work_is_shown_in_the_editor() {
    let mut session = reviewing();
    session.press(KeyCode::Right);
    let job = match session.press(KeyCode::Enter) {
        Request::StartTrim { job } => job,
        _ => panic!("a trim must start"),
    };
    session.app.trim_started(job, Ok(()));
    session.app.poll_trim_job(Err("disk full".to_owned()));
    let review = session.app.clip_review.as_ref().unwrap();
    assert!(review.error.as_ref().unwrap().contains("disk full"));
    assert_eq!(review_message_piece(review).tone, Tone::Red);
}

#[test]
fn a_full_selection_keeps_the_original_clip() {
    let mut session = reviewing();
    assert!(matches!(session.press(KeyCode::Enter), Request::Nothing));
    assert!(session.app.clip_review.is_none());
    assert_eq!(session.app.notice.as_deref(), Some("Kept intro.mp3 without trimming"));
}

#[test]
fn stopping_ends_the_program_when_the_worker_does() {
    let mut session = Session::new();
    assert!(!session.app.is_done(false));
    session.app.note_stop(true);
    assert!(matches!(session.app.state, CaptureState::Finalizing));
    assert!(session.app.is_done(true));
}

#[test]
fn session_view_renders_in_a_standard_terminal() {
    let session = Session::new();
    let app = &session.app;
    let content = words(&title_line(false))
        + &words(&header_line(app))
        + &saves_title_text(app)
        + &page(&saves_lines(app, 3))
        + &page(&footer_lines(app, 80));
    assert!(content.contains("SPLIT"));
    assert!(content.contains("SAVES"));
    assert!(content.contains("Ctrl+C"));
    assert!(content.contains("SYSTEM AUDIO"));
    assert!(content.contains("STARTING"));
    assert!(content.contains(" SESSION  recording-session"));
    assert!(content.contains("No files are finalized yet"));
}

#[test]
fn wide_footers_have_long_labels() {
    let session = Session::new();
    assert!(page(&footer_lines(&session.app, 96)).contains("save & stop"));
    assert!(!page(&footer_lines(&session.app, 95)).contains("save & stop"));
    assert!(page(&footer_lines(&session.app, 96)).contains(" C clip"));
    let single =
        App::new(&OutputTarget::SingleFile { path: path("take.mp3"), replace: false });
    let footer = page(&footer_lines(&single, 96));
    assert!(!footer.contains("clip") && footer.contains(" OUTPUT   take.mp3"));
    assert_eq!(words(&footer_lines(&single, 3)[1]), " OUTPUT   ");
}

#[test]
fn the_save_list_follows_the_selection() {
    assert_eq!(saves_window_start(Some(0), 10, 3), 0);
    assert_eq!(saves_window_start(Some(5), 10, 3), 3);
    assert_eq!(saves_window_start(Some(9), 10, 3), 7);
    assert_eq!(saves_window_start(None, 2, 3), 0);
    let mut session = Session::new();
    session.app.apply_events(vec![
        AudioEvent::Saved(saved_file("part-001.mp3", SavedFileKind::Part)),
        AudioEvent::Saved(clip_file("intro.mp3")),
    ]);
    let lines = page(&saves_lines(&session.app, 1));
    assert!(lines.contains("intro.mp3") && !lines.contains("part-001.mp3"));
}

#[test]
fn prompts_and_help_have_their_lines() {
    let mut session = Session::new();
    assert!(prompt_lines(&session.app).is_empty());
    session.app.clip_prompt = Some(ClipPrompt { input: String::new(), error: None });
    let empty = page(&prompt_lines(&session.app));
    assert!(empty.contains("clip-name") && empty.contains("Enter save   Esc cancel"));
    session.app.clip_prompt =
        Some(ClipPrompt { input: "intro".to_owned(), error: Some("taken".to_owned()) });
    let lines = prompt_lines(&session.app);
    assert!(words(&lines[0]).ends_with("intro"));
    assert_eq!(lines[2][0].tone, Tone::Red);
    assert!(page(&help_lines()).contains("W                       cycle waveform"));
    assert!(page(&video_help_lines()).contains("finalize the MP4"));
}

#[test]
fn the_editor_shows_times_and_status() {
    let mut session = reviewing();
    session.press(KeyCode::Right);
    let review = session.app.clip_review.as_ref().unwrap();
    let head = page(&review_head_lines(review, false, false));
    assert!(head.contains(" START 00:00.100   END 00:01.000   LENGTH 0.90s"));
    assert!(head.contains("ACTIVE HANDLE  START"));
    assert!(page(&review_head_lines(review, true, true)).contains("WRITING TRIMMED MP3"));
    assert!(page(&review_head_lines(review, false, true)).contains("PLAYING SELECTION"));
    assert!(review_message_piece(review).text.contains("Ctrl+←/→ 0.01s"));
    assert!(words(&review_controls_line()).contains("save trim"));
    assert_eq!(review_title(&session.app.saved[0]), " CLIP REVIEW · intro.mp3 ");
}

#[test]
fn compacts_from_the_front_to_keep_the_filename() {
    let place = FilePath::new("C:/very/long/path/", "recording.mp3", '/');
    let result = compact_path(&place, 18);
    assert!(result.starts_with("..."));
    assert!(result.ends_with("recording.mp3"));
    assert_eq!(result.len(), 18);
}

#[test]
fn compact_path_never_exceeds_tiny_limits() {
    for maximum in 0..=3 {
        assert!(compact_path(&path("recording.mp3"), maximum).len() <= maximum);
    }
}

#[test]
fn clip_time_formats_minutes_hours_and_zero_rate() {
    assert_eq!(format_clip_time(0, 0), "00:00.000");
    assert_eq!(format_clip_time(90_061, 1_000), "01:30.061");
    assert_eq!(format_clip_time(3_661_001, 1_000), "01:01:01.001");
}

#[test]
fn clock_formats_hours_minutes_and_seconds() {
    assert_eq!(format_clock(Duration::zero()), "00:00:00");
    assert_eq!(format_clock(Duration::from_secs(61)), "00:01:01");
    assert_eq!(format_clock(Duration::from_secs(3_661)), "01:01:01");
    assert_eq!(align_left("ab", 4), "ab  ");
}

fn video_app() -> VideoApp {
    VideoApp::new(path("recording-20260821-005218.mp4"), Duration::zero())
}

fn press_video(app: &mut VideoApp, code: KeyCode) {
    app.handle_event(key(code, false, false));
}

fn start_recording(app: &mut VideoApp) {
    let (sender, receiver) = bounded(8);
    sender
        .send(VideoEvent::Started {
            width: 2560,
            height: 1440,
            fps: 60,
            sample_rate: 48_000,
            capture_ready_ms: Binary64::from_bits(148.0_f64.to_bits()).unwrap(),
        })
        .unwrap();
    app.drain_video_events(&mut Inbox::new(receiver));
}

#[test]
fn video_started_event_activates_recording_state() {
    let mut app = video_app();
    assert_eq!(app.width, 0);
    start_recording(&mut app);
    assert!(matches!(app.state, CaptureState::Recording));
    assert_eq!(app.width, 2560);
    assert_eq!(app.height, 1440);
    assert_eq!(app.fps, 60);
    assert_eq!(app.sample_rate, 48_000);
    assert_eq!(app.capture_ready_ms, Binary64::from_bits(148.0_f64.to_bits()));
}

#[test]
fn video_notice_and_finalizing_events_update_state() {
    let mut app = video_app();
    let (sender, receiver) = bounded(8);
    sender.send(VideoEvent::Notice("duplication reset".to_owned())).unwrap();
    sender.send(VideoEvent::Finalizing).unwrap();
    app.drain_video_events(&mut Inbox::new(receiver));
    assert_eq!(app.notice.as_deref(), Some("duplication reset"));
    assert!(matches!(app.state, CaptureState::Finalizing));
}

#[test]
fn video_space_toggles_pause() {
    let mut app = video_app();
    start_recording(&mut app);
    press_video(&mut app, KeyCode::Char(' '));
    assert!(app.paused);
    assert!(matches!(app.state, CaptureState::Paused));
    press_video(&mut app, KeyCode::Char(' '));
    assert!(!app.paused);
    assert!(matches!(app.state, CaptureState::Recording));
}

#[test]
fn video_clock_freezes_while_paused() {
    let mut app = video_app();
    start_recording(&mut app);
    app.advance_recorded_time(Duration::from_secs(5));
    assert!(app.recorded.as_nanos() >= Duration::from_secs(4).as_nanos());
    let frozen = app.recorded;
    press_video(&mut app, KeyCode::Char(' '));
    app.advance_recorded_time(Duration::from_secs(15));
    assert_eq!(app.recorded, frozen);
}

#[test]
fn video_stop_keys_finalize_capture() {
    let mut app = video_app();
    start_recording(&mut app);
    press_video(&mut app, KeyCode::Char('s'));
    assert!(app.stop);
    assert!(matches!(app.state, CaptureState::Finalizing));

    let mut app = video_app();
    app.handle_event(key(KeyCode::Char('C'), true, true));
    assert!(app.stop);

    let mut app = video_app();
    press_video(&mut app, KeyCode::Esc);
    assert!(app.stop);
}

#[test]
fn video_help_overlay_opens_and_closes() {
    let mut app = video_app();
    press_video(&mut app, KeyCode::Char('?'));
    assert!(app.show_help);
    press_video(&mut app, KeyCode::Esc);
    assert!(!app.show_help);
}

fn video_view(app: &VideoApp) -> String {
    words(&title_line(true))
        + &words(&video_header_line(app))
        + &page(&video_status_lines(app, 78))
        + &words(&video_footer_line(80))
}

#[test]
fn video_view_renders_the_screen_capture_ui() {
    let mut app = video_app();
    start_recording(&mut app);
    let content = video_view(&app);
    assert!(content.contains("SCREEN CAPTURE"));
    assert!(content.contains("RECORDING"));
    assert!(content.contains("2560x1440 @ 60 fps"));
    assert!(content.contains("Space"));
    assert!(content.contains(".mp4"));
    assert!(content.contains("READY IN 148 ms"));
    assert!(content.contains("48 kHz stereo AAC"));
}

#[test]
fn video_view_before_start_shows_the_preparing_state() {
    let content = video_view(&video_app());
    assert!(content.contains("STARTING"));
    assert!(content.contains("preparing encoder"));
}
