//! Clip selection, waveforms, previews, and trimming.
use std::cell::RefCell;
use std::collections::VecDeque;

use record_tui::binary64::Binary64;
use record_tui::clip::peaks::{
    load_pcm_waveform, WaveformBin, WaveformBuilder, WaveformError, FULL_HEIGHT,
};
use record_tui::clip::preview::{PreviewError, PreviewPlayer};
use record_tui::clip::trim::{
    check_trim_range, create_clip_cache, next_trim_block, trim_clip, trim_temporary_path, TrimError,
};
use record_tui::clip::{add_signed, ClipSelection, SelectionHandle};
use record_tui::disk::{CreateError, CreateOutcome, Disk};
use record_tui::path::FilePath;
use record_tui::sample::Sample;
use record_tui::spectrum::{transform_size_is_valid, window_source};
use record_tui::time::Duration;
use record_tui::tui::scope::scope_plan;
use record_tui::waveform::{waveform_points, Waveform};

fn number(value: Binary64) -> f64 {
    value.significand as f64 * 2.0_f64.powi(value.exponent)
}

fn height(value: i16) -> f32 {
    f32::from(value) / f32::from(FULL_HEIGHT)
}

fn samples(values: &[f32]) -> Vec<Sample> {
    values.iter().map(|value| Sample { bits: value.to_bits() }).collect()
}

fn values(samples: &VecDeque<Sample>) -> Vec<f32> {
    samples.iter().map(|sample| f32::from_bits(sample.bits)).collect()
}

fn peaks(waveform: &Waveform) -> (f32, f32) {
    let (left, right) = waveform.peaks();
    (f32::from_bits(left.bits), f32::from_bits(right.bits))
}

#[test]
fn selection_never_crosses_its_minimum_length() {
    let mut selection = ClipSelection::new(0, 48_000, 48_000).unwrap();
    selection.nudge(i64::MAX);
    assert_eq!(selection.start_frame(), 45_600);
    selection.toggle_handle();
    selection.nudge(i64::MIN);
    assert_eq!(selection.end_frame(), 48_000);
}

#[test]
fn selection_respects_nonzero_source_offsets() {
    let mut selection = ClipSelection::new(10_000, 20_000, 1_000).unwrap();
    selection.nudge(-50_000);
    assert_eq!(selection.start_frame(), 10_000);
    selection.toggle_handle();
    selection.nudge(50_000);
    assert_eq!(selection.end_frame(), 20_000);
}

#[test]
fn toggle_and_reset_restore_the_full_range() {
    let mut selection = ClipSelection::new(0, 10_000, 1_000).unwrap();
    selection.nudge(2_000);
    selection.toggle_handle();
    selection.nudge(-2_000);
    selection.reset();
    assert_eq!(selection.start_frame(), 0);
    assert_eq!(selection.end_frame(), 10_000);
    assert_eq!(selection.active_handle(), SelectionHandle::Start);
}

#[test]
fn selection_reports_normalized_bounds() {
    let mut selection = ClipSelection::new(1_000, 2_000, 1_000).unwrap();
    selection.nudge(250);
    selection.toggle_handle();
    selection.nudge(-250);
    assert!((number(selection.normalized_start()) - 0.25).abs() < f64::EPSILON);
    assert!((number(selection.normalized_end()) - 0.75).abs() < f64::EPSILON);
    assert_eq!(selection.duration(), Duration::from_millis(500));
}

#[test]
fn rejects_empty_selections_and_zero_rates() {
    assert!(ClipSelection::new(1, 1, 48_000).is_err());
    let error = ClipSelection::new(0, 1, 0).unwrap_err();
    assert_eq!(error.message(), "the clip selection must contain audio");
}

#[test]
fn signed_distances_saturate() {
    assert_eq!(add_signed(5, -6), 0);
    assert_eq!(add_signed(u64::MAX, 1), u64::MAX);
    assert_eq!(add_signed(5, i64::MIN), 0);
    assert_eq!(add_signed(5, 6), 11);
}

#[test]
fn minimum_selection_length_is_fifty_milliseconds() {
    let mut selection = ClipSelection::new(0, 48_000, 48_000).unwrap();
    selection.nudge(i64::MAX);
    assert_eq!(selection.frames(), 2_400);
    assert_eq!(selection.duration(), Duration::from_millis(50));
}

#[test]
fn waveform_keeps_channel_extremes() {
    let mut source = Vec::new();
    for (left, right) in
        [(i16::MIN, i16::MAX), (0, 0), (i16::MAX, i16::MIN), (1_000, -2_000)]
    {
        source.extend_from_slice(&left.to_le_bytes());
        source.extend_from_slice(&right.to_le_bytes());
    }
    let waveform = load_pcm_waveform(&source, 0, 4, 2).unwrap();
    assert_eq!(waveform.left.len(), 2);
    assert!(height(waveform.left[0].minimum) <= -1.0);
    assert!(height(waveform.left[1].maximum) >= 0.99);
    assert!(height(waveform.right[0].maximum) >= 0.99);
    assert!(height(waveform.right[1].minimum) <= -1.0);
}

#[test]
fn a_single_lowest_sample_is_both_extremes() {
    let waveform = load_pcm_waveform(&[0x00, 0x80, 0xFF, 0x7F], 0, 1, 1).unwrap();
    assert_eq!((waveform.left[0].minimum, waveform.left[0].maximum), (i16::MIN, i16::MIN));
    assert_eq!((waveform.right[0].minimum, waveform.right[0].maximum), (i16::MAX, i16::MAX));
}

#[test]
fn waveform_rejects_an_out_of_range_request() {
    let source: Vec<u8> = Vec::new();
    assert!(load_pcm_waveform(&source, 0, 1, 10).is_err());
    assert!(load_pcm_waveform(&source, 0, 1, 0).is_err());
}

#[test]
fn waveform_problems_have_their_own_errors() {
    let refused = |start, end, bins| match WaveformBuilder::new(start, end, bins, 40) {
        Ok(_) => panic!("the request must be refused"),
        Err(error) => error,
    };
    assert_eq!(refused(3, 3, 10), WaveformError::EmptyRange);
    assert_eq!(refused(0, 3, 0), WaveformError::NoBins);
    let past = refused(0, 11, 10);
    assert_eq!(past, WaveformError::PastEnd { available: 10, end: 11 });
    assert!(past.message().contains("10"));
}

#[test]
fn one_waveform_bin_keeps_extremes_from_the_whole_range() {
    let mut source = Vec::new();
    for sample in [-10_000_i16, 20_000, -30_000, 5_000] {
        source.extend_from_slice(&sample.to_le_bytes());
        source.extend_from_slice(&(-sample).to_le_bytes());
    }
    let waveform = load_pcm_waveform(&source, 0, 4, 1).unwrap();
    assert_eq!(waveform.left.len(), 1);
    assert!(height(waveform.left[0].minimum) < -0.9);
    assert!(height(waveform.left[0].maximum) > 0.6);
    assert!(height(waveform.right[0].minimum) < -0.6);
    assert!(height(waveform.right[0].maximum) > 0.9);
}

#[test]
fn waveform_reads_only_the_requested_frame_range() {
    let mut source = Vec::new();
    for sample in [1_000_i16, 2_000, 3_000] {
        source.extend_from_slice(&sample.to_le_bytes());
        source.extend_from_slice(&sample.to_le_bytes());
    }
    let waveform = load_pcm_waveform(&source, 1, 2, 10).unwrap();
    let expected = 2_000.0 / f32::from(i16::MAX);
    assert_eq!(waveform.left, vec![WaveformBin { minimum: 2_000, maximum: 2_000 }]);
    assert_eq!(height(waveform.left[0].minimum), expected);
    assert_eq!(waveform.right, waveform.left);
}

#[test]
fn a_waveform_can_be_built_from_blocks() {
    let source: Vec<u8> = (0..40_000_u32).flat_map(|frame| (frame as i16).to_le_bytes()).collect();
    let whole = load_pcm_waveform(&source, 100, 19_000, 64).unwrap();
    let mut builder = match WaveformBuilder::new(100, 19_000, 64, source.len() as u64) {
        Ok(builder) => builder,
        Err(error) => panic!("{}", error.message()),
    };
    let mut position = builder.first_byte() as usize;
    assert_eq!(position, 400);
    loop {
        let bytes = builder.next_frames() * 4;
        if bytes == 0 {
            break;
        }
        builder.push_block(&source[position..position + bytes]);
        position += bytes;
    }
    let blocks = builder.finish();
    assert_eq!(blocks.left, whole.left);
    assert_eq!(blocks.right, whole.right);
    assert_eq!(blocks.left.len(), 64);
}

#[test]
fn the_editor_marks_the_selected_lines() {
    let bins: Vec<WaveformBin> =
        (0..5).map(|index| WaveformBin { minimum: -index, maximum: index }).collect();
    let mut selection = ClipSelection::new(0, 4_000, 1_000).unwrap();
    selection.nudge(1_000);
    let plan = scope_plan(&bins, &selection).unwrap();
    assert_eq!(number(plan.width), 4.0);
    assert_eq!(number(plan.start), 1.0);
    assert_eq!(number(plan.end), 4.0);
    assert_eq!(plan.active, SelectionHandle::Start);
    let selected: Vec<bool> = plan.lines.iter().map(|line| line.selected).collect();
    assert_eq!(selected, vec![false, true, true, true, true]);
    let places: Vec<f64> = plan.lines.iter().map(|line| number(line.x)).collect();
    assert_eq!(places, vec![0.0, 1.0, 2.0, 3.0, 4.0]);
    assert_eq!(plan.lines[3].bin, bins[3]);
    assert!(scope_plan(&Vec::new(), &selection).is_none());
    let single = scope_plan(&vec![bins[0]], &selection).unwrap();
    assert_eq!(number(single.width), 1.0);
    assert_eq!(number(single.lines[0].x), 0.0);
}

#[test]
fn ring_keeps_the_newest_samples() {
    let mut waveform = Waveform::new(3);
    waveform.push(&samples(&[0.1, 0.2]), &samples(&[-0.1, -0.2]));
    waveform.push(&samples(&[0.3, 0.4]), &samples(&[-0.3, -0.4]));
    let (left, right) = waveform.channels();
    assert_eq!(values(left), vec![0.2, 0.3, 0.4]);
    assert_eq!(values(right), vec![-0.2, -0.3, -0.4]);
}

#[test]
fn clamps_samples() {
    let mut waveform = Waveform::new(2);
    waveform.push(&samples(&[2.0]), &samples(&[-2.0]));
    assert_eq!(peaks(&waveform), (1.0, 1.0));
}

#[test]
fn meters_follow_the_latest_block() {
    let mut waveform = Waveform::new(4);
    waveform.push(&samples(&[1.0]), &samples(&[-0.8]));
    waveform.push(&samples(&[0.2, -0.3]), &samples(&[0.1, -0.4]));
    assert_eq!(peaks(&waveform), (0.3, 0.4));
}

#[test]
fn nonfinite_samples_become_silence() {
    let mut waveform = Waveform::new(2);
    waveform.push(&samples(&[f32::NAN]), &samples(&[f32::INFINITY]));
    assert_eq!(peaks(&waveform), (0.0, 0.0));
    let (left, right) = waveform.channels();
    assert_eq!(values(left)[0], 0.0);
    assert_eq!(values(right)[0], 0.0);
}

#[test]
fn an_empty_block_clears_the_current_meter_peaks() {
    let mut waveform = Waveform::new(2);
    waveform.push(&samples(&[0.8]), &samples(&[0.6]));
    waveform.push(&samples(&[]), &samples(&[]));
    assert_eq!(peaks(&waveform), (0.0, 0.0));
    assert_eq!(waveform.channels().0.len(), 1);
}

#[test]
fn waveform_downsamples_to_a_bounded_size() {
    let history: VecDeque<Sample> =
        (0..10_000_u16).map(|index| Sample { bits: f32::from(index).to_bits() }).collect();
    let points = waveform_points(&history, 100);
    assert!(points.len() <= 100);
    assert_eq!(points[1], (1, history[100]));
}

#[test]
fn empty_waveform_has_a_visible_zero_line() {
    assert_eq!(
        waveform_points(&VecDeque::new(), 0),
        vec![(0, Sample { bits: 0 }), (1, Sample { bits: 0 })]
    );
}

#[test]
fn transforms_need_a_power_of_two() {
    assert!(transform_size_is_valid(2));
    assert!(transform_size_is_valid(4_096));
    assert!(!transform_size_is_valid(100));
    assert!(!transform_size_is_valid(1));
    assert!(!transform_size_is_valid(0));
}

#[test]
fn the_transform_window_ends_with_the_newest_sample() {
    assert_eq!(window_source(10, 8, 7), Some(9));
    assert_eq!(window_source(10, 8, 0), Some(2));
    assert_eq!(window_source(3, 8, 4), None);
    assert_eq!(window_source(3, 8, 5), Some(0));
    assert_eq!(window_source(0, 8, 7), None);
}

#[test]
fn trims_are_planned_inside_the_source() {
    let plan = trim_clip(48_000, 100, 300, Some(4_000)).unwrap();
    assert_eq!((plan.first_byte, plan.frames), (400, 200));
    assert_eq!(trim_clip(48_000, 300, 300, Some(4_000)).unwrap_err(), TrimError::EmptyRange);
    assert_eq!(
        trim_clip(48_000, 0, 1_001, Some(4_000)).unwrap_err(),
        TrimError::PastEnd { available: 1_000, end: 1_001 }
    );
    assert_eq!(trim_clip(48_000, 0, 10, None).unwrap_err(), TrimError::Unsupported);
    assert_eq!(next_trim_block(10_000), 8_192);
    assert_eq!(next_trim_block(10), 10);
}

#[test]
fn trim_temporary_names_do_not_replace_an_existing_candidate() {
    let clip = FilePath::new("/tmp/", "clip.mp3", '/');
    let first = trim_temporary_path(&clip, 42, |_: &FilePath| false).unwrap();
    let taken = first.clone();
    let second =
        trim_temporary_path(&clip, 42, |place: &FilePath| place.same(&taken)).unwrap();
    assert!(!first.same(&second));
    assert_eq!(second.folder, "/tmp/");
    assert!(first.name.contains("42"));
    assert_eq!(
        trim_temporary_path(&clip, 42, |_: &FilePath| true).unwrap_err(),
        TrimError::NoFreeName
    );
}

#[test]
fn ranges_are_checked_before_a_file_is_opened() {
    assert!(check_trim_range(48_000, 1, 2).is_ok());
    assert_eq!(check_trim_range(48_000, 2, 2).unwrap_err(), TrimError::EmptyRange);
    assert_eq!(check_trim_range(0, 1, 2).unwrap_err(), TrimError::EmptyRange);
    let second = Duration::from_secs(1);
    assert!(PreviewPlayer::check_range(Duration::from_secs(0), second).is_ok());
    assert_eq!(PreviewPlayer::check_range(second, second).unwrap_err(), PreviewError::EmptyRange);
    assert!(WaveformBuilder::check_request(1, 2, 1).is_ok());
    assert_eq!(WaveformBuilder::check_request(2, 2, 0).unwrap_err(), WaveformError::EmptyRange);
    assert_eq!(WaveformBuilder::check_request(1, 2, 0).unwrap_err(), WaveformError::NoBins);
}

#[test]
fn clip_caches_are_created_once() {
    let parent = FilePath::new("/", "tmp", '/');
    let tried: RefCell<Vec<String>> = RefCell::new(Vec::new());
    let mut disk = Disk::new(
        |_: &FilePath| false,
        |place: &FilePath| place.folder == "/tmp/",
        |place: &FilePath| {
            tried.borrow_mut().push(place.text());
            if tried.borrow().len() < 3 {
                CreateOutcome::AlreadyExists
            } else {
                CreateOutcome::Created
            }
        },
    );
    let cache = create_clip_cache(&parent, 7, 99, &mut disk).unwrap();
    assert_eq!(tried.borrow().len(), 3);
    assert_eq!(cache.text(), tried.borrow()[2]);
    assert!(cache.name.contains("7") && cache.name.contains("99"));
    let refused = |folder: bool, outcome: CreateOutcome| {
        let mut disk = Disk::new(|_: &FilePath| false, |_: &FilePath| folder, |_: &FilePath| outcome);
        create_clip_cache(&parent, 7, 99, &mut disk).unwrap_err()
    };
    assert_eq!(refused(true, CreateOutcome::Failed), CreateError::Failed);
    assert_eq!(refused(true, CreateOutcome::AlreadyExists), CreateError::NoFreeName);
    assert_eq!(refused(false, CreateOutcome::Created), CreateError::NoFolder);
}

#[test]
fn previews_are_scripted_for_the_system_player() {
    let (mut player, script) = PreviewPlayer::start(
        Some(r"C:\takes\intro.mp3"),
        Duration::from_millis(500),
        Duration::from_millis(1_250),
        11,
    )
    .unwrap();
    assert!(script.open.contains(r"C:\takes\intro.mp3"));
    assert_eq!(script.length, "status record_preview_11 length");
    assert_eq!(player.play_command("?"), "play record_preview_11 from 500 to 1250");
    assert_eq!(player.play_command(" 90000 "), "play record_preview_11 from 500 to 1250");
    assert_eq!(player.play_command("1000"), "play record_preview_11 from 500 to 1000");
    assert_eq!(player.play_command("300"), "play record_preview_11 from 299 to 300");
    assert_eq!(player.play_command("0"), "play record_preview_11 from 500 to 1250");
    assert!(player.status_command().is_none());
    player.opened();
    assert!(player.status_command().is_some());
    assert!(player.is_playing("playing"));
    assert!(!player.is_playing("stopped"));
    assert_eq!(player.stop().len(), 2);
    assert!(player.stop().is_empty());
}

#[test]
fn preview_problems_have_their_own_errors() {
    let start = |file, from: u64, to: u64| {
        PreviewPlayer::start(file, Duration::from_millis(from), Duration::from_millis(to), 1)
    };
    assert_eq!(start(None, 0, 1).unwrap_err(), PreviewError::Unsupported);
    assert_eq!(start(Some("a"), 5, 5).unwrap_err(), PreviewError::EmptyRange);
    assert_eq!(start(Some("a\"b"), 0, 5).unwrap_err(), PreviewError::QuoteInPath);
}
