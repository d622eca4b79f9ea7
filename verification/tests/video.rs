//! Screen recording geometry, frames, and media time.
use record_tui::binary64::Binary64;
use record_tui::path::FilePath;
use record_tui::time::Duration;
use record_tui::video::frame::{convert_to_nv12, Nv12Frame, PixelArea};
use record_tui::video::timeline::{
    frame_duration_100ns, frame_interval, time_before_frame, AudioPacket, FrameWork, RecordedTime,
    ScreenUpdate, VideoTimeline,
};
use record_tui::video::{
    canvas_presets, effective_crop, monitor_at, nearest_aac_rate, packed_size, transform_geometry,
    CropRect, FitMode, MonitorInfo, VideoSummary,
};

fn path(name: &str) -> FilePath {
    FilePath::new("", name, '/')
}

fn exact(value: f64) -> Binary64 {
    Binary64::from_bits(value.to_bits()).unwrap()
}

fn number(value: Binary64) -> f64 {
    value.significand as f64 * 2.0_f64.powi(value.exponent)
}

fn geometry(
    source_width: u32,
    source_height: u32,
    crop: &CropRect,
    fit: FitMode,
    canvas_width: u32,
    canvas_height: u32,
) -> (u32, u32, f64, f64) {
    let (width, height, x, y) =
        transform_geometry(source_width, source_height, crop, fit, canvas_width, canvas_height);
    (width, height, number(x), number(y))
}

#[test]
fn fit_mode_cycles_through_all_modes() {
    assert_eq!(FitMode::Contain.next(), FitMode::Cover);
    assert_eq!(FitMode::Cover.next(), FitMode::Stretch);
    assert_eq!(FitMode::Stretch.next(), FitMode::Native);
    assert_eq!(FitMode::Native.next(), FitMode::Contain);
}

#[test]
fn fit_mode_labels_match_cli_names() {
    assert_eq!(FitMode::Contain.label(), "contain");
    assert_eq!(FitMode::Cover.label(), "cover");
    assert_eq!(FitMode::Stretch.label(), "stretch");
    assert_eq!(FitMode::Native.label(), "native");
}

#[test]
fn crop_clamps_to_source_bounds_with_even_size() {
    let crop = CropRect {
        left: 100,
        top: 50,
        width: 5000,
        height: 3000,
    };
    let clamped = crop.clamp_to(1920, 1080);
    assert_eq!(clamped.left, 100);
    assert_eq!(clamped.top, 50);
    assert_eq!(clamped.width, 1820);
    assert_eq!(clamped.height, 1030);
}

#[test]
fn crop_clamps_oversized_offsets() {
    let crop = CropRect {
        left: 2000,
        top: 2000,
        width: 100,
        height: 100,
    };
    let clamped = crop.clamp_to(1920, 1080);
    assert_eq!(clamped.left, 1918);
    assert_eq!(clamped.top, 1078);
    assert_eq!(clamped.width, 2);
    assert_eq!(clamped.height, 2);
}

#[test]
fn full_crop_reports_full() {
    let crop = CropRect {
        left: 0,
        top: 0,
        width: 1920,
        height: 1080,
    };
    assert!(crop.is_full(1920, 1080));
    assert!(!crop.is_full(1921, 1080));
}

#[test]
fn contain_preserves_aspect_ratio_within_canvas() {
    // 1920x1080 source into 1920x1080 canvas: scale 1.0
    let (w, h, sx, sy) = geometry(
        1920,
        1080,
        &CropRect {
            left: 0,
            top: 0,
            width: 1920,
            height: 1080,
        },
        FitMode::Contain,
        1920,
        1080,
    );
    assert_eq!((w, h), (1920, 1080));
    assert!((sx - 1.0).abs() < 0.001);
    assert!((sy - 1.0).abs() < 0.001);
}

#[test]
fn contain_letterboxes_wide_source_in_square_canvas() {
    // 1920x1080 source into 1080x1080 canvas: width-limited
    let (w, h, sx, sy) = geometry(
        1920,
        1080,
        &CropRect {
            left: 0,
            top: 0,
            width: 1920,
            height: 1080,
        },
        FitMode::Contain,
        1080,
        1080,
    );
    assert_eq!((w, h), (1080, 1080));
    // Scale is limited by width
    let expected = 1080.0 / 1920.0;
    assert!((sx - expected).abs() < 0.001);
    assert!((sy - expected).abs() < 0.001);
}

#[test]
fn cover_crops_wide_source_in_square_canvas() {
    let (_, _, sx, sy) = geometry(
        1920,
        1080,
        &CropRect {
            left: 0,
            top: 0,
            width: 1920,
            height: 1080,
        },
        FitMode::Cover,
        1080,
        1080,
    );
    // Scale is limited by height
    let expected = 1080.0 / 1080.0;
    assert!((sx - expected).abs() < 0.001);
    assert!((sy - expected).abs() < 0.001);
}

#[test]
fn stretch_fills_canvas_without_aspect_ratio() {
    let (_, _, sx, sy) = geometry(
        1920,
        1080,
        &CropRect {
            left: 0,
            top: 0,
            width: 1920,
            height: 1080,
        },
        FitMode::Stretch,
        1080,
        1080,
    );
    assert!((sx - 1080.0 / 1920.0).abs() < 0.001);
    assert!((sy - 1.0).abs() < 0.001);
}

#[test]
fn native_uses_one_to_one_scale() {
    let (_, _, sx, sy) = geometry(
        1920,
        1080,
        &CropRect {
            left: 0,
            top: 0,
            width: 1920,
            height: 1080,
        },
        FitMode::Native,
        1920,
        1080,
    );
    assert!((sx - 1.0).abs() < 0.001);
    assert!((sy - 1.0).abs() < 0.001);
}

#[test]
fn zero_canvas_uses_source_dimensions() {
    let (w, h, _, _) = geometry(
        1920,
        1080,
        &CropRect {
            left: 0,
            top: 0,
            width: 1920,
            height: 1080,
        },
        FitMode::Contain,
        0,
        0,
    );
    assert_eq!((w, h), (1920, 1080));
}

#[test]
fn canvas_dimensions_are_always_even() {
    let (w, h, _, _) = geometry(
        1921,
        1081,
        &CropRect {
            left: 0,
            top: 0,
            width: 1921,
            height: 1081,
        },
        FitMode::Contain,
        1921,
        1081,
    );
    assert_eq!(w % 2, 0);
    assert_eq!(h % 2, 0);
}

#[test]
fn canvas_presets_include_common_sizes() {
    let presets = canvas_presets();
    assert!(presets.iter().any(|(name, _)| *name == "1080p"));
    assert!(presets.iter().any(|(name, _)| *name == "4k"));
    assert!(presets.iter().any(|(name, _)| *name == "square"));
}
#[test]
fn contain_pillarboxes_tall_source_in_wide_canvas() {
    // 1080x1920 portrait source into 1920x1080 canvas: height-limited
    let (_, _, sx, sy) = geometry(
        1080,
        1920,
        &CropRect {
            left: 0,
            top: 0,
            width: 1080,
            height: 1920,
        },
        FitMode::Contain,
        1920,
        1080,
    );
    let expected = 1080.0 / 1920.0;
    assert!((sx - expected).abs() < 0.001);
    assert!((sy - expected).abs() < 0.001);
}

#[test]
fn cover_scales_beyond_canvas_on_the_limiting_axis() {
    // 1920x1080 source into 1080x1080 canvas with cover: width overflows
    let (_, _, sx, _) = geometry(
        1920,
        1080,
        &CropRect {
            left: 0,
            top: 0,
            width: 1920,
            height: 1080,
        },
        FitMode::Cover,
        1080,
        1080,
    );
    assert!((sx - 1.0).abs() < 0.001);
}

#[test]
fn crop_clamps_to_zero_offset_with_minimum_size() {
    let crop = CropRect {
        left: 0,
        top: 0,
        width: 1,
        height: 1,
    };
    let clamped = crop.clamp_to(1920, 1080);
    assert_eq!(clamped.width, 2);
    assert_eq!(clamped.height, 2);
}

#[test]
fn negative_crop_offset_clamps_to_zero() {
    let crop = CropRect {
        left: u32::MAX,
        top: u32::MAX,
        width: 100,
        height: 100,
    };
    let clamped = crop.clamp_to(1920, 1080);
    assert!(clamped.left < 1920);
    assert!(clamped.top < 1080);
    assert!(clamped.width >= 2);
    assert!(clamped.height >= 2);
}

#[test]
fn canvas_preset_native_uses_source_dimensions() {
    let (name, size) = canvas_presets()[0];
    assert_eq!(name, "native");
    assert_eq!((size.width, size.height), (0, 0));
}

#[test]
fn canvas_preset_1080p_has_correct_dimensions() {
    let presets = canvas_presets();
    let preset = presets.iter().find(|(name, _)| *name == "1080p");
    assert!(preset.is_some());
    let (_, size) = preset.unwrap();
    assert_eq!((size.width, size.height), (1920, 1080));
}

#[test]
fn canvas_preset_square_has_equal_dimensions() {
    let presets = canvas_presets();
    let preset = presets.iter().find(|(name, _)| *name == "square");
    assert!(preset.is_some());
    let (_, size) = preset.unwrap();
    assert_eq!(size.width, size.height);
}

#[test]
fn each_canvas_side_falls_back_on_its_own() {
    let full = CropRect { left: 0, top: 0, width: 1920, height: 1080 };
    let sides = |width: u32, height: u32| {
        let (w, h, _, _) = geometry(1920, 1080, &full, FitMode::Contain, width, height);
        (w, h)
    };
    assert_eq!(sides(1280, 0), (1280, 1080));
    assert_eq!(sides(0, 721), (1920, 720));
    assert_eq!(sides(0, 0), (1920, 1080));
}

#[test]
fn transform_geometry_with_oversized_crop_clamps_first() {
    // Crop larger than source: clamped crop determines the geometry
    let crop = CropRect {
        left: 0,
        top: 0,
        width: 5000,
        height: 5000,
    };
    let (w, h, _, _) = geometry(1920, 1080, &crop, FitMode::Contain, 0, 0);
    // Crop clamps to 1920x1080, so native canvas is 1920x1080
    assert_eq!((w, h), (1920, 1080));
}

#[test]
fn monitor_info_stores_negative_desktop_coordinates() {
    let info = MonitorInfo {
        index: 1,
        name: "\\\\.\\DISPLAY2".to_owned(),
        primary: false,
        width: 2560,
        height: 1440,
        left: -2560,
        top: 0,
    };
    assert_eq!(info.left, -2560);
    assert_eq!(info.top, 0);
    assert!(!info.primary);
}

#[test]
fn monitor_info_stores_rotation_and_mixed_dpi_positions() {
    // A portrait monitor to the left of the primary with negative coordinates
    let left_portrait = MonitorInfo {
        index: 0,
        name: "\\\\.\\DISPLAY1".to_owned(),
        primary: true,
        width: 1080,
        height: 1920,
        left: 0,
        top: 0,
    };
    let right_landscape = MonitorInfo {
        index: 1,
        name: "\\\\.\\DISPLAY2".to_owned(),
        primary: false,
        width: 3840,
        height: 2160,
        left: 1080,
        top: -240,
    };
    assert!(left_portrait.primary);
    assert!(!right_landscape.primary);
    // Virtual desktop spans from 0 to 1080+3840 horizontally
    assert!(right_landscape.left >= i32::try_from(left_portrait.width).unwrap_or(0));
}

#[test]
fn transform_geometry_handles_rotated_portrait_source() {
    // 1080x1920 portrait into 1920x1080 landscape with contain
    let (w, h, sx, sy) = geometry(
        1080,
        1920,
        &CropRect {
            left: 0,
            top: 0,
            width: 1080,
            height: 1920,
        },
        FitMode::Contain,
        1920,
        1080,
    );
    assert_eq!((w, h), (1920, 1080));
    let expected = 1080.0 / 1920.0;
    assert!((sx - expected).abs() < 0.001);
    assert!((sy - expected).abs() < 0.001);
}

#[test]
fn transform_geometry_mixed_dpi_crop_produces_even_output() {
    // A 150% DPI monitor at 2880x1620 cropped to a 1080p canvas
    let crop = CropRect {
        left: 0,
        top: 0,
        width: 2880,
        height: 1620,
    };
    let (w, h, _, _) = geometry(2880, 1620, &crop, FitMode::Contain, 1920, 1080);
    assert_eq!(w % 2, 0);
    assert_eq!(h % 2, 0);
    assert_eq!((w, h), (1920, 1080));
}

#[test]
fn video_summary_duration_uses_fps() {
    let summary = VideoSummary {
        output: path("test.mp4"),
        width: 1920,
        height: 1080,
        fps: 60,
        frames: 180,
        sample_rate: 48_000,
        video_bitrate: 20_000_000,
        audio_bitrate: 192_000,
        recording_ready_ms: Some(exact(150.0)),
        finalize_ms: exact(100.0),
    };
    assert_eq!(summary.duration(), Duration::from_secs(3));
}

#[test]
fn video_summary_zero_fps_has_zero_duration() {
    let summary = VideoSummary {
        output: path("test.mp4"),
        width: 1920,
        height: 1080,
        fps: 0,
        frames: 100,
        sample_rate: 48_000,
        video_bitrate: 20_000_000,
        audio_bitrate: 192_000,
        recording_ready_ms: None,
        finalize_ms: exact(0.0),
    };
    assert_eq!(summary.duration(), Duration::zero());
}

#[test]
fn video_summary_recording_ready_is_optional() {
    let mut summary = VideoSummary {
        output: path("test.mp4"),
        width: 1920,
        height: 1080,
        fps: 60,
        frames: 0,
        sample_rate: 48_000,
        video_bitrate: 20_000_000,
        audio_bitrate: 192_000,
        recording_ready_ms: None,
        finalize_ms: exact(0.0),
    };
    assert!(summary.recording_ready_ms.is_none());
    summary.recording_ready_ms = Some(exact(250.5));
    assert_eq!(summary.recording_ready_ms, Some(exact(250.5)));
}

#[test]
fn default_crop_covers_the_full_native_canvas() {
    // Regression: CropRect::default() has a zero size, which used to clamp
    // to a 2x2 canvas and fail encoder setup with MF_E_INVALIDMEDIATYPE.
    let crop = effective_crop(&CropRect::default(), 2560, 1440);
    assert_eq!((crop.left, crop.top), (0, 0));
    assert_eq!((crop.width, crop.height), (2560, 1440));
    let (width, height, _, _) = geometry(
        2560,
        1440,
        &crop,
        FitMode::Contain,
        0,
        0,
    );
    assert_eq!((width, height), (2560, 1440));
}

#[test]
fn effective_crop_treats_any_zero_dimension_as_full_frame() {
    let width_only = CropRect {
        left: 40,
        top: 30,
        width: 100,
        height: 0,
    };
    let crop = effective_crop(&width_only, 1920, 1080);
    assert_eq!((crop.left, crop.top), (0, 0));
    assert_eq!((crop.width, crop.height), (1920, 1080));
}

#[test]
fn effective_crop_keeps_and_clamps_explicit_rectangles() {
    let partial = CropRect {
        left: 100,
        top: 50,
        width: 200,
        height: 300,
    };
    assert_eq!(
        effective_crop(&partial, 1920, 1080),
        CropRect {
            left: 100,
            top: 50,
            width: 200,
            height: 300
        }
    );
    let oversized = CropRect {
        left: u32::MAX,
        top: u32::MAX,
        width: 5000,
        height: 5000,
    };
    let clamped = effective_crop(&oversized, 1920, 1080);
    assert!(clamped.width >= 2 && clamped.height >= 2);
    assert!(clamped.left < 1920 && clamped.top < 1080);
}

#[test]
fn transform_geometry_survives_a_degenerate_crop() {
    // Defensive: a zero-size crop must not divide the scale by zero.
    let degenerate = CropRect {
        left: 0,
        top: 0,
        width: 0,
        height: 0,
    };
    let (_, _, scale_x, scale_y) =
        geometry(1920, 1080, &degenerate, FitMode::Contain, 0, 0);
    assert!(scale_x.is_finite());
    assert!(scale_y.is_finite());
}

#[test]
fn frame_duration_matches_the_requested_fps() {
    assert_eq!(frame_duration_100ns(60), 166_666);
    assert_eq!(frame_duration_100ns(30), 333_333);
    assert_eq!(frame_duration_100ns(1), 10_000_000);
    assert_eq!(frame_duration_100ns(0), 10_000_000);
}

#[test]
fn recorded_time_advances_only_while_not_paused() {
    let interval = frame_interval(60);
    let mut clock = RecordedTime::new();
    for _ in 0..60 {
        clock.tick(interval, false);
    }
    assert_eq!(clock.value().as_secs(), 1);
    let frozen = clock.value();
    clock.tick(interval, true);
    clock.tick(interval, true);
    assert_eq!(clock.value(), frozen);
    clock.tick(interval, false);
    assert_eq!(
        clock.value().as_nanos() - frozen.as_nanos(),
        interval.as_nanos()
    );
    assert_eq!(RecordedTime::new().value(), Duration::zero());
}

#[test]
fn black_frame_matches_the_nv12_layout() {
    let frame = Nv12Frame::black(2560, 1440);
    let luma_size = 2560 * 1440;
    assert_eq!(frame.data.len(), luma_size + luma_size / 2);
    assert!(frame.data[..luma_size].iter().all(|byte| *byte == 0));
    assert!(frame.data[luma_size..].iter().all(|byte| *byte == 128));

    let small = Nv12Frame::black(2, 2);
    assert_eq!(small.data, vec![0, 0, 0, 0, 128, 128]);
}

#[test]
fn scales_are_exact_double_precision_quotients() {
    let crop = CropRect { left: 0, top: 0, width: 1366, height: 768 };
    let (_, _, x, y) = geometry(1366, 768, &crop, FitMode::Stretch, 1920, 1080);
    assert_eq!((x, y), (1920.0 / 1366.0, 1080.0 / 768.0));
    let (_, _, x, _) = geometry(1366, 768, &crop, FitMode::Contain, 1920, 1080);
    let fitting = (1080_u64 * 1366) as f64 / 768.0;
    assert_eq!(x, if fitting < 1920.0 { fitting / 1366.0 } else { 1920.0 / 1366.0 });
}

#[test]
fn the_frame_interval_matches_double_precision_seconds() {
    for fps in [1_u32, 24, 30, 60] {
        assert_eq!(
            frame_interval(fps).as_nanos(),
            std::time::Duration::from_secs_f64(1.0 / f64::from(fps)).as_nanos()
        );
    }
}

#[test]
fn pixels_become_nv12_planes() {
    // Two rows of two pixels in blue, green, red, alpha order.
    let pixels = [1, 2, 3, 255, 5, 6, 7, 255, 9, 10, 11, 255, 13, 14, 15, 255];
    let area = PixelArea { stride: 8, left: 0, top: 0, width: 2, height: 2 };
    let frame = convert_to_nv12(
        &pixels,
        &area,
        |_blue: u8, _green: u8, red: u8| red,
        |blue: u8, _green: u8, red: u8| (blue, red),
    );
    assert_eq!(frame.data[..4], [3, 7, 11, 15]);
    assert_eq!(frame.data.len(), 6);
}

#[test]
fn monitors_need_an_area() {
    let monitor = monitor_at(1, "side".to_owned(), -1920, 0, 0, 1080).unwrap();
    assert_eq!((monitor.width, monitor.height, monitor.primary), (1920, 1080, false));
    assert!(monitor_at(0, "main".to_owned(), 0, 0, 1, 1).unwrap().primary);
    assert!(monitor_at(0, "none".to_owned(), 0, 0, 0, 1080).is_none());
}

#[test]
fn encoder_values_are_packed_and_chosen() {
    assert_eq!(packed_size(1920, 1080), 1920 * 4_294_967_296 + 1080);
    assert_eq!(nearest_aac_rate(48_000), 48_000);
    assert_eq!(nearest_aac_rate(44_100), 44_100);
}

#[test]
fn pauses_stay_out_of_both_streams() {
    let mut timeline = VideoTimeline::new(60, None);
    assert!(timeline.keeps_recording(false));
    assert!(!timeline.keeps_recording(true));
    timeline.begin_frame(false);
    assert_eq!(timeline.frame_work(ScreenUpdate::Changed), FrameWork::WriteNew);
    assert_eq!(timeline.frame_work(ScreenUpdate::Unchanged), FrameWork::WriteBlack);
    assert_eq!(timeline.frame_work(ScreenUpdate::Invalidated), FrameWork::Recreate);
    timeline.wrote_frame();
    let before = timeline.timestamp();
    timeline.begin_frame(true);
    assert_eq!(timeline.timestamp(), before);
    let packet = timeline.plan_audio(true, 480, 480, 0, 48_000, 8);
    assert!(!packet.encode);
    timeline.begin_frame(false);
    let packet: AudioPacket = timeline.plan_audio(false, 48_000, 480, 0, 48_000, 8);
    assert!(packet.encode);
    assert_eq!(packet.silence, 0);
    assert_eq!(packet.byte_length, 3_840);
}

#[test]
fn a_video_stops_at_its_length() {
    let mut timeline = VideoTimeline::new(10, Some(Duration::from_secs(2)));
    let mut frames = 0;
    while timeline.keeps_recording(false) {
        timeline.begin_frame(false);
        timeline.wrote_frame();
        frames += 1;
    }
    assert_eq!(frames, 20);
    assert_eq!(timeline.frames(), 20);
    assert_eq!(timeline.interval(), Duration::from_millis(100));
}

#[test]
fn fractional_lengths_limit_a_screen_recording() {
    for (length, frames) in [(2_500, 25), (500, 5), (1, 1)] {
        let mut timeline = VideoTimeline::new(10, Some(Duration::from_millis(length)));
        while timeline.keeps_recording(false) {
            timeline.begin_frame(false);
            timeline.wrote_frame();
        }
        assert_eq!(timeline.frames(), frames);
    }
}

#[test]
fn the_frame_loop_sleeps_in_short_steps() {
    let due = Duration::from_millis(20);
    assert_eq!(time_before_frame(Duration::from_millis(20), due), None);
    assert_eq!(
        time_before_frame(Duration::from_millis(5), due),
        Some(Duration::from_millis(8))
    );
    assert_eq!(
        time_before_frame(Duration::from_millis(18), due),
        Some(Duration::from_millis(2))
    );
}
