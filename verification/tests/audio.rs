//! Capture rules: formats, packets, resampling, and output files.
use crossbeam_channel::bounded;
use record_tui::audio::capture::{
    clip_requests, display_events, has_visual_event_capacity, plan_packet, process_commands,
    room_for_visual_event, send_samples, PacketPlan, SILENT_FLAG,
};
use record_tui::audio::convert::{Resampler, SourceFrame};
use record_tui::audio::converter::{ConvertedBlock, Converter, StereoFrame};
use record_tui::audio::output::{
    clip_cache_part_path, first_part, ClipOutcome, FinalWork, OutputAction, OutputError,
    OutputManager,
};
use record_tui::audio::turns::{CaptureLoop, Phase, Report, Turn, WaitResult};
use record_tui::audio::wave::{
    build_mix_matrix, desired_rate, media_time, no_profile_message, select_mp3_type,
    speaker_coefficients, EncoderOffer, FormatError, Gain, RawSample, SourceFormat, SubFormat,
    WaveExtension, WaveFormat, TAG_EXTENSIBLE, TAG_FLOAT, TAG_PCM,
};
use record_tui::audio::{
    check_support, AudioCommand, AudioEvent, Profile, RecordingSummary, SavedFile, SavedFileKind,
    SupportError,
};
use record_tui::binary64::{duration_seconds, Binary64};
use record_tui::channel::{Inbox, Outbox, SendOutcome};
use record_tui::path::FilePath;
use record_tui::pcm::{float_to_i16, pcm_bytes, pcm_samples};
use record_tui::sample::Sample;
use record_tui::session::OutputTarget;
use record_tui::time::Duration;

fn path(name: &str) -> FilePath {
    FilePath::new("", name, '/')
}

fn number(value: Binary64) -> f64 {
    value.significand as f64 * 2.0_f64.powi(value.exponent)
}

fn sample(value: f32) -> Sample {
    Sample { bits: value.to_bits() }
}

/// The normalized value of a decoded sample.
fn value(raw: RawSample) -> f32 {
    match raw {
        RawSample::Integer { value, scale_bits } => {
            value as f32 / (1_u64 << scale_bits) as f32
        }
        RawSample::Single(sample) => f32::from_bits(sample.bits),
        RawSample::Double(bits) => {
            let double = f64::from_bits(bits);
            if double.is_finite() {
                double.clamp(-1.0, 1.0) as f32
            } else {
                0.0
            }
        }
    }
}

fn gain(gain: Gain) -> f32 {
    match gain {
        Gain::Silent => 0.0,
        Gain::Full => 1.0,
        Gain::Surround => std::f32::consts::FRAC_1_SQRT_2,
        Gain::Half => 0.5,
        Gain::Low => 0.3,
        Gain::Other => 0.35,
    }
}

fn stereo_format(rate: u32) -> SourceFormat {
    SourceFormat {
        channels: 2,
        sample_rate: rate,
        block_align: 4,
        container_bits: 16,
        valid_bits: 16,
        float: false,
        gains: vec![(Gain::Full, Gain::Silent), (Gain::Silent, Gain::Full)],
    }
}

fn mono_format(container_bits: u16, valid_bits: u16, float: bool) -> SourceFormat {
    SourceFormat {
        channels: 1,
        sample_rate: 48_000,
        block_align: usize::from(container_bits / 8),
        container_bits,
        valid_bits,
        float,
        gains: build_mix_matrix(1, 0),
    }
}

/// Mixes one source frame like the capture thread.
fn mixed(source: &SourceFormat, bytes: Option<&[u8]>, frame: usize, silent: bool) -> (f32, f32) {
    let Some(samples) = source.frame_samples(bytes, frame, silent) else {
        return (0.0, 0.0);
    };
    let mut left = 0.0;
    let mut right = 0.0;
    for (raw, gains) in samples.iter().zip(&source.gains) {
        left += value(*raw) * gain(gains.0);
        right += value(*raw) * gain(gains.1);
    }
    (left.clamp(-1.0, 1.0), right.clamp(-1.0, 1.0))
}

/// A source frame with the gains of a plain stereo source.
fn stereo(samples: Vec<RawSample>) -> StereoFrame {
    StereoFrame { left: bits(value(samples[0])), right: bits(value(samples[1])) }
}

/// Interpolates between two frames like the capture thread.
fn blended(first: StereoFrame, second: StereoFrame, fraction: Binary64) -> StereoFrame {
    let fraction = number(fraction) as f32;
    let between = |first: Sample, second: Sample| {
        let (first, second) = (f32::from_bits(first.bits), f32::from_bits(second.bits));
        bits((second - first).mul_add(fraction, first))
    };
    StereoFrame {
        left: between(first.left, second.left),
        right: between(first.right, second.right),
    }
}

fn bits(value: f32) -> Sample {
    Sample { bits: value.to_bits() }
}

/// Converts one block of a stereo source.
fn converted(converter: &mut Converter, bytes: &[u8], frames: usize) -> ConvertedBlock {
    converter.process(Some(bytes), frames, false, stereo, blended)
}

/// The frames of a block as numbers.
fn frames_of(block: &ConvertedBlock) -> Vec<(f32, f32)> {
    block
        .left
        .iter()
        .zip(&block.right)
        .map(|(left, right)| (f32::from_bits(left.bits), f32::from_bits(right.bits)))
        .collect()
}

#[test]
fn saved_file_duration_uses_its_sample_rate() {
    let file = SavedFile {
        path: path("part-001.mp3"),
        kind: SavedFileKind::Part,
        sample_rate: 48_000,
        bitrate: 320_000,
        frames: 120_000,
        edit_source: None,
    };
    assert_eq!(file.duration(), Duration::from_millis(2_500));
}

#[test]
fn zero_sample_rate_has_zero_duration() {
    let file = SavedFile {
        path: path("empty.mp3"),
        kind: SavedFileKind::Recording,
        sample_rate: 0,
        bitrate: 320_000,
        frames: 100,
        edit_source: None,
    };
    assert_eq!(file.duration(), Duration::zero());
}

#[test]
fn summary_duration_uses_total_process_frames() {
    let summary = RecordingSummary {
        output: path("session"),
        sample_rate: 44_100,
        bitrate: 320_000,
        frames: 88_200,
        files: Vec::new(),
    };
    assert_eq!(summary.duration(), Duration::from_secs(2));
}

#[test]
fn converts_stereo_pcm() {
    let source = stereo_format(48_000);
    let bytes = [0xFF, 0x7F, 0x00, 0x80];
    assert_eq!(mixed(&source, Some(&bytes), 0, false), (32767.0 / 32768.0, -1.0));
}

#[test]
fn converts_unsigned_eight_bit_pcm() {
    let source = mono_format(8, 8, false);
    assert_eq!(value(source.read_sample(&[0], 0)), -1.0);
    assert_eq!(value(source.read_sample(&[128], 0)), 0.0);
    assert_eq!(value(source.read_sample(&[255], 0)), 127.0 / 128.0);
}

#[test]
fn converts_signed_twenty_four_bit_pcm() {
    let source = mono_format(24, 24, false);
    assert_eq!(value(source.read_sample(&[0, 0, 0x80], 0)), -1.0);
    assert_eq!(value(source.read_sample(&[0xFF, 0xFF, 0x7F], 0)), 8_388_607.0 / 8_388_608.0);
}

#[test]
fn honors_valid_bits_in_a_wider_pcm_container() {
    let source = mono_format(32, 24, false);
    assert_eq!(value(source.read_sample(&[0, 0, 0, 0x80], 0)), -1.0);
    assert!((value(source.read_sample(&[0, 0xFF, 0xFF, 0x7F], 0)) - 1.0).abs() < 0.000_001);
}

#[test]
fn clamps_float_samples_and_replaces_nonfinite_values() {
    let float32 = mono_format(32, 32, true);
    assert_eq!(value(float32.read_sample(&2.0_f32.to_le_bytes(), 0)), 1.0);
    assert_eq!(value(float32.read_sample(&f32::NAN.to_le_bytes(), 0)), 0.0);
    let float64 = mono_format(64, 64, true);
    assert_eq!(value(float64.read_sample(&(-2.0_f64).to_le_bytes(), 0)), -1.0);
    assert_eq!(value(float64.read_sample(&f64::INFINITY.to_le_bytes(), 0)), 0.0);
}

#[test]
fn mono_audio_is_sent_to_both_channels() {
    let source = mono_format(16, 16, false);
    assert_eq!(mixed(&source, Some(&0x4000_i16.to_le_bytes()), 0, false), (0.5, 0.5));
}

#[test]
fn silent_and_missing_packets_produce_stereo_silence() {
    let source = stereo_format(48_000);
    assert_eq!(mixed(&source, None, 0, true), (0.0, 0.0));
    assert_eq!(mixed(&source, None, 0, false), (0.0, 0.0));
}

#[test]
fn surround_center_has_equal_stereo_coefficients() {
    let (left, right) = speaker_coefficients(4, 2);
    assert_eq!(left, right);
    assert_eq!(gain(left), std::f32::consts::FRAC_1_SQRT_2);
}

#[test]
fn resamples_without_losing_channel_order() {
    let mut converter = Converter::new(stereo_format(48_000), 48_000);
    let bytes = [0x00, 0x40, 0x00, 0xC0, 0x00, 0x20, 0x00, 0xE0];
    let block = converted(&mut converter, &bytes, 2);
    assert_eq!(frames_of(&block), vec![(0.5, -0.5), (0.25, -0.25)]);
    assert_eq!(block.pcm, vec![16_384, -16_384, 8_192, -8_192]);
}

#[test]
fn resampling_is_contiguous_across_input_blocks() {
    let mut converter = Converter::new(stereo_format(48_000), 48_000);
    let first = converted(&mut converter, &[0, 0x10, 0, 0x20], 1);
    let second = converted(&mut converter, &[0, 0x30, 0, 0x40], 1);
    assert_eq!(frames_of(&first), vec![(0.125, 0.25)]);
    assert_eq!(frames_of(&second), vec![(0.375, 0.5)]);
}

#[test]
fn upsampling_flushes_the_last_interpolated_frame() {
    let mut converter = Converter::new(stereo_format(24_000), 48_000);
    let bytes = [0, 0, 0, 0, 0, 0x40, 0, 0x40];
    let block = converted(&mut converter, &bytes, 2);
    let flushed = converter.flush();
    assert_eq!(block.left.len() + flushed.left.len(), 4);
    assert_eq!(frames_of(&flushed), vec![(0.5, 0.5)]);
}

#[test]
fn an_empty_source_block_does_not_advance_the_converter() {
    let mut converter = Converter::new(stereo_format(48_000), 48_000);
    let block = converter.process(None, 0, true, stereo, blended);
    assert!(block.pcm.is_empty() && block.left.is_empty() && block.right.is_empty());
    assert_eq!(converter.total_source_frames(), 0);
    assert!(converter.flush().pcm.is_empty());
}

#[test]
fn a_silent_packet_converts_to_silence() {
    let mut converter = Converter::new(stereo_format(48_000), 48_000);
    let block = converter.process(None, 3, true, stereo, blended);
    assert_eq!(block.pcm, vec![0; 6]);
    assert_eq!(converter.total_source_frames(), 3);
}

#[test]
fn cuts_do_not_show_at_equal_rates() {
    let bytes: Vec<u8> = (0..40).map(|index| index * 5).collect();
    let mut whole = Converter::new(stereo_format(44_100), 44_100);
    let expected = converted(&mut whole, &bytes, 10).pcm;
    let mut pieces = Converter::new(stereo_format(44_100), 44_100);
    let mut pcm = Vec::new();
    let mut start = 0;
    for frames in [3, 0, 1, 6] {
        pcm.extend(converted(&mut pieces, &bytes[start * 4..], frames).pcm);
        start += frames;
    }
    assert_eq!(pcm, expected);
}

#[test]
fn blocks_do_not_show_in_the_resampled_positions() {
    let mut whole = Resampler::new(44_100, 48_000);
    let expected = whole.process(1_000).len();
    let mut pieces = Resampler::new(44_100, 48_000);
    let mut count = 0;
    let mut position = 0.0_f64;
    let mut base = 0;
    for frames in [1, 499, 3, 0, 497] {
        for frame in pieces.process(frames) {
            let index = match frame.first {
                SourceFrame::Previous => base - 1,
                SourceFrame::Current(index) => base + index,
            };
            assert_eq!(index as f64 + number(frame.fraction), position);
            position += 44_100.0 / 48_000.0;
            count += 1;
        }
        base += frames;
    }
    assert_eq!(count, expected);
    assert_eq!(pieces.flush(), whole.flush());
}

#[test]
fn a_flush_is_limited_to_sixteen_frames() {
    let mut resampler = Resampler::new(1_000, 48_000);
    let mut position = 0.0_f64;
    let mut count = 0;
    while position <= 1.0 + f64::EPSILON {
        position += 1_000.0 / 48_000.0;
        count += 1;
    }
    assert_eq!(resampler.process(2).len(), count);
    assert_eq!(resampler.flush(), 16);
}

#[test]
fn pcm_conversion_covers_full_scale_and_nonfinite_values() {
    assert_eq!(float_to_i16(sample(-1.0)), i16::MIN);
    assert_eq!(float_to_i16(sample(1.0)), i16::MAX);
    assert_eq!(float_to_i16(sample(0.0)), 0);
    assert_eq!(float_to_i16(sample(f32::NAN)), 0);
    assert_eq!(float_to_i16(sample(f32::INFINITY)), 0);
}

#[test]
fn pcm_conversion_rounds_like_single_precision_numbers() {
    let mut bits = 0_u32;
    while bits < 0x4000_0000 {
        for sign in [0, 0x8000_0000] {
            let number = f32::from_bits(bits | sign).clamp(-1.0, 1.0);
            let expected = if number <= -1.0 {
                i16::MIN
            } else {
                (number * f32::from(i16::MAX)).round() as i16
            };
            assert_eq!(float_to_i16(Sample { bits: bits | sign }), expected, "{number}");
        }
        bits += 77_777;
    }
    assert_eq!(float_to_i16(sample(0.5 / 32_767.0)), 1);
    assert_eq!(float_to_i16(sample(-1.0e-30)), 0);
}

#[test]
fn media_times_are_contiguous() {
    assert_eq!(media_time(48_000, 48_000), 10_000_000);
    assert_eq!(media_time(96_000, 48_000), 20_000_000);
    assert_eq!(media_time(44_100, 44_100), 10_000_000);
}

#[test]
fn duration_limit_uses_encoded_timeline() {
    let limit = Duration::from_millis(250);
    let frames = duration_seconds(&limit).times(48_000).unwrap();
    assert_eq!(number(frames), 12_000.0);
    assert_eq!(number(duration_seconds(&limit)) * 48_000.0, 12_000.0);
}

#[test]
fn visualization_events_leave_room_for_state_events() {
    let (sender, _receiver) = bounded(10);
    let mut events = Outbox::new(sender.clone());
    assert!(has_visual_event_capacity(&mut events));
    sender.send(AudioEvent::Finalizing).unwrap();
    assert!(has_visual_event_capacity(&mut events));
    sender.send(AudioEvent::Finalizing).unwrap();
    assert!(!has_visual_event_capacity(&mut events));
}

#[test]
fn unbounded_channels_always_have_room() {
    assert!(room_for_visual_event(None, usize::MAX));
    assert!(room_for_visual_event(Some(8), 0));
    assert!(!room_for_visual_event(Some(8), 1));
    let (sender, _receiver) = crossbeam_channel::unbounded();
    assert!(has_visual_event_capacity(&mut Outbox::new(sender)));
}

#[test]
fn offers_report_what_the_channel_did() {
    let (sender, receiver) = bounded(1);
    let mut events = Outbox::new(sender);
    assert_eq!(events.capacity(), Some(1));
    assert_eq!(events.offer(AudioEvent::Finalizing), SendOutcome::Sent);
    assert_eq!(events.offer(AudioEvent::Finalizing), SendOutcome::Full);
    assert_eq!(receiver.len(), 1);
    drop(receiver);
    assert_eq!(events.offer(AudioEvent::Finalizing), SendOutcome::Disconnected);
}

#[test]
fn display_samples_are_split_into_small_events() {
    let left: Vec<Sample> = (0..2_500_u16).map(|index| sample(f32::from(index))).collect();
    let right = left.clone();
    let events = display_events(&left, &right, 9_000);
    assert_eq!(events.len(), 3);
    let lengths: Vec<usize> = events
        .iter()
        .map(|event| match event {
            AudioEvent::Samples { left, .. } => left.len(),
            _ => panic!("only samples are expected"),
        })
        .collect();
    assert_eq!(lengths, vec![1_024, 1_024, 452]);

    let (sender, receiver) = bounded(10);
    assert_eq!(send_samples(&mut Outbox::new(sender), &left, &right, 9_000), 2);
    assert_eq!(receiver.len(), 2);
    let full = receiver.try_recv().unwrap();
    match full {
        AudioEvent::Samples { left: block, encoded_frames, .. } => {
            assert_eq!(block, left[..1_024].to_vec());
            assert_eq!(encoded_frames, 7_524);
        }
        _ => panic!("only samples are expected"),
    }
}

#[test]
fn pending_commands_are_taken_in_order() {
    let (sender, receiver) = bounded(4);
    sender.send(AudioCommand::SaveClip("one".to_owned())).unwrap();
    sender.send(AudioCommand::SaveClip("two".to_owned())).unwrap();
    let mut commands = Inbox::new(receiver);
    assert_eq!(process_commands(&mut commands), vec!["one".to_owned(), "two".to_owned()]);
    assert!(process_commands(&mut commands).is_empty());
    assert_eq!(
        clip_requests(vec![AudioCommand::SaveClip("three".to_owned())]),
        vec!["three".to_owned()]
    );
}

#[test]
fn short_gaps_become_silence_and_long_gaps_do_not() {
    let plan = plan_packet(false, Some(100), 580, 480, 0, 48_000, 8);
    assert_eq!(
        plan,
        PacketPlan {
            silence: 480,
            encode: true,
            silent: false,
            byte_length: 3_840,
            next_position: 1_060,
        }
    );
    assert_eq!(plan_packet(false, Some(0), 240_000, 1, 0, 48_000, 8).silence, 240_000);
    assert_eq!(plan_packet(false, Some(0), 240_001, 1, 0, 48_000, 8).silence, 0);
    assert_eq!(plan_packet(false, None, 240_000, 1, 0, 48_000, 8).silence, 0);
    let silent = plan_packet(false, Some(0), 0, 480, SILENT_FLAG, 48_000, 8);
    assert!(silent.silent && silent.byte_length == 0);
    let paused = plan_packet(true, Some(0), 480, 480, 0, 48_000, 8);
    assert!(!paused.encode && paused.silence == 0 && paused.next_position == 960);
}

/// Brings a capture loop to its next wait.
fn at_wait(limit: Option<u64>) -> CaptureLoop {
    let mut capture = CaptureLoop::new(limit, 48_000, 8);
    assert!(matches!(capture.next_turn(Report::Looked { stop: false }), Turn::Serve));
    assert!(matches!(capture.next_turn(Report::Served { total_frames: 0 }), Turn::Wait));
    capture
}

#[test]
fn waits_lead_to_the_next_turn() {
    let ready = Report::Waited(WaitResult::Ready);
    assert!(matches!(at_wait(None).next_turn(ready), Turn::Take));
    let timeout = Report::Waited(WaitResult::Timeout);
    assert!(matches!(at_wait(None).next_turn(timeout), Turn::Look));
    let failed = Report::Waited(WaitResult::Failed);
    assert!(matches!(at_wait(None).next_turn(failed), Turn::SystemError));
    match at_wait(None).next_turn(Report::Waited(WaitResult::Other(7))) {
        Turn::Unexpected(message) => {
            assert_eq!(message, "Windows returned an unexpected audio wait result: 7")
        }
        _ => panic!("an unexpected result is expected"),
    }
}

#[test]
fn capture_ends_on_request_or_at_the_limit() {
    let mut stopped = CaptureLoop::new(None, 48_000, 8);
    assert!(matches!(stopped.next_turn(Report::Looked { stop: true }), Turn::Finish));
    assert_eq!(stopped.phase(), Phase::Over);
    for (total_frames, ends) in [(9, false), (10, true), (11, true)] {
        let mut limited = CaptureLoop::new(Some(10), 48_000, 8);
        assert!(matches!(limited.next_turn(Report::Looked { stop: false }), Turn::Serve));
        let turn = limited.next_turn(Report::Served { total_frames });
        assert_eq!(matches!(turn, Turn::Finish), ends);
        assert_eq!(matches!(turn, Turn::Wait), !ends);
    }
    let mut endless = CaptureLoop::new(None, 48_000, 8);
    assert!(matches!(endless.next_turn(Report::Looked { stop: false }), Turn::Serve));
    let served = Report::Served { total_frames: u64::MAX };
    assert!(matches!(endless.next_turn(served), Turn::Wait));
}

#[test]
fn packets_are_taken_until_the_device_is_empty_or_a_stop() {
    let mut capture = at_wait(None);
    assert!(matches!(capture.next_turn(Report::Waited(WaitResult::Ready)), Turn::Take));
    let mut position = 0;
    for (paused, gap, silence) in [(false, 0, 0), (false, 100, 100), (true, 50, 0), (false, 0, 0)] {
        position += gap;
        let turn = capture.next_turn(Report::Taken { paused, position, frames: 480, flags: 0 });
        match turn {
            Turn::Encode(plan) => {
                assert_eq!(plan.encode, !paused);
                assert_eq!(plan.silence, silence);
                assert_eq!(plan.next_position, position + 480);
            }
            _ => panic!("a packet is encoded"),
        }
        position += 480;
        assert!(matches!(capture.next_turn(Report::Encoded { stop: false }), Turn::Take));
    }
    assert!(matches!(capture.next_turn(Report::Empty), Turn::Look));
    let mut capture = at_wait(None);
    assert!(matches!(capture.next_turn(Report::Waited(WaitResult::Ready)), Turn::Take));
    let taken = Report::Taken { paused: false, position: 0, frames: 1, flags: 0 };
    assert!(matches!(capture.next_turn(taken), Turn::Encode(_)));
    assert!(matches!(capture.next_turn(Report::Encoded { stop: true }), Turn::Look));
    assert!(matches!(capture.next_turn(Report::Looked { stop: true }), Turn::Finish));
}

#[test]
fn support_needs_an_encoder_profile() {
    assert_eq!(check_support(None).unwrap_err(), SupportError::NoBackend);
    let invalid = Profile { sample_rate: 0, bitrate: 320_000 };
    assert_eq!(check_support(Some(invalid)).unwrap_err(), SupportError::InvalidProfile);
    assert!(check_support(Some(Profile { sample_rate: 48_000, bitrate: 320_000 })).is_ok());
    assert!(SupportError::NoBackend.message().contains("Windows 10/11 only"));
}

fn wave(tag: u16, bits: u16) -> WaveFormat {
    WaveFormat {
        tag,
        channels: 2,
        sample_rate: 48_000,
        block_align: bits / 8 * 2,
        bits_per_sample: bits,
        extension_bytes: 0,
        extension: None,
    }
}

#[test]
fn device_formats_are_read_or_refused() {
    let pcm = SourceFormat::from_wave(&wave(TAG_PCM, 16)).unwrap();
    assert!(!pcm.float && pcm.channels == 2 && pcm.valid_bits == 16);
    assert_eq!(pcm.gains, vec![(Gain::Full, Gain::Silent), (Gain::Silent, Gain::Full)]);
    assert!(SourceFormat::from_wave(&wave(TAG_FLOAT, 32)).unwrap().float);
    let extensible = WaveFormat {
        tag: TAG_EXTENSIBLE,
        extension_bytes: 22,
        extension: Some(WaveExtension {
            valid_bits: 24,
            channel_mask: 3,
            sub_format: SubFormat::Pcm,
        }),
        ..wave(TAG_PCM, 32)
    };
    assert_eq!(SourceFormat::from_wave(&extensible).unwrap().valid_bits, 24);

    let refused = |format: WaveFormat| SourceFormat::from_wave(&format).unwrap_err();
    assert_eq!(refused(WaveFormat { channels: 0, ..wave(TAG_PCM, 16) }), FormatError::Invalid);
    assert_eq!(refused(wave(TAG_EXTENSIBLE, 16)), FormatError::Truncated);
    assert_eq!(
        refused(WaveFormat {
            extension: Some(WaveExtension {
                valid_bits: 24,
                channel_mask: 3,
                sub_format: SubFormat::Other,
            }),
            ..extensible
        }),
        FormatError::UnsupportedSubtype
    );
    assert_eq!(refused(wave(7, 16)), FormatError::UnsupportedTag(7));
    assert_eq!(refused(wave(TAG_FLOAT, 16)), FormatError::UnsupportedFloatWidth(16));
    assert_eq!(refused(wave(TAG_PCM, 64)), FormatError::UnsupportedPcmWidth(64));
    assert_eq!(
        refused(WaveFormat { block_align: 3, ..wave(TAG_PCM, 16) }),
        FormatError::InvalidAlignment
    );
    assert_eq!(
        refused(WaveFormat {
            extension: Some(WaveExtension {
                valid_bits: 40,
                channel_mask: 3,
                sub_format: SubFormat::Pcm,
            }),
            ..extensible
        }),
        FormatError::InvalidDepth
    );
}

#[test]
fn the_best_encoder_profile_is_selected() {
    let offer = |channels, sample_rate, kbps: u32| EncoderOffer {
        channels,
        sample_rate,
        bytes_per_second: kbps * 125,
    };
    let offers = vec![
        offer(2, 48_000, 128),
        offer(1, 48_000, 320),
        offer(2, 44_100, 320),
        offer(2, 48_000, 256),
        offer(2, 48_000, 320),
    ];
    let (index, profile) = select_mp3_type(&offers, 48_000, 256_000).unwrap();
    assert_eq!((index, profile.bitrate), (3, 256_000));
    let (index, profile) = select_mp3_type(&offers, 48_000, 320_000).unwrap();
    assert_eq!((index, profile.sample_rate), (4, 48_000));
    assert_eq!(select_mp3_type(&offers, 48_000, 64_000), None);
    assert_eq!(select_mp3_type(&Vec::new(), 48_000, 320_000), None);
    assert_eq!(offers[0].bits_per_second(), 128_000);
    assert_eq!(desired_rate(48_000), 48_000);
    assert_eq!(desired_rate(44_100), 44_100);
    assert!(no_profile_message(64_000).contains("64"));
}

fn session_manager(seconds: u64) -> OutputManager {
    let target = OutputTarget::Session {
        directory: path("session"),
        segment_duration: Duration::from_secs(seconds),
    };
    let cache = Some(path("cache"));
    let first = first_part(&target, &cache);
    assert!(first.path.same(&path("session").child("part-001.mp3")));
    OutputManager::open(
        &target,
        cache,
        first,
        Profile { sample_rate: 1_000, bitrate: 320_000 },
    )
}

#[test]
fn a_session_rotates_at_its_exact_limit() {
    let mut manager = session_manager(1);
    let actions = manager.write(2 * 2_500);
    let mut written = Vec::new();
    let mut closed = Vec::new();
    let mut opened = Vec::new();
    for action in &actions {
        match action {
            OutputAction::Write { start, end } => written.push((*start, *end)),
            OutputAction::Close(file) => closed.push((file.path.name.clone(), file.frames)),
            OutputAction::Open { path, .. } => opened.push(path.name.clone()),
            OutputAction::Fail(error) => panic!("{}", error.message()),
        }
    }
    assert_eq!(written, vec![(0, 1_000), (1_000, 2_000), (2_000, 2_500)]);
    assert_eq!(
        closed,
        vec![("part-001.mp3".to_owned(), 1_000), ("part-002.mp3".to_owned(), 1_000)]
    );
    assert_eq!(opened, vec!["part-002.mp3".to_owned(), "part-003.mp3".to_owned()]);
    assert_eq!(manager.total_frames(), 2_500);
    let (work, summary) = manager.finish();
    match work {
        FinalWork::Close(file) => assert_eq!(file.frames, 500),
        _ => panic!("the last part must be closed"),
    }
    assert_eq!(summary.frames, 2_500);
    assert_eq!(summary.files.len(), 3);
}

#[test]
fn a_part_boundary_leaves_no_empty_part() {
    let mut manager = session_manager(1);
    manager.write(2 * 1_000);
    let (work, summary) = manager.finish();
    assert!(matches!(work, FinalWork::Nothing));
    assert_eq!(summary.files.len(), 1);
    let (work, summary) = session_manager(1).finish();
    match work {
        FinalWork::Discard(part) => assert_eq!(part.name, "part-001.mp3"),
        _ => panic!("an empty part must be discarded"),
    }
    assert!(summary.files.is_empty());
}

#[test]
fn odd_blocks_are_refused() {
    let mut manager = session_manager(1);
    let actions = manager.write(3);
    assert!(matches!(actions[..], [OutputAction::Fail(OutputError::OddBlock)]));
}

#[test]
fn a_clip_with_the_name_of_its_part_keeps_the_part() {
    let mut manager = session_manager(600);
    manager.write(2 * 100);
    match manager.save_clip("part-001", |_: &FilePath| true) {
        ClipOutcome::Saved { part, rename_to, file } => {
            assert!(rename_to.is_none());
            assert_eq!(file.path.text(), part.text());
            assert_eq!(part.name, "part-001.mp3");
        }
        _ => panic!("the clip must be saved"),
    }
}

#[test]
fn clips_are_saved_under_their_name() {
    let mut manager = session_manager(600);
    match manager.save_clip("intro", |_: &FilePath| false) {
        ClipOutcome::NeedsAudio(message) => assert!(!message.is_empty()),
        _ => panic!("a clip needs audio"),
    }
    manager.write(2 * 700);
    match manager.save_clip("intro", |place: &FilePath| place.name == "intro.mp3") {
        ClipOutcome::Saved { part, rename_to, file } => {
            assert_eq!(part.name, "part-001.mp3");
            assert_eq!(rename_to.unwrap().name, "intro-2.mp3");
            assert_eq!(file.kind, SavedFileKind::Clip);
            assert_eq!(file.frames, 700);
            let source = file.edit_source.unwrap();
            assert!(source.pcm_path.same(&clip_cache_part_path(&path("cache"), 1)));
            assert_eq!((source.start_frame, source.end_frame), (0, 700));
        }
        _ => panic!("the clip must be saved"),
    }
    match manager.save_clip("NUL", |_: &FilePath| false) {
        ClipOutcome::NeedsAudio(_) => {}
        _ => panic!("a closed part has no audio"),
    }
}

#[test]
fn a_single_file_ignores_clips() {
    let target = OutputTarget::SingleFile { path: path("take.mp3"), replace: true };
    let first = first_part(&target, &None);
    assert!(first.replace && first.pcm_path.is_none());
    let profile = Profile { sample_rate: 48_000, bitrate: 192_000 };
    let mut manager = OutputManager::open(&target, None, first, profile);
    manager.write(960);
    assert!(matches!(manager.save_clip("a", |_: &FilePath| false), ClipOutcome::Ignored));
    assert!(manager.check_profile(profile).is_ok());
    assert_eq!(
        manager.check_profile(Profile { sample_rate: 44_100, bitrate: 192_000 }).unwrap_err(),
        OutputError::ProfileChanged
    );
    let (_, summary) = manager.finish();
    assert_eq!(summary.files[0].kind, SavedFileKind::Recording);
}

#[test]
fn raw_pcm_writer_preserves_interleaved_little_endian_samples() {
    let samples = vec![i16::MIN, -1, 0, i16::MAX];
    let bytes = pcm_bytes(&samples);
    assert_eq!(bytes, vec![0, 0x80, 0xFF, 0xFF, 0, 0, 0xFF, 0x7F]);
    assert_eq!(pcm_samples(&bytes), samples);
}
