//! Progress messages without the full-screen interface.
//!
//! Messages go to the error stream. A message that does not end its line is
//! overwritten by the next one, which starts with a carriage return.
use vstd::prelude::*;

use crate::audio::AudioEvent;
use crate::binary64;
use crate::binary64::duration_milliseconds;
use crate::labels;
use crate::path;
use crate::path::FilePath;
use crate::text;
use crate::time::Duration;
use crate::video::VideoEvent;

verus! {

/// One message for the error stream.
#[derive(Debug)]
pub struct Message {
    /// Text of the message.
    pub text: String,
    /// Reports whether a line break follows.
    pub ends_line: bool,
}

/// The mathematical value of a [`Message`].
pub struct MessageView {
    pub text: Seq<char>,
    pub ends_line: bool,
}

impl View for Message {
    type V = MessageView;

    open spec fn view(&self) -> MessageView {
        MessageView { text: self.text@, ends_line: self.ends_line }
    }
}

/// The value of each message.
pub open spec fn message_views(messages: Seq<Message>) -> Seq<MessageView> {
    messages.map_values(|message: Message| message@)
}

/// A message on a line of its own.
pub open spec fn full_line(words: Seq<char>) -> MessageView {
    MessageView { text: words, ends_line: true }
}

/// A message that the next one overwrites.
pub open spec fn open_line(words: Seq<char>) -> MessageView {
    MessageView { text: words, ends_line: false }
}

/// Starts a list of messages with one message.
fn one_message(text: String, ends_line: bool) -> (messages: Vec<Message>)
    ensures
        message_views(messages@) == seq![MessageView { text: text@, ends_line }],
{
    let mut messages: Vec<Message> = Vec::new();
    messages.push(Message { text, ends_line });
    proof {
        assert(message_views(messages@) =~= seq![MessageView { text: text@, ends_line }]);
    }
    messages
}

/// Adds a message to a list.
fn add_message(messages: &mut Vec<Message>, text: String, ends_line: bool)
    ensures
        message_views(final(messages)@) == message_views(old(messages)@).push(
            MessageView { text: text@, ends_line },
        ),
{
    messages.push(Message { text, ends_line });
    proof {
        assert(message_views(messages@) =~= message_views(old(messages)@).push(
            MessageView { text: text@, ends_line },
        ));
    }
}

/// The messages at the start of an audio recording.
pub open spec fn audio_start(output: path::PathView) -> Seq<MessageView> {
    seq![
        full_line("● Recording system audio → "@ + output.text()),
        full_line("  Press Ctrl+C to stop and save."@),
    ]
}

/// Writes the messages at the start of an audio recording.
pub fn audio_start_messages(output: &FilePath) -> (messages: Vec<Message>)
    ensures
        message_views(messages@) == audio_start(output@),
{
    let mut first = String::from_str("● Recording system audio → ");
    first.append(output.text().as_str());
    let mut messages = one_message(first, true);
    add_message(&mut messages, String::from_str("  Press Ctrl+C to stop and save."), true);
    proof {
        assert(message_views(messages@) =~= audio_start(output@));
    }
    messages
}

/// The message while an audio recording is finalized.
pub open spec fn audio_finalizing() -> MessageView {
    open_line("\r  Finalizing MP3...                     "@)
}

/// Writes the message while an audio recording is finalized.
pub fn audio_finalizing_message() -> (message: Message)
    ensures
        message@ == audio_finalizing(),
{
    Message {
        text: String::from_str("\r  Finalizing MP3...                     "),
        ends_line: false,
    }
}

/// The progress of an audio recording.
#[derive(Debug)]
pub struct AudioProgress {
    /// Encoded sample rate in frames per second.
    pub sample_rate: u32,
}

/// The sample rate after an event.
pub open spec fn rate_after(rate: u32, event: AudioEvent) -> u32 {
    match event {
        AudioEvent::Started { sample_rate, .. } => sample_rate,
        _ => rate,
    }
}

/// The messages for an event of an audio recording.
///
/// A startup probe adds the milliseconds since the process started.
pub open spec fn audio_messages(
    rate: u32,
    event: AudioEvent,
    startup_probe: bool,
    elapsed: nat,
) -> Seq<MessageView> {
    match event {
        AudioEvent::Started { sample_rate, bitrate, .. } => {
            let profile = full_line(
                "  "@ + text::decimal((bitrate / 1_000) as nat) + " kbps · "@ + text::decimal(
                    (sample_rate / 1_000) as nat,
                ) + " kHz · stereo"@,
            );
            if startup_probe {
                seq![
                    profile,
                    full_line(
                        "RECORD_READY_MS="@ + labels::fixed(
                            binary64::milliseconds_value(elapsed),
                            3,
                        ),
                    ),
                ]
            } else {
                seq![profile]
            }
        },
        AudioEvent::Samples { encoded_frames, .. } => seq![
            open_line(
                "\r  "@ + labels::clock(encoded_frames as nat / rate as nat)
                    + "  Ctrl+C to stop"@,
            ),
        ],
        AudioEvent::Saved(file) => seq![
            full_line(
                "\r✓ Saved "@ + file.path@.text() + " ("@ + labels::seconds_text(
                    binary64::frame_nanoseconds(file.frames as nat, file.sample_rate as nat),
                    1,
                ) + "s)                         "@,
            ),
        ],
        AudioEvent::Notice(message) => seq![full_line("\r  "@ + message@)],
        AudioEvent::Finalizing => seq![audio_finalizing()],
    }
}

impl AudioProgress {
    /// Starts with the usual sample rate.
    pub fn new() -> (progress: AudioProgress)
        ensures
            progress.sample_rate == 48_000,
    {
        AudioProgress { sample_rate: 48_000 }
    }

    /// Writes the messages for an event, and reports whether the event ends a
    /// startup probe.
    pub fn messages(
        &mut self,
        event: &AudioEvent,
        startup_probe: bool,
        elapsed: &Duration,
    ) -> (result: (Vec<Message>, bool))
        requires
            *event is Samples ==> old(self).sample_rate > 0,
            *event is Saved ==> binary64::frames_have_length(
                (*event)->Saved_0.frames as nat,
                (*event)->Saved_0.sample_rate as nat,
            ),
        ensures
            final(self).sample_rate == rate_after(old(self).sample_rate, *event),
            message_views(result.0@) == audio_messages(
                old(self).sample_rate,
                *event,
                startup_probe,
                elapsed@,
            ),
            result.1 == (startup_probe && *event is Started),
    {
        match event {
            AudioEvent::Started { sample_rate, bitrate, .. } => {
                self.sample_rate = *sample_rate;
                let mut profile = String::from_str("  ");
                text::push_decimal(&mut profile, (*bitrate / 1_000) as u64);
                profile.append(" kbps · ");
                text::push_decimal(&mut profile, (*sample_rate / 1_000) as u64);
                profile.append(" kHz · stereo");
                let mut messages = one_message(profile, true);
                if startup_probe {
                    let mut ready = String::from_str("RECORD_READY_MS=");
                    labels::push_fixed(&mut ready, &duration_milliseconds(elapsed), 3);
                    add_message(&mut messages, ready, true);
                }
                proof {
                    assert(message_views(messages@) =~= audio_messages(
                        old(self).sample_rate,
                        *event,
                        startup_probe,
                        elapsed@,
                    ));
                }
                (messages, startup_probe)
            },
            AudioEvent::Samples { encoded_frames, .. } => {
                let mut clock = String::from_str("\r  ");
                clock.append(
                    labels::clock_text(*encoded_frames / self.sample_rate as u64).as_str(),
                );
                clock.append("  Ctrl+C to stop");
                (one_message(clock, false), false)
            },
            AudioEvent::Saved(file) => {
                let mut saved = String::from_str("\r✓ Saved ");
                saved.append(file.path.text().as_str());
                saved.append(" (");
                labels::push_seconds(&mut saved, &file.duration(), 1);
                saved.append("s)                         ");
                (one_message(saved, true), false)
            },
            AudioEvent::Notice(message) => {
                let mut notice = String::from_str("\r  ");
                notice.append(message.as_str());
                (one_message(notice, true), false)
            },
            AudioEvent::Finalizing => {
                let message = audio_finalizing_message();
                (one_message(message.text, message.ends_line), false)
            },
        }
    }
}

/// The messages at the start of a screen recording.
pub open spec fn video_start() -> Seq<MessageView> {
    seq![full_line("● Recording screen"@), full_line("  Press Ctrl+C to stop and save."@)]
}

/// Writes the messages at the start of a screen recording.
pub fn video_start_messages() -> (messages: Vec<Message>)
    ensures
        message_views(messages@) == video_start(),
{
    let mut messages = one_message(String::from_str("● Recording screen"), true);
    add_message(&mut messages, String::from_str("  Press Ctrl+C to stop and save."), true);
    proof {
        assert(message_views(messages@) =~= video_start());
    }
    messages
}

/// The message while a screen recording is finalized.
pub open spec fn video_finalizing() -> MessageView {
    open_line("  Finalizing MP4..."@)
}

/// Writes the message while a screen recording is finalized.
pub fn video_finalizing_message() -> (message: Message)
    ensures
        message@ == video_finalizing(),
{
    Message { text: String::from_str("  Finalizing MP4..."), ends_line: false }
}

/// The messages for an event of a screen recording.
pub open spec fn video_event_messages(event: VideoEvent) -> Seq<MessageView> {
    match event {
        VideoEvent::Started { width, height, fps, capture_ready_ms, .. } => seq![
            full_line(
                "  "@ + text::decimal(width as nat) + "x"@ + text::decimal(height as nat) + " @ "@
                    + text::decimal(fps as nat) + " fps · H.264 + AAC"@,
            ),
            full_line("CAPTURE_READY_MS="@ + labels::fixed(capture_ready_ms@, 3)),
        ],
        VideoEvent::Notice(message) => seq![full_line("  "@ + message@)],
        VideoEvent::Finalizing => seq![video_finalizing()],
        VideoEvent::Saved(_) => Seq::empty(),
    }
}

/// Writes the messages for an event of a screen recording.
pub fn video_messages(event: &VideoEvent) -> (messages: Vec<Message>)
    requires
        *event is Started ==> (*event)->capture_ready_ms.wf()
            && (*event)->capture_ready_ms@.is_below_power(80),
    ensures
        message_views(messages@) == video_event_messages(*event),
{
    match event {
        VideoEvent::Started { width, height, fps, capture_ready_ms, .. } => {
            let mut size = String::from_str("  ");
            text::push_decimal(&mut size, *width as u64);
            size.append("x");
            text::push_decimal(&mut size, *height as u64);
            size.append(" @ ");
            text::push_decimal(&mut size, *fps as u64);
            size.append(" fps · H.264 + AAC");
            let mut ready = String::from_str("CAPTURE_READY_MS=");
            labels::push_fixed(&mut ready, capture_ready_ms, 3);
            let mut messages = one_message(size, true);
            add_message(&mut messages, ready, true);
            proof {
                assert(message_views(messages@) =~= video_event_messages(*event));
            }
            messages
        },
        VideoEvent::Notice(message) => {
            let mut notice = String::from_str("  ");
            notice.append(message.as_str());
            one_message(notice, true)
        },
        VideoEvent::Finalizing => {
            let message = video_finalizing_message();
            one_message(message.text, message.ends_line)
        },
        VideoEvent::Saved(_) => {
            let messages: Vec<Message> = Vec::new();
            proof {
                assert(message_views(messages@) =~= Seq::<MessageView>::empty());
            }
            messages
        },
    }
}

/// The progress of a recording shows the whole seconds of its frames, at the rate
/// that its start reported.
pub proof fn law_progress_shows_the_recorded_time(
    before: u32,
    started: AudioEvent,
    samples: AudioEvent,
    seconds: nat,
    probe: bool,
    elapsed: nat,
)
    requires
        started is Started,
        started->sample_rate > 0,
        samples is Samples,
        seconds * started->sample_rate <= samples->encoded_frames < (seconds + 1)
            * started->sample_rate,
    ensures
        audio_messages(rate_after(before, started), samples, probe, elapsed) == seq![
            open_line("\r  "@ + labels::clock(seconds) + "  Ctrl+C to stop"@),
        ],
{
    let rate = started->sample_rate as int;
    let frames = samples->encoded_frames as int;
    let whole = seconds * rate;
    assert(whole <= frames < whole + rate) by (nonlinear_arith)
        requires
            whole == seconds * rate,
            seconds * rate <= frames < (seconds + 1) * rate,
    ;
    vstd::arithmetic::div_mod::lemma_fundamental_div_mod_converse(
        frames,
        rate,
        seconds as int,
        frames - whole,
    );
}

/// Only a start changes the rate of the progress.
pub proof fn law_only_a_start_changes_the_rate(before: u32, event: AudioEvent)
    ensures
        event matches AudioEvent::Started { sample_rate, .. } ==> rate_after(before, event)
            == sample_rate,
        !(event is Started) ==> rate_after(before, event) == before,
{
}

/// Every event of an audio recording is told in one message; a start tells the
/// time of a startup probe in a second one. Progress and finalization stay open
/// for the next message, and every other message ends its line.
pub proof fn law_audio_events_are_told_once(
    rate: u32,
    event: AudioEvent,
    probe: bool,
    elapsed: nat,
)
    ensures
        ({
            let messages = audio_messages(rate, event, probe, elapsed);
            &&& messages.len() == (if event is Started && probe {
                2nat
            } else {
                1
            })
            &&& messages[0].ends_line <==> !(event is Samples) && !(event is Finalizing)
            &&& event is Started && probe ==> messages[1].ends_line && messages[0]
                == audio_messages(rate, event, false, elapsed)[0]
            &&& event matches AudioEvent::Notice(message) ==> messages[0].text == "\r  "@ + message@
            &&& event matches AudioEvent::Saved(file) ==> messages[0].text.take(
                ("\r✓ Saved "@ + file.path@.text()).len() as int,
            ) == "\r✓ Saved "@ + file.path@.text()
        }),
{
    if event is Saved {
        let file = event->Saved_0;
        let front = "\r✓ Saved "@ + file.path@.text();
        assert(audio_messages(rate, event, probe, elapsed)[0].text.take(front.len() as int)
            =~= front);
    }
}

/// The start of a recording is told in kilobits and kilohertz, rounded down.
pub proof fn law_starts_are_told_in_thousands(
    rate: u32,
    event: AudioEvent,
    probe: bool,
    elapsed: nat,
    kilobits: nat,
    kilohertz: nat,
)
    requires
        event is Started,
        kilobits * 1_000 <= event->bitrate < (kilobits + 1) * 1_000,
        kilohertz * 1_000 <= event->sample_rate < (kilohertz + 1) * 1_000,
    ensures
        audio_messages(rate, event, probe, elapsed)[0].text == "  "@ + text::decimal(kilobits)
            + " kbps · "@ + text::decimal(kilohertz) + " kHz · stereo"@,
{
    assert(event->bitrate / 1_000 == kilobits);
    assert(event->sample_rate / 1_000 == kilohertz);
}

/// A recording starts with the place of its output, and how to stop it.
pub proof fn law_recordings_tell_their_place(output: FilePath, messages: Vec<Message>)
    requires
        call_ensures(audio_start_messages, (&output,), messages),
    ensures
        messages@.len() == 2,
        messages@[0].text@ == "● Recording system audio → "@ + (output.folder@ + output.name@),
        messages@[1].text@ == "  Press Ctrl+C to stop and save."@,
        messages@[0].ends_line && messages@[1].ends_line,
{
    assert(message_views(messages@).len() == messages@.len());
    assert(message_views(messages@)[0] == messages@[0]@);
    assert(message_views(messages@)[1] == messages@[1]@);
}

/// A screen recording tells its start in two lines and its notices in one, leaves
/// finalization open, and says nothing of a saved file.
pub proof fn law_video_events_are_told(event: VideoEvent, messages: Vec<Message>)
    requires
        call_ensures(video_messages, (&event,), messages),
    ensures
        event is Started ==> messages@.len() == 2 && messages@[0].ends_line && messages@[1].ends_line,
        event matches VideoEvent::Notice(message) ==> messages@.len() == 1 && messages@[0].text@
            == "  "@ + message@ && messages@[0].ends_line,
        event is Finalizing ==> messages@.len() == 1 && !messages@[0].ends_line,
        event is Saved ==> messages@.len() == 0,
        event matches VideoEvent::Started { width, height, fps, .. } ==> messages@[0].text@ == "  "@
            + text::decimal(width as nat) + "x"@ + text::decimal(height as nat) + " @ "@
            + text::decimal(fps as nat) + " fps · H.264 + AAC"@,
{
    assert(message_views(messages@).len() == messages@.len());
    if messages@.len() > 0 {
        assert(message_views(messages@)[0] == messages@[0]@);
    }
    if messages@.len() > 1 {
        assert(message_views(messages@)[1] == messages@[1]@);
    }
}

/// The messages of an event tell the rate from before it, and only a start
/// changes the rate. A start ends a startup probe, and nothing else does.
pub proof fn law_written_messages_follow_the_event(
    progress: &mut AudioProgress,
    event: AudioEvent,
    probe: bool,
    elapsed: Duration,
    result: (Vec<Message>, bool),
)
    requires
        call_ensures(AudioProgress::messages, (progress, &event, probe, &elapsed), result),
    ensures
        event is Started ==> final(progress).sample_rate == event->sample_rate,
        !(event is Started) ==> final(progress).sample_rate == old(progress).sample_rate,
        result.1 <==> probe && event is Started,
        result.0@.len() == (if event is Started && probe {
            2nat
        } else {
            1
        }),
        result.0@[0].ends_line <==> !(event is Samples) && !(event is Finalizing),
{
    law_audio_events_are_told_once(old(progress).sample_rate, event, probe, elapsed@);
    assert(message_views(result.0@).len() == result.0@.len());
    assert(message_views(result.0@)[0] == result.0@[0]@);
}

} // verus!
