//! Interface state of a screen recording.
use vstd::prelude::*;

use crate::binary64::Binary64;
use crate::channel;
use crate::channel::Inbox;
use crate::path;
use crate::path::FilePath;
use crate::time::Duration;
use crate::tui;
use crate::tui::{CaptureState, Key, KeyCode};
use crate::video::VideoEvent;

verus! {

/// Owns all interface state for one screen recording.
#[derive(Debug)]
pub struct VideoApp {
    /// Contains the capture state that the header shows.
    pub state: CaptureState,
    /// Requests final capture shutdown.
    pub stop: bool,
    /// Omits capture packets while true.
    pub paused: bool,
    /// Contains the destination MP4 path.
    pub output: FilePath,
    /// Contains short feedback for the status panel.
    pub notice: Option<String>,
    /// Reports whether the help overlay is open.
    pub show_help: bool,
    /// Contains the encoded frame width once capture starts.
    pub width: u32,
    /// Contains the encoded frame height once capture starts.
    pub height: u32,
    /// Contains the encoded frame rate once capture starts.
    pub fps: u32,
    /// Contains the AAC sample rate once capture starts.
    pub sample_rate: u32,
    /// Contains milliseconds from start to capture readiness.
    pub capture_ready_ms: Option<Binary64>,
    /// Contains recorded media time, excluding pauses.
    pub recorded: Duration,
    /// Contains the time of the previous look at the clock.
    pub tick: Duration,
}

/// The mathematical value of a [`VideoApp`].
pub struct VideoAppView {
    pub state: CaptureState,
    pub stop: bool,
    pub paused: bool,
    pub output: path::PathView,
    pub notice: Option<Seq<char>>,
    pub show_help: bool,
    pub width: nat,
    pub height: nat,
    pub fps: nat,
    pub sample_rate: nat,
    pub capture_ready_ms: Option<Binary64>,
    pub recorded: nat,
    pub tick: nat,
}

impl View for VideoApp {
    type V = VideoAppView;

    open spec fn view(&self) -> VideoAppView {
        VideoAppView {
            state: self.state,
            stop: self.stop,
            paused: self.paused,
            output: self.output@,
            notice: tui::optional_text(self.notice),
            show_help: self.show_help,
            width: self.width as nat,
            height: self.height as nat,
            fps: self.fps as nat,
            sample_rate: self.sample_rate as nat,
            capture_ready_ms: self.capture_ready_ms,
            recorded: self.recorded@,
            tick: self.tick@,
        }
    }
}

impl VideoAppView {
    /// The state behind a request for the end of the recording.
    pub open spec fn stopping(self) -> VideoAppView {
        VideoAppView { stop: true, state: CaptureState::Finalizing, ..self }
    }

    /// Whether the clock runs.
    pub open spec fn is_running(self) -> bool {
        (self.state == CaptureState::Recording || self.state == CaptureState::Previewing)
            && !self.paused
    }

    /// The state at a later time. The clock counts only while it runs.
    pub open spec fn at_time(self, now: nat) -> VideoAppView {
        VideoAppView {
            recorded: if self.is_running() && now > self.tick {
                self.recorded + (now - self.tick) as nat
            } else {
                self.recorded
            },
            tick: now,
            ..self
        }
    }

    /// The state behind one event.
    pub open spec fn with_event(self, event: VideoEvent) -> VideoAppView {
        match event {
            VideoEvent::Started { width, height, fps, sample_rate, capture_ready_ms } =>
                VideoAppView {
                    width: width as nat,
                    height: height as nat,
                    fps: fps as nat,
                    sample_rate: sample_rate as nat,
                    capture_ready_ms: Some(capture_ready_ms),
                    state: CaptureState::Recording,
                    ..self
                },
            VideoEvent::Notice(message) => VideoAppView { notice: Some(message@), ..self },
            VideoEvent::Finalizing => VideoAppView { state: CaptureState::Finalizing, ..self },
            VideoEvent::Saved(_) => self,
        }
    }

    /// The state behind events in order.
    pub open spec fn with_events(self, events: Seq<VideoEvent>) -> VideoAppView
        decreases events.len(),
    {
        if events.len() == 0 {
            self
        } else {
            self.with_events(events.drop_last()).with_event(events.last())
        }
    }

    /// The state behind a key.
    pub open spec fn key_step(self, key: Key) -> VideoAppView {
        if !key.pressed {
            self
        } else if key.is_interrupt() {
            self.stopping()
        } else if self.show_help {
            if key.code == KeyCode::Esc || key.code == KeyCode::Char('?') {
                VideoAppView { show_help: false, ..self }
            } else {
                self
            }
        } else if key.is_letter('s', 'S') || key.is_letter('q', 'Q') || key.code == KeyCode::Esc {
            self.stopping()
        } else if key.code == KeyCode::Char(' ') && (self.state == CaptureState::Recording
            || self.state == CaptureState::Paused) {
            VideoAppView {
                paused: !self.paused,
                state: if self.paused {
                    CaptureState::Recording
                } else {
                    CaptureState::Paused
                },
                ..self
            }
        } else if key.code == KeyCode::Char('?') {
            VideoAppView { show_help: true, ..self }
        } else {
            self
        }
    }
}

impl VideoApp {
    /// Creates the initial state before the first event arrives.
    pub fn new(output: FilePath, now: Duration) -> (app: VideoApp)
        ensures
            app@ == (VideoAppView {
                state: CaptureState::Starting,
                stop: false,
                paused: false,
                output: output@,
                notice: None,
                show_help: false,
                width: 0,
                height: 0,
                fps: 0,
                sample_rate: 48_000,
                capture_ready_ms: None,
                recorded: 0,
                tick: now@,
            }),
    {
        VideoApp {
            state: CaptureState::Starting,
            stop: false,
            paused: false,
            output,
            notice: None,
            show_help: false,
            width: 0,
            height: 0,
            fps: 0,
            sample_rate: 48_000,
            capture_ready_ms: None,
            recorded: Duration::zero(),
            tick: now,
        }
    }

    /// Adds wall time to the clock only while actively recording.
    pub fn advance_recorded_time(&mut self, now: Duration)
        requires
            old(self)@.at_time(now@).recorded <= crate::time::MAX_NANOSECONDS,
        ensures
            final(self)@ == old(self)@.at_time(now@),
    {
        let current: u128 = now.as_nanos();
        let previous: u128 = self.tick.as_nanos();
        self.tick = now;
        let running = (self.state == CaptureState::Recording || self.state
            == CaptureState::Previewing) && !self.paused;
        if running && current > previous {
            let total: u128 = self.recorded.as_nanos() + (current - previous);
            match Duration::checked_from_nanos(total) {
                Some(recorded) => {
                    self.recorded = recorded;
                },
                None => {},
            }
        }
    }

    /// Applies one event.
    fn apply_event(&mut self, event: VideoEvent)
        ensures
            final(self)@ == old(self)@.with_event(event),
    {
        match event {
            VideoEvent::Started { width, height, fps, sample_rate, capture_ready_ms } => {
                self.width = width;
                self.height = height;
                self.fps = fps;
                self.sample_rate = sample_rate;
                self.capture_ready_ms = Some(capture_ready_ms);
                self.state = CaptureState::Recording;
            },
            VideoEvent::Notice(message) => {
                self.notice = Some(message);
            },
            VideoEvent::Finalizing => {
                self.state = CaptureState::Finalizing;
            },
            VideoEvent::Saved(_) => {},
        }
    }

    /// Applies events in order.
    pub fn apply_events(&mut self, events: Vec<VideoEvent>)
        ensures
            final(self)@ == old(self)@.with_events(events@),
    {
        let ghost all = events@;
        proof {
            assert(all.take(0) =~= Seq::<VideoEvent>::empty());
        }
        for event in iter: events
            invariant
                iter.seq() == all,
                self@ == old(self)@.with_events(all.take(iter.index() as int)),
        {
            proof {
                let index = iter.index() as int;
                assert(all.take(index + 1).drop_last() =~= all.take(index));
                assert(event == all[index]);
            }
            self.apply_event(event);
        }
        proof {
            assert(all.take(all.len() as int) =~= all);
        }
    }

    /// Applies all pending events without waiting for another event.
    pub fn drain_video_events(&mut self, events: &mut Inbox<VideoEvent>)
        ensures
            old(events).taken().is_prefix_of(final(events).taken()),
            final(self)@ == old(self)@.with_events(
                channel::newly_taken(*old(events), *final(events)),
            ),
    {
        let ghost earlier = events.taken();
        let found = events.take_pending();
        proof {
            assert(events.taken().skip(earlier.len() as int) =~= found@);
        }
        self.apply_events(found);
    }

    /// Routes one key to recorder controls or the help overlay.
    pub fn handle_event(&mut self, key: Key)
        ensures
            final(self)@ == old(self)@.key_step(key),
    {
        if !key.pressed {
            return;
        }
        if key.letter('c', 'C') && key.control {
            self.request_stop();
            return;
        }
        if self.show_help {
            match key.code {
                KeyCode::Esc => {
                    self.show_help = false;
                },
                KeyCode::Char('?') => {
                    self.show_help = false;
                },
                _ => {},
            }
            return;
        }
        if key.letter('s', 'S') || key.letter('q', 'Q') {
            self.request_stop();
            return;
        }
        match key.code {
            KeyCode::Esc => {
                self.request_stop();
            },
            KeyCode::Char(' ') => {
                if self.state == CaptureState::Recording || self.state == CaptureState::Paused {
                    self.state = if self.paused {
                        CaptureState::Recording
                    } else {
                        CaptureState::Paused
                    };
                    self.paused = !self.paused;
                }
            },
            KeyCode::Char('?') => {
                self.show_help = true;
            },
            _ => {},
        }
    }

    /// Requests MP4 finalization.
    pub fn request_stop(&mut self)
        ensures
            final(self)@ == old(self)@.stopping(),
    {
        self.stop = true;
        self.state = CaptureState::Finalizing;
    }

    /// Notes whether someone asked for the end of the recording.
    pub fn note_stop(&mut self, stop: bool)
        ensures
            final(self)@ == (if stop {
                VideoAppView { state: CaptureState::Finalizing, ..old(self)@ }
            } else {
                old(self)@
            }),
    {
        if stop {
            self.state = CaptureState::Finalizing;
        }
    }
}

/// The clock stands still during a pause, however long it takes, and pausing
/// and resuming leads back to the state from before.
pub proof fn law_the_clock_stands_still_during_a_pause(app: VideoAppView, key: Key, now: nat)
    requires
        app.state == CaptureState::Recording,
        !app.paused,
        !app.show_help,
        key.pressed,
        key.code == KeyCode::Char(' '),
    ensures
        app.key_step(key).at_time(now).recorded == app.recorded,
        app.key_step(key).key_step(key) == app,
{
}

/// Every way to stop leads to the final state with the stop requested.
pub proof fn law_stop_keys_finalize(app: VideoAppView, key: Key)
    requires
        key.pressed,
        key.is_interrupt() || (!app.show_help && (key.is_letter('s', 'S') || key.is_letter(
            'q',
            'Q',
        ) || key.code == KeyCode::Esc)),
    ensures
        app.key_step(key).stop,
        app.key_step(key).state == CaptureState::Finalizing,
{
}

/// Space switches the pause of a running recording and nothing else. In every
/// other state it has no effect.
pub proof fn law_space_switches_the_pause(app: VideoAppView, key: Key)
    requires
        !app.show_help,
        key.pressed,
        key.code == KeyCode::Char(' '),
    ensures
        ({
            let once = app.key_step(key);
            let twice = once.key_step(key);
            let running = app.state == CaptureState::Recording || app.state
                == CaptureState::Paused;
            &&& once == VideoAppView { paused: once.paused, state: once.state, ..app }
            &&& running ==> once.paused != app.paused
            &&& running ==> once.state == (if once.paused {
                CaptureState::Paused
            } else {
                CaptureState::Recording
            })
            &&& running ==> twice.paused == app.paused
            &&& !running ==> once == app
        }),
{
}

/// While the recording runs, the clock counts exactly the time that passes, in
/// one look or in several. Otherwise it stands.
pub proof fn law_the_clock_counts_recorded_time(app: VideoAppView, first: nat, second: nat)
    requires
        app.tick <= first <= second,
    ensures
        app.state == CaptureState::Recording && !app.paused ==> app.at_time(first).recorded
            == app.recorded + first - app.tick,
        app.paused || app.state == CaptureState::Starting || app.state == CaptureState::Paused
            || app.state == CaptureState::Finalizing ==> app.at_time(first).recorded
            == app.recorded,
        app.at_time(first).at_time(second) == app.at_time(second),
        app.at_time(first) == (VideoAppView {
            recorded: app.at_time(first).recorded,
            tick: first,
            ..app
        }),
{
}

/// A clock that runs backward takes nothing away.
pub proof fn law_the_clock_never_runs_backward(app: VideoAppView, now: nat)
    ensures
        app.at_time(now).recorded >= app.recorded,
        now <= app.tick ==> app.at_time(now).recorded == app.recorded,
{
}

/// The help opens and closes without a trace, and swallows the other keys.
pub proof fn law_help_leaves_no_trace(app: VideoAppView, open: Key, key: Key)
    requires
        !app.show_help,
        open.pressed,
        open.code == KeyCode::Char('?'),
        key.pressed,
        !(key.control && (key.code == KeyCode::Char('c') || key.code == KeyCode::Char('C'))),
    ensures
        app.key_step(open) == (VideoAppView { show_help: true, ..app }),
        key.code == KeyCode::Char('?') || key.code == KeyCode::Esc ==> app.key_step(open).key_step(
            key,
        ) == app,
        key.code != KeyCode::Char('?') && key.code != KeyCode::Esc ==> app.key_step(open).key_step(
            key,
        ) == app.key_step(open),
{
}

/// Only the interrupt and the stop keys ask for the end of the recording, and a
/// released key does nothing.
pub proof fn law_other_keys_do_not_stop(app: VideoAppView, key: Key)
    ensures
        !key.pressed ==> app.key_step(key) == app,
        !app.stop && app.key_step(key).stop ==> (key.control && (key.code == KeyCode::Char('c')
            || key.code == KeyCode::Char('C'))) || (!app.show_help && (key.code == KeyCode::Esc
            || key.code == KeyCode::Char('s') || key.code == KeyCode::Char('S') || key.code
            == KeyCode::Char('q') || key.code == KeyCode::Char('Q'))),
        app.key_step(key).recorded == app.recorded,
        app.key_step(key).output == app.output,
{
}

/// What the events of the video thread change: a start sets the format and the
/// state, a message and the end are shown. Nothing else changes.
pub proof fn law_events_change_what_they_report(app: VideoAppView, event: VideoEvent)
    ensures
        ({
            let after = app.with_event(event);
            &&& event is Started ==> {
                &&& after.width == event->width && after.height == event->height
                &&& after.fps == event->fps && after.sample_rate == event->sample_rate
                &&& after.capture_ready_ms == Some(event->capture_ready_ms)
                &&& after.state == CaptureState::Recording
                &&& after.recorded == app.recorded && after.paused == app.paused && after.stop
                    == app.stop && after.output == app.output
            }
            &&& event is Notice ==> after == VideoAppView {
                notice: Some(event->Notice_0@),
                ..app
            }
            &&& event is Finalizing ==> after == VideoAppView {
                state: CaptureState::Finalizing,
                ..app
            }
            &&& event is Saved ==> after == app
        }),
{
}

/// Two rounds of events are one round of both.
pub proof fn law_rounds_join(app: VideoAppView, first: Seq<VideoEvent>, second: Seq<VideoEvent>)
    ensures
        app.with_events(first).with_events(second) == app.with_events(first + second),
    decreases second.len(),
{
    if second.len() == 0 {
        assert(first + second =~= first);
    } else {
        law_rounds_join(app, first, second.drop_last());
        assert((first + second).drop_last() =~= first + second.drop_last());
        assert((first + second).last() == second.last());
    }
}

/// A new interface waits for the start of a recording that runs without a pause,
/// with its clock at zero.
pub proof fn law_new_interfaces_wait_for_the_start(output: FilePath, now: Duration, app: VideoApp)
    requires
        call_ensures(VideoApp::new, (output, now), app),
    ensures
        app.state == CaptureState::Starting,
        !app.stop && !app.paused && !app.show_help,
        app@.recorded == 0 && app@.tick == now@,
        app@.output == output@,
        app.notice is None,
{
}

/// What a key does in the screen recorder: space switches the pause, the stop keys
/// end the recording, and `?` opens the help. A released key does nothing.
pub proof fn law_handled_keys_do_what_they_say(app: &mut VideoApp, key: Key)
    requires
        call_ensures(VideoApp::handle_event, (app, key), ()),
        !old(app)@.show_help,
        !key.control,
    ensures
        ({
            let before = old(app)@;
            let after = final(app)@;
            let running = before.state == CaptureState::Recording || before.state
                == CaptureState::Paused;
            &&& !key.pressed ==> after == before
            &&& key.pressed && key.code == KeyCode::Char(' ') && running ==> after.paused
                != before.paused && after.state == (if before.paused {
                CaptureState::Recording
            } else {
                CaptureState::Paused
            })
            &&& key.pressed && key.code == KeyCode::Char(' ') && !running ==> after == before
            &&& key.pressed && (key.code == KeyCode::Char('s') || key.code == KeyCode::Char('q')
                || key.code == KeyCode::Esc) ==> after.stop && after.state
                == CaptureState::Finalizing
            &&& key.pressed && key.code == KeyCode::Char('?') ==> after.show_help && after.state
                == before.state
            &&& after.recorded == before.recorded && after.output == before.output
        }),
{
}

/// The clock advances by the time since the last look while the recording runs,
/// and not at all otherwise. Every look is remembered.
pub proof fn law_clocks_advance_while_recording(app: &mut VideoApp, now: Duration)
    requires
        call_ensures(VideoApp::advance_recorded_time, (app, now), ()),
        old(app)@.tick <= now@,
    ensures
        old(app)@.state == CaptureState::Recording && !old(app)@.paused ==> final(app)@.recorded
            == old(app)@.recorded + (now@ - old(app)@.tick),
        old(app)@.paused || old(app)@.state == CaptureState::Starting || old(app)@.state
            == CaptureState::Paused || old(app)@.state == CaptureState::Finalizing ==> final(
            app)@.recorded == old(app)@.recorded,
        final(app)@.tick == now@,
        final(app)@.state == old(app)@.state,
{
}

/// A request for the end is final, whoever makes it.
pub proof fn law_stop_requests_finalize(app: &mut VideoApp)
    requires
        call_ensures(VideoApp::request_stop, (app,), ()),
    ensures
        final(app)@.stop && final(app)@.state == CaptureState::Finalizing,
        final(app)@.recorded == old(app)@.recorded && final(app)@.notice == old(app)@.notice,
{
}

/// Someone who asks for the end finds the recording at its end, and nobody else
/// changes anything.
pub proof fn law_noted_stops_finalize(app: &mut VideoApp, stop: bool)
    requires
        call_ensures(VideoApp::note_stop, (app, stop), ()),
    ensures
        stop ==> final(app)@.state == CaptureState::Finalizing,
        !stop ==> final(app)@ == old(app)@,
        final(app)@ == (VideoAppView { state: final(app)@.state, ..old(app)@ }),
{
}

} // verus!
