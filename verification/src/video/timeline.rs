//! One media clock for video and audio.
//!
//! Video samples are stamped with recorded time, which advances by one frame
//! interval for every written frame and never while capture is paused. The
//! desktop does not update all the time, so the last frame repeats. The audio
//! side fills short gaps with silence. A pause stays out of both streams.
use vstd::prelude::*;

use crate::audio::capture;
use crate::audio::capture::SILENT_FLAG;
use crate::audio::wave;
use crate::binary64;
use crate::binary64::error;
use crate::binary64::nearest_binary64;
use crate::natural::Natural;
use crate::session;
use crate::session::segment_frame_limit;
use crate::time::Duration;

verus! {

/// The longest sleep between two looks at the clock, in nanoseconds.
pub const LONGEST_SLEEP: u128 = 8_000_000;

/// A frame rate of at least one frame per second.
pub open spec fn usable_fps(fps: nat) -> nat {
    if fps < 1 {
        1
    } else {
        fps
    }
}

/// The nanoseconds of one frame.
pub open spec fn interval_of(fps: nat) -> nat {
    binary64::nearest(1, usable_fps(fps)).nanoseconds()
}

/// Returns the per-frame media duration in 100 nanosecond units.
///
/// The encoder rejects video samples without an explicit duration, so every
/// frame carries its share of a second even when the desktop did not update.
#[must_use]
pub fn frame_duration_100ns(fps: u32) -> (duration: i64)
    ensures
        duration == 10_000_000int / (usable_fps(fps as nat) as int),
{
    let rate: u64 = if fps < 1 {
        1
    } else {
        fps as u64
    };
    (10_000_000 / rate) as i64
}

/// A double-precision quotient of one second has a nanosecond count.
proof fn lemma_interval_is_in_range(fps: nat)
    requires
        fps >= 1,
    ensures
        !binary64::nearest(1, fps).overflows(),
        binary64::nearest(1, fps).is_below_power(64),
{
    vstd::arithmetic::power2::lemma2_to64();
    assert(1 <= fps * vstd::arithmetic::power2::pow2(0)) by (nonlinear_arith)
        requires
            fps >= 1,
            vstd::arithmetic::power2::pow2(0) == 1,
    ;
    binary64::lemma_rounding_keeps_limit(1, fps, 0);
    let value = binary64::nearest(1, fps);
    let d = value.denominator();
    assert(d * vstd::arithmetic::power2::pow2(0) < d * vstd::arithmetic::power2::pow2(64))
        by (nonlinear_arith)
        requires
            d > 0,
            vstd::arithmetic::power2::pow2(0) == 1,
            vstd::arithmetic::power2::pow2(64) > 1,
    ;
}

/// Returns the time of one frame.
pub fn frame_interval(fps: u32) -> (interval: Duration)
    ensures
        interval@ == interval_of(fps as nat),
{
    let rate: u64 = if fps < 1 {
        1
    } else {
        fps as u64
    };
    proof {
        lemma_interval_is_in_range(rate as nat);
    }
    match nearest_binary64(&Natural::from_word(1), &Natural::from_word(rate)) {
        None => Duration::zero(),
        Some(seconds) => match seconds.seconds() {
            Some(interval) => interval,
            None => Duration::zero(),
        },
    }
}

/// Tracks encoded media time that only advances while capture is not paused.
///
/// Wall-clock timestamps would race ahead of the self-clocked audio timeline
/// during a pause, so video samples stamp this accumulated value instead.
#[derive(Clone, Copy, Debug, PartialEq, Eq, Structural)]
pub struct RecordedTime {
    value: Duration,
}

impl View for RecordedTime {
    type V = nat;

    closed spec fn view(&self) -> nat {
        self.value@
    }
}

impl RecordedTime {
    /// Creates a zeroed media clock.
    pub fn new() -> (clock: RecordedTime)
        ensures
            clock@ == 0,
    {
        RecordedTime { value: Duration::zero() }
    }

    /// Adds one frame interval unless the recorder is paused.
    pub fn tick(&mut self, interval: Duration, paused: bool)
        requires
            !paused ==> old(self)@ + interval@ <= crate::time::MAX_NANOSECONDS,
        ensures
            final(self)@ == (if paused {
                old(self)@
            } else {
                old(self)@ + interval@
            }),
    {
        if !paused {
            match self.value.checked_sum(&interval) {
                Some(sum) => {
                    self.value = sum;
                },
                None => {},
            }
        }
    }

    /// Returns the current media timestamp for encoded samples.
    pub fn value(&self) -> (value: Duration)
        ensures
            value@ == self@,
    {
        self.value
    }
}

/// What the desktop showed at a frame time.
#[derive(Clone, Copy, Debug, PartialEq, Eq, Structural)]
pub enum ScreenUpdate {
    /// The desktop has a new picture.
    Changed,
    /// The desktop did not update.
    Unchanged,
    /// The system invalidated the capture session.
    Invalidated,
}

/// What the video thread does at a frame time.
#[derive(Clone, Copy, Debug, PartialEq, Eq, Structural)]
pub enum FrameWork {
    /// Convert and write the new picture.
    WriteNew,
    /// Write the last picture again.
    RepeatLast,
    /// Write a black picture, so that an idle screen still starts the timeline.
    WriteBlack,
    /// Recreate the capture session.
    Recreate,
}

/// What to do with one audio packet.
#[derive(Clone, Copy, Debug, PartialEq, Eq, Structural)]
pub struct AudioPacket {
    /// Whether the packet is encoded.
    pub encode: bool,
    /// Silent frames to encode in front of the packet.
    pub silence: u64,
    /// Whether the packet counts as silence.
    pub silent: bool,
    /// Bytes to read from the packet.
    pub byte_length: usize,
}

/// Keeps the state of one screen recording.
#[derive(Debug)]
pub struct VideoTimeline {
    limit: Option<u64>,
    interval: Duration,
    recorded: RecordedTime,
    frames: u64,
    expected: Option<u64>,
    was_paused: bool,
    has_picture: bool,
}

/// The mathematical value of a [`VideoTimeline`].
pub struct TimelineView {
    pub limit: Option<nat>,
    pub interval: nat,
    pub recorded: nat,
    pub frames: nat,
    pub expected: Option<nat>,
    pub was_paused: bool,
    pub has_picture: bool,
}

/// The mathematical value of an optional count.
pub open spec fn optional_count(count: Option<u64>) -> Option<nat> {
    match count {
        Some(count) => Some(count as nat),
        None => None,
    }
}

/// The number of frames after which a recording stops by itself: those of the
/// requested length, and at least one.
pub open spec fn frame_limit(duration: Option<nat>, fps: nat) -> Option<nat> {
    match duration {
        Some(nanoseconds) => Some(session::frame_limit(nanoseconds, usable_fps(fps))),
        None => None,
    }
}

impl View for VideoTimeline {
    type V = TimelineView;

    closed spec fn view(&self) -> TimelineView {
        TimelineView {
            limit: optional_count(self.limit),
            interval: self.interval@,
            recorded: self.recorded@,
            frames: self.frames as nat,
            expected: optional_count(self.expected),
            was_paused: self.was_paused,
            has_picture: self.has_picture,
        }
    }
}

impl TimelineView {
    /// The recorded time is that of the written frames.
    pub open spec fn wf(self) -> bool {
        self.recorded == self.frames * self.interval
    }

    /// The state after the look at the pause switch for a frame.
    pub open spec fn at_frame(self, paused: bool) -> TimelineView {
        TimelineView {
            expected: if self.was_paused && !paused {
                None
            } else {
                self.expected
            },
            was_paused: paused,
            ..self
        }
    }

    /// The state after one written frame.
    pub open spec fn with_frame(self) -> TimelineView {
        TimelineView {
            recorded: self.recorded + self.interval,
            frames: self.frames + 1,
            has_picture: true,
            ..self
        }
    }

    /// The state after the capture session was recreated.
    pub open spec fn without_picture(self) -> TimelineView {
        TimelineView { has_picture: false, ..self }
    }

    /// The work for what the desktop showed.
    pub open spec fn work(self, update: ScreenUpdate) -> FrameWork {
        match update {
            ScreenUpdate::Changed => FrameWork::WriteNew,
            ScreenUpdate::Unchanged => if self.has_picture {
                FrameWork::RepeatLast
            } else {
                FrameWork::WriteBlack
            },
            ScreenUpdate::Invalidated => FrameWork::Recreate,
        }
    }

    /// The state after an audio packet.
    pub open spec fn with_packet(self, paused: bool, position: nat, frames: nat) -> TimelineView {
        TimelineView {
            expected: if paused {
                self.expected
            } else {
                Some(position + frames)
            },
            ..self
        }
    }
}

impl VideoTimeline {
    /// Starts a recording at a frame rate.
    pub fn new(fps: u32, duration: Option<Duration>) -> (timeline: VideoTimeline)
        ensures
            timeline@.wf(),
            timeline@ == (TimelineView {
                limit: frame_limit(
                    match duration {
                        Some(duration) => Some(duration@),
                        None => None,
                    },
                    fps as nat,
                ),
                interval: interval_of(fps as nat),
                recorded: 0,
                frames: 0,
                expected: None,
                was_paused: false,
                has_picture: false,
            }),
    {
        let rate: u32 = if fps < 1 {
            1
        } else {
            fps
        };
        let limit: Option<u64> = match duration {
            Some(duration) => Some(segment_frame_limit(duration, rate)),
            None => None,
        };
        let timeline = VideoTimeline {
            limit,
            interval: frame_interval(fps),
            recorded: RecordedTime::new(),
            frames: 0,
            expected: None,
            was_paused: false,
            has_picture: false,
        };
        proof {
            assert(0 * timeline@.interval == 0) by (nonlinear_arith);
        }
        timeline
    }

    /// Returns the time of one frame.
    pub fn interval(&self) -> (interval: Duration)
        ensures
            interval@ == self@.interval,
    {
        self.interval
    }

    /// Returns the number of written frames.
    pub fn frames(&self) -> (frames: u64)
        ensures
            frames == self@.frames,
    {
        self.frames
    }

    /// Reports whether the recording goes on.
    pub fn keeps_recording(&self, stop: bool) -> (record: bool)
        ensures
            record == (!stop && (self@.limit is Some ==> self@.frames < self@.limit->0)),
    {
        match self.limit {
            Some(limit) => !stop && self.frames < limit,
            None => !stop,
        }
    }

    /// Looks at the pause switch for a frame.
    ///
    /// Wall time advanced while paused. The end of a pause rebases the audio
    /// gap detector, so that the paused span stays out of both streams instead
    /// of becoming silence under a frozen video timeline.
    pub fn begin_frame(&mut self, paused: bool)
        ensures
            final(self)@ == old(self)@.at_frame(paused),
    {
        if self.was_paused && !paused {
            self.expected = None;
        }
        self.was_paused = paused;
    }

    /// Decides what to do with what the desktop showed.
    pub fn frame_work(&self, update: ScreenUpdate) -> (work: FrameWork)
        ensures
            work == self@.work(update),
    {
        match update {
            ScreenUpdate::Changed => FrameWork::WriteNew,
            ScreenUpdate::Unchanged => if self.has_picture {
                FrameWork::RepeatLast
            } else {
                FrameWork::WriteBlack
            },
            ScreenUpdate::Invalidated => FrameWork::Recreate,
        }
    }

    /// Returns the encoder time of the next frame.
    pub fn timestamp(&self) -> (time: i64)
        ensures
            time == wave::wrapped_time(self@.recorded / 100),
    {
        wave::wrap_time(self.recorded.value().as_nanos() / 100)
    }

    /// Counts one written frame and advances the media clock.
    pub fn wrote_frame(&mut self)
        requires
            old(self)@.wf(),
            old(self)@.frames < u64::MAX,
            old(self)@.recorded + old(self)@.interval <= crate::time::MAX_NANOSECONDS,
        ensures
            final(self)@ == old(self)@.with_frame(),
            final(self)@.wf(),
    {
        let interval = self.interval;
        let ghost before = self@;
        self.recorded.tick(interval, false);
        self.frames = self.frames + 1;
        self.has_picture = true;
        proof {
            assert((before.frames + 1) * before.interval == before.frames * before.interval
                + before.interval) by (nonlinear_arith);
        }
    }

    /// Forgets the last picture after the capture session was recreated.
    pub fn recreated(&mut self)
        ensures
            final(self)@ == old(self)@.without_picture(),
    {
        self.has_picture = false;
    }

    /// Decides what happens to one audio packet. Packets of a pause are dropped.
    pub fn plan_audio(
        &mut self,
        paused: bool,
        position: u64,
        frames: u32,
        flags: u32,
        sample_rate: u32,
        block_align: usize,
    ) -> (packet: AudioPacket)
        requires
            position + frames <= u64::MAX,
            frames * block_align <= usize::MAX,
        ensures
            final(self)@ == old(self)@.with_packet(paused, position as nat, frames as nat),
            packet.encode == !paused,
            packet.silent == (flags / SILENT_FLAG % 2 == 1),
            packet.silence == (if paused {
                0
            } else {
                capture::inserted_silence(
                    old(self)@.expected,
                    position as nat,
                    sample_rate as nat,
                )
            }),
            packet.byte_length == (if paused || packet.silent {
                0
            } else {
                frames * block_align
            }),
    {
        let plan = capture::plan_packet(
            paused,
            self.expected,
            position,
            frames,
            flags,
            sample_rate,
            block_align,
        );
        if !paused {
            self.expected = Some(plan.next_position);
        }
        AudioPacket {
            encode: plan.encode,
            silence: plan.silence,
            silent: plan.silent,
            byte_length: plan.byte_length,
        }
    }
}

/// Returns how long to sleep before the next frame, when it is not due.
pub fn time_before_frame(now: Duration, due: Duration) -> (sleep: Option<Duration>)
    ensures
        sleep is Some <==> now@ < due@,
        sleep is Some ==> sleep->0@ == (if due@ - now@ < LONGEST_SLEEP {
            due@ - now@
        } else {
            LONGEST_SLEEP as int
        }),
{
    let current: u128 = now.as_nanos();
    let next: u128 = due.as_nanos();
    if current >= next {
        return None;
    }
    let left: u128 = next - current;
    Duration::checked_from_nanos(
        if left < LONGEST_SLEEP {
            left
        } else {
            LONGEST_SLEEP
        },
    )
}

/// A pause leaves no trace in either stream: it moves neither the media clock
/// nor the frame count, and the first packet behind it gets no silence.
pub proof fn law_pauses_stay_out_of_both_streams(
    timeline: TimelineView,
    position: nat,
    frames: nat,
    sample_rate: nat,
)
    ensures
        ({
            let paused = timeline.at_frame(true).with_packet(true, position, frames);
            let resumed = paused.at_frame(false);
            &&& resumed.recorded == timeline.recorded
            &&& resumed.frames == timeline.frames
            &&& capture::inserted_silence(resumed.expected, position, sample_rate) == 0
        }),
{
}

/// The media clock is that of the written frames, whatever pauses, packets, and
/// new sessions came between them.
pub proof fn law_recorded_time_counts_frames(timeline: TimelineView, paused: bool, position: nat,
    packet: nat)
    requires
        timeline.wf(),
    ensures
        timeline.with_frame().wf(),
        timeline.at_frame(paused).wf(),
        timeline.with_packet(paused, position, packet).wf(),
        timeline.with_frame().recorded == timeline.recorded + timeline.interval,
{
    assert((timeline.frames + 1) * timeline.interval == timeline.frames * timeline.interval
        + timeline.interval) by (nonlinear_arith);
}

/// One thing that happens to a screen recording.
pub enum TimelineStep {
    /// The pause switch is looked at for a frame.
    Frame(bool),
    /// A frame was written.
    Wrote,
    /// The capture session was recreated.
    Recreated,
    /// An audio packet came: whether the recording was paused, its position, and
    /// its frames.
    Packet(bool, nat, nat),
}

impl TimelineView {
    /// The state after one thing.
    pub open spec fn after_step(self, step: TimelineStep) -> TimelineView {
        match step {
            TimelineStep::Frame(paused) => self.at_frame(paused),
            TimelineStep::Wrote => self.with_frame(),
            TimelineStep::Recreated => self.without_picture(),
            TimelineStep::Packet(paused, position, frames) => self.with_packet(
                paused,
                position,
                frames,
            ),
        }
    }

    /// The state after several things, in order.
    pub open spec fn after(self, steps: Seq<TimelineStep>) -> TimelineView
        decreases steps.len(),
    {
        if steps.len() == 0 {
            self
        } else {
            self.after(steps.drop_last()).after_step(steps.last())
        }
    }
}

/// Whether a frame was written and the capture session not recreated since.
pub open spec fn shows_a_picture(steps: Seq<TimelineStep>) -> bool {
    exists|i: int|
        0 <= i < steps.len() && (#[trigger] steps[i]) is Wrote && forall|j: int|
            i < j < steps.len() ==> !((#[trigger] steps[j]) is Recreated)
}

/// The number of frames that were written.
pub open spec fn frames_written(steps: Seq<TimelineStep>) -> nat
    decreases steps.len(),
{
    if steps.len() == 0 {
        0
    } else {
        frames_written(steps.drop_last()) + (if steps.last() is Wrote {
            1nat
        } else {
            0
        })
    }
}

/// An idle desktop repeats the last picture. A black picture is written only
/// while there is none: before the first frame, and behind a new capture
/// session. A new picture is written, and a lost session is recreated.
pub proof fn law_idle_screens_repeat_the_last_picture(
    fps: u32,
    duration: Option<Duration>,
    started: VideoTimeline,
    steps: Seq<TimelineStep>,
    later: VideoTimeline,
    update: ScreenUpdate,
    work: FrameWork,
)
    requires
        call_ensures(VideoTimeline::new, (fps, duration), started),
        later@ == started@.after(steps),
        call_ensures(VideoTimeline::frame_work, (&later, update), work),
    ensures
        update == ScreenUpdate::Changed <==> work == FrameWork::WriteNew,
        update == ScreenUpdate::Invalidated <==> work == FrameWork::Recreate,
        work == FrameWork::RepeatLast <==> update == ScreenUpdate::Unchanged && shows_a_picture(
            steps,
        ),
        work == FrameWork::WriteBlack <==> update == ScreenUpdate::Unchanged && !shows_a_picture(
            steps,
        ),
{
    lemma_pictures_are_remembered(started@, steps);
}

/// A picture is there exactly when a frame was written since the session began.
proof fn lemma_pictures_are_remembered(started: TimelineView, steps: Seq<TimelineStep>)
    requires
        !started.has_picture,
    ensures
        started.after(steps).has_picture <==> shows_a_picture(steps),
    decreases steps.len(),
{
    if steps.len() > 0 {
        let front = steps.drop_last();
        let last = steps.len() - 1;
        lemma_pictures_are_remembered(started, front);
        if steps.last() is Wrote {
            assert(steps[last] is Wrote);
        } else if steps.last() is Recreated {
            if shows_a_picture(steps) {
                let i = choose|i: int|
                    0 <= i < steps.len() && (#[trigger] steps[i]) is Wrote && forall|j: int|
                        i < j < steps.len() ==> !((#[trigger] steps[j]) is Recreated);
                assert(!(steps[last] is Recreated));
            }
        } else {
            if shows_a_picture(front) {
                let i = choose|i: int|
                    0 <= i < front.len() && (#[trigger] front[i]) is Wrote && forall|j: int|
                        i < j < front.len() ==> !((#[trigger] front[j]) is Recreated);
                assert(steps[i] is Wrote);
                assert forall|j: int| i < j < steps.len() implies !((#[trigger] steps[j])
                    is Recreated) by {
                    if j < last {
                        assert(!(front[j] is Recreated));
                    }
                }
            }
            if shows_a_picture(steps) {
                let i = choose|i: int|
                    0 <= i < steps.len() && (#[trigger] steps[i]) is Wrote && forall|j: int|
                        i < j < steps.len() ==> !((#[trigger] steps[j]) is Recreated);
                assert(front[i] is Wrote);
                assert forall|j: int| i < j < front.len() implies !((#[trigger] front[j])
                    is Recreated) by {
                    assert(!(steps[j] is Recreated));
                }
            }
        }
    }
}

/// Every frame is stamped with the time of the frames in front of it, in units
/// of 100 nanoseconds: pauses, audio packets, and new sessions take no time.
pub proof fn law_frames_are_stamped_one_by_one(
    fps: u32,
    duration: Option<Duration>,
    started: VideoTimeline,
    steps: Seq<TimelineStep>,
    later: VideoTimeline,
    interval: Duration,
    frames: u64,
    time: i64,
)
    requires
        call_ensures(VideoTimeline::new, (fps, duration), started),
        later@ == started@.after(steps),
        call_ensures(frame_interval, (fps,), interval),
        call_ensures(VideoTimeline::frames, (&later,), frames),
        call_ensures(VideoTimeline::timestamp, (&later,), time),
        frames_written(steps) * interval@ < 0x8000_0000_0000_0000,
    ensures
        frames == frames_written(steps),
        time == frames_written(steps) * interval@ / 100,
{
    lemma_frames_are_counted(started@, steps);
    let total = frames_written(steps) * interval@;
    assert(0 <= total);
    vstd::arithmetic::div_mod::lemma_div_is_ordered_by_denominator(total as int, 1, 100);
}

/// Only written frames move the media clock.
proof fn lemma_frames_are_counted(started: TimelineView, steps: Seq<TimelineStep>)
    requires
        started.frames == 0,
        started.recorded == 0,
    ensures
        started.after(steps).frames == frames_written(steps),
        started.after(steps).recorded == frames_written(steps) * started.interval,
        started.after(steps).interval == started.interval,
        started.after(steps).limit == started.limit,
    decreases steps.len(),
{
    if steps.len() == 0 {
        assert(0 * started.interval == 0) by (nonlinear_arith);
    } else {
        let front = steps.drop_last();
        lemma_frames_are_counted(started, front);
        let count = frames_written(front);
        assert((count + 1) * started.interval == count * started.interval + started.interval)
            by (nonlinear_arith);
    }
}

/// A recording without a length goes on until someone stops it. One with a
/// length ends behind the last whole frame of that length, and not before.
pub proof fn law_recordings_have_their_length(
    fps: u32,
    duration: Option<Duration>,
    started: VideoTimeline,
    steps: Seq<TimelineStep>,
    later: VideoTimeline,
    stop: bool,
    record: bool,
)
    requires
        call_ensures(VideoTimeline::new, (fps, duration), started),
        later@ == started@.after(steps),
        call_ensures(VideoTimeline::keeps_recording, (&later, stop), record),
        frames_written(steps) < u64::MAX,
    ensures
        stop ==> !record,
        !stop && duration is None ==> record,
        !stop && duration is Some ==> ({
            let rate = if fps == 0 {
                1nat
            } else {
                fps as nat
            };
            record <==> frames_written(steps) == 0 || (frames_written(steps) + 1) * 1_000_000_000
                <= duration->0@ * rate
        }),
{
    lemma_frames_are_counted(started@, steps);
    if duration is Some {
        let rate = usable_fps(fps as nat);
        let product = duration->0@ * rate;
        let limit = product / 1_000_000_000;
        let count = frames_written(steps);
        vstd::arithmetic::div_mod::lemma_fundamental_div_mod(product as int, 1_000_000_000);
        assert(count < limit <==> (count + 1) * 1_000_000_000 <= product);
    }
}

/// An audio packet is encoded unless the recording is paused. A gap in front of
/// it becomes silence of the same length, as long as it is short, and a packet
/// that continues the one before it gets none.
pub proof fn law_audio_gaps_become_silence(
    timeline: TimelineView,
    position: nat,
    frames: nat,
    gap: nat,
    sample_rate: nat,
)
    requires
        gap <= 5 * sample_rate,
    ensures
        ({
            let after = timeline.with_packet(false, position, frames);
            &&& capture::inserted_silence(after.expected, position + frames + gap, sample_rate)
                == gap
            &&& timeline.with_packet(true, position, frames) == timeline
        }),
{
}

/// The wait for a frame never passes the frame and never takes more than eight
/// milliseconds, and a frame that is due is not waited for.
pub proof fn law_waits_end_at_the_frame(now: Duration, due: Duration, sleep: Option<Duration>)
    requires
        call_ensures(time_before_frame, (now, due), sleep),
    ensures
        sleep is None <==> due@ <= now@,
        sleep is Some ==> 0 < sleep->0@ <= 8_000_000 && now@ + sleep->0@ <= due@,
        sleep is Some && sleep->0@ < 8_000_000 ==> now@ + sleep->0@ == due@,
{
}

/// The media duration of a frame is its share of a second in units of 100
/// nanoseconds, rounded down.
pub proof fn law_frame_durations_share_a_second(fps: u32, duration: i64)
    requires
        call_ensures(frame_duration_100ns, (fps,), duration),
    ensures
        fps == 0 ==> duration == 10_000_000,
        fps > 0 ==> duration * fps <= 10_000_000 < (duration + 1) * fps,
{
    if fps > 0 {
        let rate = fps as int;
        let quotient = 10_000_000int / rate;
        vstd::arithmetic::div_mod::lemma_fundamental_div_mod(10_000_000, rate);
        vstd::arithmetic::div_mod::lemma_mod_bound(10_000_000, rate);
        assert(quotient * rate <= 10_000_000 < (quotient + 1) * rate) by (nonlinear_arith)
            requires
                10_000_000 == rate * quotient + 10_000_000int % rate,
                0 <= 10_000_000int % rate < rate,
        ;
    }
}

/// The time of one frame is its share of a second, to the nearest nanosecond.
pub proof fn law_frame_intervals_share_a_second(fps: u32, interval: Duration)
    requires
        call_ensures(frame_interval, (fps,), interval),
    ensures
        fps == 0 ==> interval@ == 1_000_000_000,
        fps > 0 ==> 2 * (interval@ * fps) <= 2_000_000_000 + fps && 2_000_000_000 <= 2 * (interval@
            * fps) + fps,
{
    let rate = usable_fps(fps as nat);
    let units = interval@;
    let p = error::parts();
    error::lemma_ordinary_size(1, rate);
    error::lemma_nearest_is_about(1, rate);
    error::lemma_units_are_close(binary64::nearest(1, rate), 1, rate, 2, 1_000_000_000);
    let product = units * rate;
    assert(2 * product * p <= 2_000_000_000 * (p + 2) + rate * p);
    assert(2 * product <= 2_000_000_000 + rate) by (nonlinear_arith)
        requires
            2 * product * p <= 2_000_000_000 * (p + 2) + rate * p,
            p == 0x20_0000_0000_0000,
    ;
    let reach = (2 * units + 1) * rate;
    assert(reach == 2 * product + rate) by (nonlinear_arith)
        requires
            reach == (2 * units + 1) * rate,
            product == units * rate,
    ;
    assert(2_000_000_000 <= reach) by (nonlinear_arith)
        requires
            2_000_000_000 * p <= reach * (p + 2),
            p == 0x20_0000_0000_0000,
    ;
    if fps == 0 {
        assert(product == units);
    }
}

/// The media clock stands still during a pause and otherwise advances by the
/// interval.
pub proof fn law_clocks_stand_still_during_a_pause(
    clock: &mut RecordedTime,
    interval: Duration,
    paused: bool,
)
    requires
        call_ensures(RecordedTime::tick, (clock, interval, paused), ()),
    ensures
        paused ==> final(clock)@ == old(clock)@,
        !paused ==> final(clock)@ == old(clock)@ + interval@,
{
}

/// A written frame counts one, advances the clock by one interval, and leaves a
/// picture behind. It changes neither the length nor the audio.
pub proof fn law_written_frames_count_one(timeline: &mut VideoTimeline)
    requires
        call_ensures(VideoTimeline::wrote_frame, (timeline,), ()),
    ensures
        final(timeline)@.frames == old(timeline)@.frames + 1,
        final(timeline)@.recorded == old(timeline)@.recorded + old(timeline)@.interval,
        final(timeline)@.has_picture,
        final(timeline)@.limit == old(timeline)@.limit,
        final(timeline)@.interval == old(timeline)@.interval,
        final(timeline)@.expected == old(timeline)@.expected,
        final(timeline)@.was_paused == old(timeline)@.was_paused,
{
}

/// A new capture session has no picture yet, and keeps the clock and the audio.
pub proof fn law_new_sessions_have_no_picture(
    timeline: &mut VideoTimeline,
)
    requires
        call_ensures(VideoTimeline::recreated, (timeline,), ()),
    ensures
        !final(timeline)@.has_picture,
        final(timeline)@ == (TimelineView { has_picture: false, ..old(timeline)@ }),
{
}

/// A frame time moves nothing by itself. Only the end of a pause forgets where
/// the audio was.
pub proof fn law_frame_times_move_nothing(timeline: &mut VideoTimeline, paused: bool)
    requires
        call_ensures(VideoTimeline::begin_frame, (timeline, paused), ()),
    ensures
        final(timeline)@.was_paused == paused,
        old(timeline)@.was_paused && !paused ==> final(timeline)@.expected is None,
        !old(timeline)@.was_paused || paused ==> final(timeline)@.expected
            == old(timeline)@.expected,
        final(timeline)@ == (TimelineView {
            was_paused: final(timeline)@.was_paused,
            expected: final(timeline)@.expected,
            ..old(timeline)@
        }),
{
}

/// An audio packet moves the expected position behind it, and nothing else. A
/// packet of a pause is dropped without a trace.
pub proof fn law_packets_move_the_expected_position(
    timeline: &mut VideoTimeline,
    paused: bool,
    position: u64,
    frames: u32,
    flags: u32,
    sample_rate: u32,
    block_align: usize,
    packet: AudioPacket,
)
    requires
        call_ensures(
            VideoTimeline::plan_audio,
            (timeline, paused, position, frames, flags, sample_rate, block_align),
            packet,
        ),
    ensures
        paused ==> !packet.encode && packet.silence == 0 && packet.byte_length == 0
            && final(timeline)@ == old(timeline)@,
        !paused ==> packet.encode && final(timeline)@.expected == Some(
            (position + frames) as nat,
        ),
        !paused && old(timeline)@.expected is None ==> packet.silence == 0,
        !paused && old(timeline)@.expected is Some && position <= old(timeline)@.expected->0
            ==> packet.silence == 0,
        !paused && !packet.silent ==> packet.byte_length == frames * block_align,
        packet.silent ==> packet.byte_length == 0,
        final(timeline)@ == (TimelineView {
            expected: final(timeline)@.expected,
            ..old(timeline)@
        }),
{
}

/// A recording goes on until someone stops it or its frames are complete.
pub proof fn law_recordings_go_on_to_their_length(
    timeline: VideoTimeline,
    stop: bool,
    record: bool,
)
    requires
        call_ensures(VideoTimeline::keeps_recording, (&timeline, stop), record),
    ensures
        stop ==> !record,
        !stop && timeline@.limit is None ==> record,
        !stop && timeline@.limit is Some ==> (record <==> timeline@.frames < timeline@.limit->0),
{
}

} // verus!
