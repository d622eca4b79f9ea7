//! The capture loop, one turn at a time.
//!
//! The capture thread performs a turn and reports what came of it. The report
//! decides the next turn. Every round looks at the stop switch, applies pending
//! clip requests, waits for the device, and takes all its packets.
use vstd::prelude::*;

use crate::audio::capture;
use crate::audio::capture::{plan_packet, PacketPlan, SILENT_FLAG};
use crate::text;

verus! {

/// What the capture thread does next.
#[derive(Debug)]
pub enum Turn {
    /// Look at the stop switch.
    Look,
    /// Apply the pending clip requests.
    Serve,
    /// Wait for the device.
    Wait,
    /// Take one packet.
    Take,
    /// Encode the packet that was taken.
    Encode(PacketPlan),
    /// Finalize the recording.
    Finish,
    /// Stop with the error of the system.
    SystemError,
    /// Stop with this message.
    Unexpected(String),
}

/// The mathematical value of a [`Turn`].
pub enum TurnView {
    Look,
    Serve,
    Wait,
    Take,
    Encode(PacketPlan),
    Finish,
    SystemError,
    Unexpected(Seq<char>),
}

impl View for Turn {
    type V = TurnView;

    open spec fn view(&self) -> TurnView {
        match self {
            Turn::Look => TurnView::Look,
            Turn::Serve => TurnView::Serve,
            Turn::Wait => TurnView::Wait,
            Turn::Take => TurnView::Take,
            Turn::Encode(plan) => TurnView::Encode(*plan),
            Turn::Finish => TurnView::Finish,
            Turn::SystemError => TurnView::SystemError,
            Turn::Unexpected(message) => TurnView::Unexpected(message@),
        }
    }
}

/// The result of one wait for the device.
#[derive(Clone, Copy, Debug, PartialEq, Eq, Structural)]
pub enum WaitResult {
    /// The device has packets.
    Ready,
    /// Nothing arrived within the waiting time.
    Timeout,
    /// The wait failed.
    Failed,
    /// The system reported another code.
    Other(u32),
}

/// The message for an unknown wait result.
pub open spec fn unexpected_wait_text(code: nat) -> Seq<char> {
    "Windows returned an unexpected audio wait result: "@ + text::decimal(code)
}

/// What came of a turn.
#[derive(Clone, Copy, Debug, PartialEq, Eq, Structural)]
pub enum Report {
    /// The state of the stop switch.
    Looked {
        /// Whether someone asked for the end of the recording.
        stop: bool,
    },
    /// All pending clip requests are applied.
    Served {
        /// Frames encoded so far.
        total_frames: u64,
    },
    /// The result of a wait.
    Waited(WaitResult),
    /// The device has no more packets.
    Empty,
    /// The device gave a packet.
    Taken {
        /// Whether the recording is paused.
        paused: bool,
        /// Device position of the first frame.
        position: u64,
        /// Frames in the packet.
        frames: u32,
        /// Flags of the packet.
        flags: u32,
    },
    /// The packet is encoded and released.
    Encoded {
        /// Whether someone asked for the end of the recording.
        stop: bool,
    },
}

/// The kind of report that the capture loop waits for.
#[derive(Clone, Copy, Debug, PartialEq, Eq, Structural)]
pub enum Phase {
    /// The state of the stop switch.
    Looking,
    /// The end of the clip requests.
    Serving,
    /// The end of a wait.
    Waiting,
    /// A packet, or none.
    Taking,
    /// The end of the work on a packet.
    Encoding,
    /// Nothing. The loop is over.
    Over,
}

/// Keeps the state of the capture loop.
#[derive(Debug)]
pub struct CaptureLoop {
    phase: Phase,
    limit: Option<u64>,
    expected: Option<u64>,
    sample_rate: u32,
    block_align: usize,
}

/// The mathematical value of a [`CaptureLoop`].
pub struct LoopView {
    pub phase: Phase,
    /// Frames after which the recording ends by itself.
    pub limit: Option<nat>,
    /// Device position behind the last packet.
    pub expected: Option<nat>,
    /// Source frames per second.
    pub sample_rate: nat,
    /// Bytes between two source frames.
    pub block_align: nat,
}

/// The mathematical value of an optional count.
pub open spec fn optional_count(count: Option<u64>) -> Option<nat> {
    match count {
        Some(count) => Some(count as nat),
        None => None,
    }
}

impl View for CaptureLoop {
    type V = LoopView;

    closed spec fn view(&self) -> LoopView {
        LoopView {
            phase: self.phase,
            limit: optional_count(self.limit),
            expected: optional_count(self.expected),
            sample_rate: self.sample_rate as nat,
            block_align: self.block_align as nat,
        }
    }
}

impl LoopView {
    /// The loop at the start of a recording.
    pub open spec fn start(limit: Option<nat>, sample_rate: nat, block_align: nat) -> LoopView {
        LoopView { phase: Phase::Looking, limit, expected: None, sample_rate, block_align }
    }

    /// Whether the loop waits for this kind of report, and the numbers of a
    /// packet fit the machine.
    pub open spec fn awaits(self, report: Report) -> bool {
        match report {
            Report::Looked { .. } => self.phase == Phase::Looking,
            Report::Served { .. } => self.phase == Phase::Serving,
            Report::Waited(_) => self.phase == Phase::Waiting,
            Report::Empty => self.phase == Phase::Taking,
            Report::Taken { position, frames, .. } => {
                &&& self.phase == Phase::Taking
                &&& position + frames <= u64::MAX
                &&& frames * self.block_align <= usize::MAX
            },
            Report::Encoded { .. } => self.phase == Phase::Encoding,
        }
    }

    /// Whether so many frames reach the limit.
    pub open spec fn is_full(self, total_frames: nat) -> bool {
        self.limit is Some && self.limit->0 <= total_frames
    }

    /// The work for a packet.
    pub open spec fn packet(self, paused: bool, position: nat, frames: nat, flags: nat) -> (
        PacketPlan) {
        let silent = flags / SILENT_FLAG as nat % 2 == 1;
        PacketPlan {
            silence: if paused {
                0
            } else {
                capture::inserted_silence(self.expected, position, self.sample_rate) as u64
            },
            encode: !paused,
            silent,
            byte_length: if paused || silent {
                0
            } else {
                (frames * self.block_align) as usize
            },
            next_position: (position + frames) as u64,
        }
    }

    /// The loop in another phase.
    pub open spec fn at(self, phase: Phase) -> LoopView {
        LoopView { phase, ..self }
    }

    /// The state behind a report, and the next turn.
    pub open spec fn after(self, report: Report) -> (LoopView, TurnView) {
        match report {
            Report::Looked { stop } => if stop {
                (self.at(Phase::Over), TurnView::Finish)
            } else {
                (self.at(Phase::Serving), TurnView::Serve)
            },
            Report::Served { total_frames } => if self.is_full(total_frames as nat) {
                (self.at(Phase::Over), TurnView::Finish)
            } else {
                (self.at(Phase::Waiting), TurnView::Wait)
            },
            Report::Waited(WaitResult::Ready) => (self.at(Phase::Taking), TurnView::Take),
            Report::Waited(WaitResult::Timeout) => (self.at(Phase::Looking), TurnView::Look),
            Report::Waited(WaitResult::Failed) => (self.at(Phase::Over), TurnView::SystemError),
            Report::Waited(WaitResult::Other(code)) => (
                self.at(Phase::Over),
                TurnView::Unexpected(unexpected_wait_text(code as nat)),
            ),
            Report::Empty => (self.at(Phase::Looking), TurnView::Look),
            Report::Taken { paused, position, frames, flags } => (
                LoopView {
                    phase: Phase::Encoding,
                    expected: Some((position + frames) as nat),
                    ..self
                },
                TurnView::Encode(
                    self.packet(paused, position as nat, frames as nat, flags as nat),
                ),
            ),
            Report::Encoded { stop } => if stop {
                (self.at(Phase::Looking), TurnView::Look)
            } else {
                (self.at(Phase::Taking), TurnView::Take)
            },
        }
    }
}

impl CaptureLoop {
    /// Starts the loop. The first turn is a look at the stop switch.
    pub fn new(limit: Option<u64>, sample_rate: u32, block_align: usize) -> (capture: CaptureLoop)
        ensures
            capture@ == LoopView::start(
                optional_count(limit),
                sample_rate as nat,
                block_align as nat,
            ),
    {
        CaptureLoop { phase: Phase::Looking, limit, expected: None, sample_rate, block_align }
    }

    /// Returns the kind of report that the loop waits for.
    pub fn phase(&self) -> (phase: Phase)
        ensures
            phase == self@.phase,
    {
        self.phase
    }

    /// Takes a report and decides the next turn.
    pub fn next_turn(&mut self, report: Report) -> (turn: Turn)
        requires
            old(self)@.awaits(report),
        ensures
            (final(self)@, turn@) == old(self)@.after(report),
    {
        match report {
            Report::Looked { stop } => {
                if stop {
                    self.phase = Phase::Over;
                    Turn::Finish
                } else {
                    self.phase = Phase::Serving;
                    Turn::Serve
                }
            },
            Report::Served { total_frames } => {
                let full = match self.limit {
                    Some(limit) => limit <= total_frames,
                    None => false,
                };
                if full {
                    self.phase = Phase::Over;
                    Turn::Finish
                } else {
                    self.phase = Phase::Waiting;
                    Turn::Wait
                }
            },
            Report::Waited(WaitResult::Ready) => {
                self.phase = Phase::Taking;
                Turn::Take
            },
            Report::Waited(WaitResult::Timeout) => {
                self.phase = Phase::Looking;
                Turn::Look
            },
            Report::Waited(WaitResult::Failed) => {
                self.phase = Phase::Over;
                Turn::SystemError
            },
            Report::Waited(WaitResult::Other(code)) => {
                let mut message = String::from_str(
                    "Windows returned an unexpected audio wait result: ",
                );
                text::push_decimal(&mut message, code as u64);
                self.phase = Phase::Over;
                Turn::Unexpected(message)
            },
            Report::Empty => {
                self.phase = Phase::Looking;
                Turn::Look
            },
            Report::Taken { paused, position, frames, flags } => {
                let plan = plan_packet(
                    paused,
                    self.expected,
                    position,
                    frames,
                    flags,
                    self.sample_rate,
                    self.block_align,
                );
                self.expected = Some(plan.next_position);
                self.phase = Phase::Encoding;
                Turn::Encode(plan)
            },
            Report::Encoded { stop } => {
                if stop {
                    self.phase = Phase::Looking;
                    Turn::Look
                } else {
                    self.phase = Phase::Taking;
                    Turn::Take
                }
            },
        }
    }
}

/// A recording is only finalized when someone asked for it or the encoded
/// frames reach the limit.
pub proof fn law_capture_ends_on_request_or_at_the_limit(state: LoopView, report: Report)
    requires
        state.awaits(report),
        state.after(report).1 is Finish,
    ensures
        (report is Looked && report->Looked_stop) || (report is Served && state.is_full(
            report->total_frames as nat,
        )),
{
}

/// A request to stop ends capture with the packet at hand, also while the
/// device still has packets.
pub proof fn law_a_stop_ends_capture(state: LoopView)
    requires
        state.phase == Phase::Encoding,
    ensures
        ({
            let looking = state.after(Report::Encoded { stop: true });
            &&& looking.1 is Look
            &&& looking.0.awaits(Report::Looked { stop: true })
            &&& looking.0.after(Report::Looked { stop: true }).1 is Finish
        }),
{
}

/// Clip requests are applied in front of every wait.
pub proof fn law_requests_are_served_before_each_wait(state: LoopView, report: Report)
    requires
        state.awaits(report),
        state.after(report).1 is Wait,
    ensures
        report is Served,
{
}

/// The report that a turn asks for is one that the loop waits for.
pub proof fn law_every_turn_can_be_answered(
    state: LoopView,
    report: Report,
    stop: bool,
    total_frames: u64,
    result: WaitResult,
)
    requires
        state.awaits(report),
    ensures
        ({
            let (next, turn) = state.after(report);
            match turn {
                TurnView::Look => next.awaits(Report::Looked { stop }),
                TurnView::Serve => next.awaits(Report::Served { total_frames }),
                TurnView::Wait => next.awaits(Report::Waited(result)),
                TurnView::Take => next.awaits(Report::Empty),
                TurnView::Encode(_) => next.awaits(Report::Encoded { stop }),
                _ => next.phase == Phase::Over,
            }
        }),
{
}

/// Packets that are dropped during a pause do not come back as silence: a
/// packet that follows a dropped one on the device is encoded without a gap.
pub proof fn law_pauses_do_not_become_silence(
    state: LoopView,
    position: u64,
    dropped: u32,
    frames: u32,
    flags: u32,
)
    requires
        state.awaits(Report::Taken { paused: true, position, frames: dropped, flags }),
        position + dropped + frames <= u64::MAX,
        frames * state.block_align <= usize::MAX,
    ensures
        ({
            let paused = state.after(
                Report::Taken { paused: true, position, frames: dropped, flags },
            );
            let taking = paused.0.after(Report::Encoded { stop: false }).0;
            let next = Report::Taken {
                paused: false,
                position: (position + dropped) as u64,
                frames,
                flags,
            };
            &&& paused.1 is Encode && !paused.1->Encode_0.encode && paused.1->Encode_0.silence == 0
            &&& taking.awaits(next)
            &&& taking.after(next).1 is Encode
            &&& taking.after(next).1->Encode_0.encode
            &&& taking.after(next).1->Encode_0.silence == 0
        }),
{
}

/// The rounds of the capture loop: it looks at the stop switch, applies the clip
/// requests, waits, and takes packets until there are none. Without a stop and
/// below the limit it goes on for ever.
pub proof fn law_rounds_have_an_order(
    state: LoopView,
    total_frames: u64,
    paused: bool,
    position: u64,
    frames: u32,
    flags: u32,
)
    requires
        state.phase == Phase::Looking,
        state.limit is None || total_frames < state.limit->0,
    ensures
        ({
            let looked = state.after(Report::Looked { stop: false });
            let served = looked.0.after(Report::Served { total_frames });
            let ready = served.0.after(Report::Waited(WaitResult::Ready));
            let taken = ready.0.after(Report::Taken { paused, position, frames, flags });
            let encoded = taken.0.after(Report::Encoded { stop: false });
            let empty = encoded.0.after(Report::Empty);
            let idle = served.0.after(Report::Waited(WaitResult::Timeout));
            &&& looked.1 is Serve
            &&& served.1 is Wait
            &&& ready.1 is Take
            &&& taken.1 is Encode
            &&& encoded.1 is Take
            &&& empty.1 is Look && empty.0.phase == Phase::Looking
            &&& idle == (state, TurnView::Look)
            &&& empty.0.limit == state.limit
        }),
{
}

/// A stop ends the loop at the next look, a full recording ends it behind the
/// clip requests, and a failed wait ends it with an error.
pub proof fn law_the_loop_ends(state: LoopView, total_frames: u64, code: u32)
    requires
        state.limit is Some,
        total_frames >= state.limit->0,
    ensures
        state.after(Report::Looked { stop: true }).1 is Finish,
        state.after(Report::Served { total_frames }).1 is Finish,
        state.after(Report::Waited(WaitResult::Failed)).1 is SystemError,
        state.after(Report::Waited(WaitResult::Other(code))).1 == TurnView::Unexpected(
            "Windows returned an unexpected audio wait result: "@ + text::decimal(code as nat),
        ),
{
}

/// A packet is planned from where the one before it ended, also across a pause:
/// without a gap there is no silence, and a gap of up to five seconds becomes
/// silence of the same length.
pub proof fn law_packets_continue_each_other(
    state: LoopView,
    paused: bool,
    position: u64,
    frames: u32,
    flags: u32,
    gap: u64,
    more: u32,
    other: u32,
)
    requires
        position + frames + gap <= u64::MAX,
        gap <= 5 * state.sample_rate,
    ensures
        ({
            let first = state.after(Report::Taken { paused, position, frames, flags });
            let ready = first.0.after(Report::Encoded { stop: false }).0;
            let next = (position + frames + gap) as u64;
            let second = ready.after(
                Report::Taken { paused: false, position: next, frames: more, flags: other },
            );
            &&& first.1 is Encode && first.1->Encode_0.encode == !paused
            &&& second.1 is Encode && second.1->Encode_0.encode
            &&& second.1->Encode_0.silence == gap
        }),
{
}

/// A look at the switch ends the loop on a stop, and otherwise leads to the
/// requests before the next wait.
pub proof fn law_turns_follow_the_report(state: &mut CaptureLoop, stop: bool, turn: Turn)
    requires
        call_ensures(CaptureLoop::next_turn, (state, Report::Looked { stop }), turn),
    ensures
        stop ==> turn is Finish && final(state)@.phase is Over,
        !stop ==> turn is Serve && final(state)@.phase is Serving,
{
}

/// A new loop looks at the stop switch first, and has seen no packet.
pub proof fn law_new_loops_look_first(
    limit: Option<u64>,
    sample_rate: u32,
    block_align: usize,
    capture: CaptureLoop,
)
    requires
        call_ensures(CaptureLoop::new, (limit, sample_rate, block_align), capture),
    ensures
        capture@.phase is Looking,
        capture@.expected is None,
        capture@.limit is Some <==> limit is Some,
        limit is Some ==> capture@.limit->0 == limit->0,
        capture@.sample_rate == sample_rate && capture@.block_align == block_align,
{
}

} // verus!
