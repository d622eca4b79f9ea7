//! Rules of the capture thread.
//!
//! The capture thread takes packets from the device and writes them. This module
//! decides how a gap in the device timeline becomes silence, which clip requests
//! are pending, and which display blocks reach the interface. State events
//! always keep room in the event channel.
use vstd::prelude::*;

use crate::audio::{AudioCommand, AudioEvent};
use crate::channel;
use crate::channel::{Inbox, Outbox, Step};
use crate::sample::Sample;

verus! {

/// Maximum frames in one visualization event.
pub const UI_CHUNK_FRAMES: usize = 1_024;

/// Channel slots that visualization events cannot use.
pub const STATE_EVENT_RESERVE: usize = 8;

/// Maximum device-position gap, in seconds, that becomes inserted silence.
pub const MAX_GAP_SECONDS: u64 = 5;

/// Sends capture events without giving the capture thread access to the receiver.
pub type EventSender = Outbox<AudioEvent>;

/// Whether a display event can join so many queued events and keep the reserve.
pub open spec fn leaves_reserve(capacity: Option<nat>, queued: nat) -> bool {
    match capacity {
        None => true,
        Some(limit) => if limit <= STATE_EVENT_RESERVE + 1 {
            queued < 1
        } else {
            queued < limit - STATE_EVENT_RESERVE
        },
    }
}

/// Reports whether a display event can join so many queued events and keep the
/// state-event reserve free.
pub fn room_for_visual_event(capacity: Option<usize>, queued: usize) -> (room: bool)
    ensures
        room == leaves_reserve(
            match capacity {
                Some(limit) => Some(limit as nat),
                None => None,
            },
            queued as nat,
        ),
{
    match capacity {
        None => true,
        Some(limit) => if limit <= STATE_EVENT_RESERVE + 1 {
            queued < 1
        } else {
            queued < limit - STATE_EVENT_RESERVE
        },
    }
}

/// Whether a call asked the channel for its queued events, and the answer to
/// whether there is room follows from what the channel said.
pub open spec fn is_room_answer(
    limit: Option<nat>,
    step: Step<AudioEvent>,
    room: bool,
) -> bool {
    match step {
        Step::Counted(queued) => room == leaves_reserve(limit, queued as nat),
        _ => false,
    }
}

/// Reports whether another display event can keep the state-event reserve free.
///
/// The channel is asked once, and nothing is handed to it.
pub fn has_visual_event_capacity(events: &mut EventSender) -> (room: bool)
    ensures
        final(events).limit() == old(events).limit(),
        final(events).steps() == old(events).steps().push(final(events).steps().last()),
        is_room_answer(old(events).limit(), final(events).steps().last(), room),
        old(events).limit() is None ==> room,
{
    let capacity = events.capacity();
    let queued: usize = events.count();
    room_for_visual_event(capacity, queued)
}

/// State events always keep at least one slot of a channel that has more than
/// one: a display event that is let in never takes the last free slot.
pub proof fn law_display_events_leave_room_for_state_events(capacity: nat, queued: nat)
    requires
        leaves_reserve(Some(capacity), queued),
        capacity > 1,
    ensures
        queued + 1 < capacity,
        capacity > STATE_EVENT_RESERVE ==> queued + 1 + STATE_EVENT_RESERVE <= capacity,
{
}

/// The number of display events for a block.
pub open spec fn chunk_count(frames: nat) -> nat {
    ((frames + UI_CHUNK_FRAMES - 1) / UI_CHUNK_FRAMES as int) as nat
}

/// The frame behind a display event.
pub open spec fn chunk_end(frames: nat, index: nat) -> nat {
    if (index + 1) * UI_CHUNK_FRAMES < frames {
        ((index + 1) * UI_CHUNK_FRAMES) as nat
    } else {
        frames
    }
}

/// Whether an event is the display event at a position of a block.
pub open spec fn is_chunk(
    event: AudioEvent,
    left: Seq<Sample>,
    right: Seq<Sample>,
    total: nat,
    index: nat,
) -> bool {
    let start = (index * UI_CHUNK_FRAMES) as int;
    let end = chunk_end(left.len(), index) as int;
    let behind = left.len() - end;
    match event {
        AudioEvent::Samples { left: l, right: r, encoded_frames } => {
            &&& l@ == left.subrange(start, end)
            &&& r@ == right.subrange(start, end)
            &&& encoded_frames == (if total < behind {
                0
            } else {
                total - behind
            })
        },
        _ => false,
    }
}

/// Copies a range of samples.
fn copy_samples(samples: &Vec<Sample>, start: usize, end: usize) -> (copy: Vec<Sample>)
    requires
        start <= end <= samples.len(),
    ensures
        copy@ == samples@.subrange(start as int, end as int),
{
    let mut copy: Vec<Sample> = Vec::new();
    let mut index: usize = start;
    while index < end
        invariant
            start <= index <= end <= samples.len(),
            copy@ == samples@.subrange(start as int, index as int),
        decreases end - index,
    {
        copy.push(samples[index]);
        index += 1;
        proof {
            assert(copy@ =~= samples@.subrange(start as int, index as int));
        }
    }
    copy
}

/// Splits a converted block into small display events. `frames` is the encoded
/// total behind the block.
pub fn display_events(left: &Vec<Sample>, right: &Vec<Sample>, frames: u64) -> (events: Vec<
    AudioEvent,
>)
    requires
        left@.len() == right@.len(),
    ensures
        events@.len() == chunk_count(left@.len()),
        forall|i: int|
            0 <= i < events@.len() ==> is_chunk(
                #[trigger] events@[i],
                left@,
                right@,
                frames as nat,
                i as nat,
            ),
{
    let length: usize = left.len();
    let mut events: Vec<AudioEvent> = Vec::new();
    let mut start: usize = 0;
    while start < length
        invariant
            length == left@.len(),
            left@.len() == right@.len(),
            start <= length,
            start == events@.len() * UI_CHUNK_FRAMES || (start == length && events@.len()
                == chunk_count(length as nat)),
            forall|i: int|
                0 <= i < events@.len() ==> is_chunk(
                    #[trigger] events@[i],
                    left@,
                    right@,
                    frames as nat,
                    i as nat,
                ),
        decreases length - start,
    {
        let end: usize = if length - start <= UI_CHUNK_FRAMES {
            length
        } else {
            start + UI_CHUNK_FRAMES
        };
        let behind: u64 = (length - end) as u64;
        let encoded_frames: u64 = if frames < behind {
            0
        } else {
            frames - behind
        };
        events.push(
            AudioEvent::Samples {
                left: copy_samples(left, start, end),
                right: copy_samples(right, start, end),
                encoded_frames,
            },
        );
        start = end;
    }
    events
}

/// Whether a call handed the display event at a position of a block to the
/// channel.
pub open spec fn hands_over(
    step: Step<AudioEvent>,
    left: Seq<Sample>,
    right: Seq<Sample>,
    total: nat,
    index: nat,
) -> bool {
    match step {
        Step::Offered(event, _) => is_chunk(event, left, right, total, index),
        _ => false,
    }
}

/// Whether two calls show the event at a position of a block: the channel
/// reports that there is room for it, and the event is handed over.
pub open spec fn shows_event(
    steps: Seq<Step<AudioEvent>>,
    limit: Option<nat>,
    left: Seq<Sample>,
    right: Seq<Sample>,
    total: nat,
    index: int,
) -> bool {
    &&& is_room_answer(limit, steps[2 * index], true)
    &&& hands_over(steps[2 * index + 1], left, right, total, index as nat)
}

/// Whether these are the calls that show the first events of a block and no
/// others. When an event is left, the last call finds that there is no room.
pub open spec fn shows_block(
    steps: Seq<Step<AudioEvent>>,
    limit: Option<nat>,
    left: Seq<Sample>,
    right: Seq<Sample>,
    total: nat,
    offered: nat,
) -> bool {
    &&& forall|i: int|
        0 <= i < offered ==> #[trigger] shows_event(steps, limit, left, right, total, i)
    &&& if offered < chunk_count(left.len()) {
        &&& steps.len() == 2 * offered + 1
        &&& is_room_answer(limit, steps.last(), false)
    } else {
        &&& offered == chunk_count(left.len())
        &&& steps.len() == 2 * offered
    }
}

/// Sends small display blocks while it preserves capacity for state events.
///
/// Returns the number of blocks that were handed to the channel. The rest of
/// the block is not shown, and nothing else is handed over.
pub fn send_samples(
    events: &mut EventSender,
    left: &Vec<Sample>,
    right: &Vec<Sample>,
    frames: u64,
) -> (offered: usize)
    requires
        left@.len() == right@.len(),
    ensures
        final(events).limit() == old(events).limit(),
        old(events).steps().is_prefix_of(final(events).steps()),
        shows_block(
            final(events).steps().skip(old(events).steps().len() as int),
            old(events).limit(),
            left@,
            right@,
            frames as nat,
            offered as nat,
        ),
        old(events).limit() is None ==> offered == chunk_count(left@.len()),
{
    let ghost earlier = events.steps();
    let ghost limit = events.limit();
    let ghost mut fresh = Seq::<Step<AudioEvent>>::empty();
    let mut offered: usize = 0;
    let blocks = display_events(left, right, frames);
    let count: usize = blocks.len();
    let ghost all = blocks@;
    proof {
        assert(events.steps() =~= earlier + fresh);
    }
    for block in iter: blocks
        invariant
            iter.seq() == all,
            all.len() == count,
            count == chunk_count(left@.len()),
            forall|i: int|
                0 <= i < all.len() ==> is_chunk(
                    #[trigger] all[i],
                    left@,
                    right@,
                    frames as nat,
                    i as nat,
                ),
            offered == iter.index(),
            earlier == old(events).steps(),
            limit == old(events).limit(),
            events.limit() == limit,
            events.steps() == earlier + fresh,
            fresh.len() == 2 * offered,
            forall|i: int|
                0 <= i < offered ==> #[trigger] shows_event(
                    fresh,
                    limit,
                    left@,
                    right@,
                    frames as nat,
                    i,
                ),
    {
        let ghost so_far = fresh;
        let room = has_visual_event_capacity(events);
        proof {
            fresh = fresh.push(events.steps().last());
            assert(events.steps() =~= earlier + fresh);
            assert forall|i: int| 0 <= i < offered implies #[trigger] shows_event(
                fresh,
                limit,
                left@,
                right@,
                frames as nat,
                i,
            ) by {
                assert(shows_event(so_far, limit, left@, right@, frames as nat, i));
            }
        }
        if !room {
            proof {
                assert(events.steps().skip(earlier.len() as int) =~= fresh);
                assert(events.steps().take(earlier.len() as int) =~= earlier);
            }
            return offered;
        }
        let ghost asked = fresh;
        let _ = events.offer(block);
        proof {
            fresh = fresh.push(events.steps().last());
            assert(events.steps() =~= earlier + fresh);
            assert(is_chunk(all[offered as int], left@, right@, frames as nat, offered as nat));
            assert forall|i: int| 0 <= i < offered + 1 implies #[trigger] shows_event(
                fresh,
                limit,
                left@,
                right@,
                frames as nat,
                i,
            ) by {
                if i < offered {
                    assert(shows_event(asked, limit, left@, right@, frames as nat, i));
                }
            }
        }
        offered += 1;
    }
    proof {
        assert(events.steps().skip(earlier.len() as int) =~= fresh);
        assert(events.steps().take(earlier.len() as int) =~= earlier);
    }
    offered
}

/// The stems of clip requests, in order.
pub open spec fn requested_stems(commands: Seq<AudioCommand>) -> Seq<Seq<char>> {
    Seq::new(commands.len(), |i: int| commands[i]->SaveClip_0@)
}

/// Returns the stems of clip requests, in order.
pub fn clip_requests(commands: Vec<AudioCommand>) -> (stems: Vec<String>)
    ensures
        stems@.len() == commands@.len(),
        forall|i: int|
            0 <= i < stems@.len() ==> (#[trigger] stems@[i])@ == requested_stems(commands@)[i],
{
    let mut stems: Vec<String> = Vec::new();
    let ghost all = commands@;
    for command in iter: commands
        invariant
            iter.seq() == all,
            stems@.len() == iter.index(),
            forall|i: int|
                0 <= i < stems@.len() ==> (#[trigger] stems@[i])@ == requested_stems(all)[i],
    {
        match command {
            AudioCommand::SaveClip(stem) => {
                stems.push(stem);
            },
        }
    }
    stems
}

/// Whether strings spell the given texts.
pub open spec fn stems_spell(stems: Seq<String>, texts: Seq<Seq<char>>) -> bool {
    stems.len() == texts.len() && forall|i: int|
        0 <= i < stems.len() ==> (#[trigger] stems[i])@ == texts[i]
}

/// Takes all pending clip requests out of the command channel.
///
/// The stems are those of every request that is taken, in order.
pub fn process_commands(commands: &mut Inbox<AudioCommand>) -> (stems: Vec<String>)
    ensures
        old(commands).taken().is_prefix_of(final(commands).taken()),
        stems_spell(
            stems@,
            requested_stems(channel::newly_taken(*old(commands), *final(commands))),
        ),
{
    let ghost earlier = commands.taken();
    let found = commands.take_pending();
    proof {
        assert(commands.taken().skip(earlier.len() as int) =~= found@);
    }
    clip_requests(found)
}

/// The silent frames that stand for a gap in the device timeline.
///
/// A gap longer than [`MAX_GAP_SECONDS`] stays out of the recording.
pub open spec fn inserted_silence(
    expected: Option<nat>,
    position: nat,
    sample_rate: nat,
) -> nat {
    match expected {
        Some(expected) => if expected < position && position - expected <= sample_rate
            * MAX_GAP_SECONDS {
            (position - expected) as nat
        } else {
            0
        },
        None => 0,
    }
}

/// What to do with one device packet.
#[derive(Clone, Copy, Debug, PartialEq, Eq, Structural)]
pub struct PacketPlan {
    /// Silent frames to encode in front of the packet.
    pub silence: u64,
    /// Whether the packet is encoded.
    pub encode: bool,
    /// Whether the packet counts as silence.
    pub silent: bool,
    /// Bytes to read from the packet.
    pub byte_length: usize,
    /// Device position behind the packet.
    pub next_position: u64,
}

/// The flag of a packet that the device marks as silent.
pub const SILENT_FLAG: u32 = 2;

/// Decides what happens to one device packet.
///
/// While the recording is paused, packets are dropped, and the timeline goes on.
pub fn plan_packet(
    paused: bool,
    expected: Option<u64>,
    position: u64,
    frames: u32,
    flags: u32,
    sample_rate: u32,
    block_align: usize,
) -> (plan: PacketPlan)
    requires
        position + frames <= u64::MAX,
        frames * block_align <= usize::MAX,
    ensures
        plan.next_position == position + frames,
        plan.encode == !paused,
        plan.silent == (flags / SILENT_FLAG % 2 == 1),
        plan.byte_length == (if paused || plan.silent {
            0
        } else {
            frames * block_align
        }),
        plan.silence == (if paused {
            0
        } else {
            inserted_silence(
                match expected {
                    Some(expected) => Some(expected as nat),
                    None => None,
                },
                position as nat,
                sample_rate as nat,
            )
        }),
{
    let silent = flags / SILENT_FLAG % 2 == 1;
    let max_gap: u64 = sample_rate as u64 * MAX_GAP_SECONDS;
    let silence: u64 = match expected {
        Some(expected) => if !paused && expected < position && position - expected <= max_gap {
            position - expected
        } else {
            0
        },
        None => 0,
    };
    let byte_length: usize = if paused || silent {
        0
    } else {
        proof {
            assert(frames as usize as int == frames);
        }
        frames as usize * block_align
    };
    PacketPlan {
        silence,
        encode: !paused,
        silent,
        byte_length,
        next_position: position + frames as u64,
    }
}

/// Without pauses, packets and inserted silence keep the encoded timeline equal
/// to the device timeline: encoding a packet after a short gap advances by the
/// whole distance between the device positions.
pub proof fn law_short_gaps_keep_the_device_timeline(
    expected: nat,
    position: nat,
    frames: nat,
    sample_rate: nat,
)
    requires
        expected <= position,
        position - expected <= sample_rate * MAX_GAP_SECONDS,
    ensures
        expected + inserted_silence(Some(expected), position, sample_rate) + frames == position
            + frames,
{
}

/// What happens to a packet of the device. Without a pause it is encoded, and a
/// gap of up to five seconds in front of it becomes silence of the same length;
/// a longer gap, and a position that goes backward, becomes none. During a pause
/// nothing is encoded. A packet that is marked as silent needs no bytes.
pub proof fn law_packets_are_planned(
    paused: bool,
    expected: Option<u64>,
    position: u64,
    frames: u32,
    flags: u32,
    sample_rate: u32,
    block_align: usize,
    plan: PacketPlan,
)
    requires
        position + frames <= u64::MAX,
        frames * block_align <= usize::MAX,
        call_ensures(
            plan_packet,
            (paused, expected, position, frames, flags, sample_rate, block_align),
            plan,
        ),
    ensures
        plan.encode <==> !paused,
        plan.next_position == position + frames,
        plan.silent <==> (flags / 2) % 2 == 1,
        !paused && !plan.silent ==> plan.byte_length == frames * block_align,
        paused || plan.silent ==> plan.byte_length == 0,
        paused || expected is None ==> plan.silence == 0,
        !paused && expected is Some ==> ({
            let gap = position - expected->0;
            &&& 0 <= gap <= 5 * sample_rate ==> plan.silence == gap
            &&& gap < 0 || gap > 5 * sample_rate ==> plan.silence == 0
        }),
{
}

/// A display event joins a limited channel exactly when eight slots stay free
/// for state events. A channel without that many slots takes one at a time, and
/// one without a limit takes them all.
pub proof fn law_display_events_leave_eight_slots(
    capacity: Option<usize>,
    queued: usize,
    room: bool,
)
    requires
        call_ensures(room_for_visual_event, (capacity, queued), room),
    ensures
        capacity is None ==> room,
        capacity is Some && capacity->0 > 9 ==> (room <==> queued + 1 + 8 <= capacity->0),
        capacity is Some && capacity->0 <= 9 ==> (room <==> queued == 0),
{
}

/// The samples of one channel in display events, in order.
pub open spec fn shown_samples(events: Seq<AudioEvent>, right: bool) -> Seq<Sample>
    decreases events.len(),
{
    if events.len() == 0 {
        Seq::empty()
    } else {
        shown_samples(events.drop_last(), right) + (if right {
            events.last()->right@
        } else {
            events.last()->left@
        })
    }
}

/// Display events hold the whole block, in order and once, in pieces of at most
/// 1024 frames.
pub proof fn law_display_events_hold_the_block(
    left: Vec<Sample>,
    right: Vec<Sample>,
    frames: u64,
    events: Vec<AudioEvent>,
)
    requires
        left@.len() == right@.len(),
        call_ensures(display_events, (&left, &right, frames), events),
    ensures
        shown_samples(events@, false) == left@,
        shown_samples(events@, true) == right@,
        forall|i: int| 0 <= i < events@.len() ==> shows_piece(#[trigger] events@[i]),
{
    let count = events@.len();
    assert forall|i: int| 0 <= i < events@.len() implies shows_piece(#[trigger] events@[i]) by {
        assert(is_chunk(events@[i], left@, right@, frames as nat, i as nat));
    }
    lemma_shown_so_far(left@, right@, frames as nat, events@, count);
    assert(events@.take(count as int) =~= events@);
    let length = left@.len() as int;
    assert(length <= count * 1_024);
    assert(left@.take(length) =~= left@);
    assert(right@.take(length) =~= right@);
}

/// Whether an event is a display event of at most 1024 frames.
pub open spec fn shows_piece(event: AudioEvent) -> bool {
    event is Samples && 1 <= event->left@.len() <= 1_024 && event->right@.len()
        == event->left@.len()
}

/// The first display events hold the front of the block.
proof fn lemma_shown_so_far(
    left: Seq<Sample>,
    right: Seq<Sample>,
    total: nat,
    events: Seq<AudioEvent>,
    count: nat,
)
    requires
        left.len() == right.len(),
        events.len() == chunk_count(left.len()),
        forall|i: int|
            0 <= i < events.len() ==> is_chunk(#[trigger] events[i], left, right, total, i as nat),
        count <= events.len(),
    ensures
        ({
            let end = if count * 1_024 < left.len() {
                (count * 1_024) as int
            } else {
                left.len() as int
            };
            &&& shown_samples(events.take(count as int), false) == left.take(end)
            &&& shown_samples(events.take(count as int), true) == right.take(end)
        }),
    decreases count,
{
    if count == 0 {
        assert(events.take(0) =~= Seq::<AudioEvent>::empty());
        assert(left.take(0) =~= Seq::<Sample>::empty());
        assert(right.take(0) =~= Seq::<Sample>::empty());
    } else {
        let before = (count - 1) as nat;
        lemma_shown_so_far(left, right, total, events, before);
        let longer = events.take(count as int);
        assert(longer.drop_last() =~= events.take(before as int));
        assert(longer.last() == events[before as int]);
        assert(is_chunk(events[before as int], left, right, total, before));
        let start = (before * 1_024) as int;
        let end = chunk_end(left.len(), before) as int;
        assert(start < left.len());
        assert(left.take(start) + left.subrange(start, end) =~= left.take(end));
        assert(right.take(start) + right.subrange(start, end) =~= right.take(end));
    }
}

/// The length that a display event reports is the encoded length at its end: the
/// frames behind it in the block are not counted yet.
pub proof fn law_display_events_report_their_end(
    left: Vec<Sample>,
    right: Vec<Sample>,
    frames: u64,
    events: Vec<AudioEvent>,
    index: int,
)
    requires
        left@.len() == right@.len(),
        left@.len() <= frames,
        call_ensures(display_events, (&left, &right, frames), events),
        0 <= index < events@.len(),
    ensures
        index + 1 == events@.len() ==> events@[index]->encoded_frames == frames,
        index + 1 < events@.len() ==> events@[index + 1]->encoded_frames
            == events@[index]->encoded_frames + events@[index + 1]->left@.len(),
{
    assert(is_chunk(events@[index], left@, right@, frames as nat, index as nat));
    if index + 1 < events@.len() {
        assert(is_chunk(events@[index + 1], left@, right@, frames as nat, (index + 1) as nat));
    }
}

/// Clip requests keep their names and their order.
pub proof fn law_clip_requests_keep_their_order(
    commands: Vec<AudioCommand>,
    stems: Vec<String>,
    index: int,
)
    requires
        call_ensures(clip_requests, (commands,), stems),
        0 <= index < commands@.len(),
    ensures
        stems@.len() == commands@.len(),
        stems@[index]@ == commands@[index]->SaveClip_0@,
{
}

/// Display blocks go to the channel in their order and once: the first ones, as
/// long as the channel has room. Each is preceded by one question for its room,
/// and nothing else is handed over.
pub proof fn law_shown_blocks_go_out_in_order(
    events: &mut EventSender,
    left: Vec<Sample>,
    right: Vec<Sample>,
    frames: u64,
    offered: usize,
    index: int,
)
    requires
        call_ensures(send_samples, (events, &left, &right, frames), offered),
        0 <= index < offered,
    ensures
        ({
            let steps = final(events).steps().skip(old(events).steps().len() as int);
            let start = 1_024 * index;
            let end = if start + 1_024 < left@.len() {
                start + 1_024
            } else {
                left@.len() as int
            };
            let asked = steps[2 * index];
            let sent = steps[2 * index + 1];
            &&& steps.len() == 2 * offered || steps.len() == 2 * offered + 1
            &&& asked is Counted
            &&& old(events).limit() is Some && old(events).limit()->0 > 9 ==> asked->Counted_0 + 1
                + 8 <= old(events).limit()->0
            &&& sent is Offered && sent->Offered_0 is Samples
            &&& sent->Offered_0->left@ == left@.subrange(start, end)
            &&& sent->Offered_0->right@ == right@.subrange(start, end)
        }),
        1_024 * offered < left@.len() + 1_024,
        old(events).limit() is None ==> 1_024 * offered >= left@.len(),
{
    let steps = final(events).steps().skip(old(events).steps().len() as int);
    assert(shows_event(steps, old(events).limit(), left@, right@, frames as nat, index));
}

/// Clip requests are taken out of the channel with their names and in their order.
pub proof fn law_taken_requests_keep_their_order(
    commands: &mut Inbox<AudioCommand>,
    stems: Vec<String>,
    index: int,
)
    requires
        call_ensures(process_commands, (commands,), stems),
        0 <= index < stems@.len(),
    ensures
        ({
            let earlier = old(commands).taken().len();
            &&& final(commands).taken().len() == earlier + stems@.len()
            &&& final(commands).taken().take(earlier as int) == old(commands).taken()
            &&& stems@[index]@ == final(commands).taken()[earlier + index]->SaveClip_0@
        }),
{
    let earlier = old(commands).taken();
    assert(final(commands).taken().take(earlier.len() as int) =~= earlier);
}

} // verus!
