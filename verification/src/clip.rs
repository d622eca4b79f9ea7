//! Clip selection, waveform building, preview, and safe trimming.
//!
//! Named clips keep a temporary PCM source while the recorder runs. The
//! interface uses that source to draw the complete clip and to rebuild a
//! selected range.
pub mod peaks;
pub mod preview;
pub mod trim;

use vstd::prelude::*;

use crate::binary64;
use crate::binary64::error;
use crate::binary64::{checked_frame_duration, count_ratio, Binary64};
use crate::time::Duration;

verus! {

/// Identifies the clip boundary that arrow keys move.
#[derive(Clone, Copy, Debug, PartialEq, Eq, Structural)]
pub enum SelectionHandle {
    /// Move the first included frame.
    Start,
    /// Move the exclusive last included frame.
    End,
}

/// Stores a valid editable range inside one temporary PCM source.
#[derive(Debug)]
pub struct ClipSelection {
    source_start: u64,
    source_end: u64,
    start: u64,
    end: u64,
    minimum_length: u64,
    sample_rate: u32,
    active: SelectionHandle,
}

/// The mathematical value of a [`ClipSelection`].
pub struct SelectionView {
    pub source_start: nat,
    pub source_end: nat,
    pub start: nat,
    pub end: nat,
    pub minimum_length: nat,
    pub sample_rate: nat,
    pub active: SelectionHandle,
}

/// Describes invalid clip-selection bounds.
#[derive(Clone, Copy, Debug, PartialEq, Eq, Structural)]
pub struct SelectionError;

impl SelectionError {
    /// Returns the message for the user.
    pub fn message(&self) -> (message: &'static str)
        ensures
            message@ == "the clip selection must contain audio"@,
    {
        "the clip selection must contain audio"
    }
}

impl View for ClipSelection {
    type V = SelectionView;

    closed spec fn view(&self) -> SelectionView {
        SelectionView {
            source_start: self.source_start as nat,
            source_end: self.source_end as nat,
            start: self.start as nat,
            end: self.end as nat,
            minimum_length: self.minimum_length as nat,
            sample_rate: self.sample_rate as nat,
            active: self.active,
        }
    }
}

/// A position moved by a signed distance, within the range of positions.
pub open spec fn moved(position: nat, change: int) -> nat {
    if position + change < 0 {
        0
    } else if position + change > u64::MAX {
        u64::MAX as nat
    } else {
        (position + change) as nat
    }
}

/// A position limited to a range.
pub open spec fn limited(position: nat, low: nat, high: nat) -> nat {
    if position < low {
        low
    } else if position > high {
        high
    } else {
        position
    }
}

/// The shortest selection: fifty milliseconds, or the whole source.
pub open spec fn shortest_selection(length: nat, sample_rate: nat) -> nat {
    let frames = if sample_rate / 20 < 1 {
        1
    } else {
        sample_rate / 20
    };
    if frames < length {
        frames
    } else {
        length
    }
}

impl SelectionView {
    /// The selection lies in its source and is not shorter than its minimum.
    pub open spec fn wf(self) -> bool {
        &&& self.source_start <= self.start
        &&& self.start + self.minimum_length <= self.end
        &&& self.end <= self.source_end <= u64::MAX
        &&& self.minimum_length >= 1
        &&& self.sample_rate > 0
    }

    /// A source position as a fraction of the source range, in double precision.
    pub open spec fn normalized(self, position: nat) -> binary64::Rounded {
        binary64::ratio_value(
            (position - self.source_start) as nat,
            (self.source_end - self.source_start) as nat,
        )
    }

    /// A selection of the whole source.
    pub open spec fn full(source_start: nat, source_end: nat, sample_rate: nat) -> SelectionView {
        SelectionView {
            source_start,
            source_end,
            start: source_start,
            end: source_end,
            minimum_length: shortest_selection((source_end - source_start) as nat, sample_rate),
            sample_rate,
            active: SelectionHandle::Start,
        }
    }

    /// The selection with the other boundary active.
    pub open spec fn toggled(self) -> SelectionView {
        SelectionView {
            active: match self.active {
                SelectionHandle::Start => SelectionHandle::End,
                SelectionHandle::End => SelectionHandle::Start,
            },
            ..self
        }
    }

    /// The selection after its active boundary moved.
    pub open spec fn nudged(self, change: int) -> SelectionView {
        match self.active {
            SelectionHandle::Start => SelectionView {
                start: limited(
                    moved(self.start, change),
                    self.source_start,
                    (self.end - self.minimum_length) as nat,
                ),
                ..self
            },
            SelectionHandle::End => SelectionView {
                end: limited(
                    moved(self.end, change),
                    self.start + self.minimum_length,
                    self.source_end,
                ),
                ..self
            },
        }
    }

    /// The selection of the whole source, with the start active.
    pub open spec fn restored(self) -> SelectionView {
        SelectionView {
            start: self.source_start,
            end: self.source_end,
            active: SelectionHandle::Start,
            ..self
        }
    }
}

impl Clone for ClipSelection {
    fn clone(&self) -> (copy: ClipSelection)
        ensures
            copy@ == self@,
    {
        proof {
            use_type_invariant(self);
        }
        ClipSelection {
            source_start: self.source_start,
            source_end: self.source_end,
            start: self.start,
            end: self.end,
            minimum_length: self.minimum_length,
            sample_rate: self.sample_rate,
            active: self.active,
        }
    }
}

impl ClipSelection {
    /// Every selection is valid.
    #[verifier::type_invariant]
    spec fn valid(self) -> bool {
        self@.wf()
    }

    /// Creates a full-range selection from absolute source frame positions.
    pub fn new(source_start: u64, source_end: u64, sample_rate: u32) -> (result: Result<
        ClipSelection,
        SelectionError,
    >)
        ensures
            result is Ok <==> source_start < source_end && sample_rate > 0,
            result is Ok ==> result->Ok_0@ == SelectionView::full(
                source_start as nat,
                source_end as nat,
                sample_rate as nat,
            ),
    {
        if source_start >= source_end || sample_rate == 0 {
            return Err(SelectionError);
        }
        let length: u64 = source_end - source_start;
        let part: u64 = if sample_rate / 20 < 1 {
            1
        } else {
            (sample_rate / 20) as u64
        };
        let minimum_length: u64 = if part < length {
            part
        } else {
            length
        };
        Ok(
            ClipSelection {
                source_start,
                source_end,
                start: source_start,
                end: source_end,
                minimum_length,
                sample_rate,
                active: SelectionHandle::Start,
            },
        )
    }

    /// Returns the first selected source frame.
    #[must_use]
    pub fn start_frame(&self) -> (frame: u64)
        ensures
            frame == self@.start,
    {
        self.start
    }

    /// Returns the exclusive last selected source frame.
    #[must_use]
    pub fn end_frame(&self) -> (frame: u64)
        ensures
            frame == self@.end,
    {
        self.end
    }

    /// Returns the first frame that this editing pass can select.
    #[must_use]
    pub fn source_start_frame(&self) -> (frame: u64)
        ensures
            frame == self@.source_start,
    {
        self.source_start
    }

    /// Returns the last frame that this editing pass can select.
    #[must_use]
    pub fn source_end_frame(&self) -> (frame: u64)
        ensures
            frame == self@.source_end,
    {
        self.source_end
    }

    /// Returns the encoded sample rate.
    #[must_use]
    pub fn sample_rate(&self) -> (rate: u32)
        ensures
            rate == self@.sample_rate,
            rate > 0,
    {
        proof {
            use_type_invariant(self);
        }
        self.sample_rate
    }

    /// Returns the boundary that arrow keys move.
    #[must_use]
    pub fn active_handle(&self) -> (handle: SelectionHandle)
        ensures
            handle == self@.active,
    {
        self.active
    }

    /// Selects the other boundary.
    pub fn toggle_handle(&mut self)
        ensures
            final(self)@ == old(self)@.toggled(),
    {
        proof {
            use_type_invariant(&*self);
        }
        self.active = match self.active {
            SelectionHandle::Start => SelectionHandle::End,
            SelectionHandle::End => SelectionHandle::Start,
        };
    }

    /// Moves the active boundary by a signed frame count.
    pub fn nudge(&mut self, frames: i64)
        ensures
            final(self)@ == old(self)@.nudged(frames as int),
    {
        proof {
            use_type_invariant(&*self);
        }
        match self.active {
            SelectionHandle::Start => {
                let maximum: u64 = self.end - self.minimum_length;
                self.start = clamped(add_signed(self.start, frames), self.source_start, maximum);
            },
            SelectionHandle::End => {
                let minimum: u64 = self.start + self.minimum_length;
                self.end = clamped(add_signed(self.end, frames), minimum, self.source_end);
            },
        }
    }

    /// Restores the full range and selects the start handle.
    pub fn reset(&mut self)
        ensures
            final(self)@ == old(self)@.restored(),
    {
        proof {
            use_type_invariant(&*self);
        }
        self.start = self.source_start;
        self.end = self.source_end;
        self.active = SelectionHandle::Start;
    }

    /// Returns the selected frame count.
    #[must_use]
    pub fn frames(&self) -> (frames: u64)
        ensures
            frames == self@.end - self@.start,
            frames >= 1,
    {
        proof {
            use_type_invariant(self);
        }
        self.end - self.start
    }

    /// Returns the selected duration.
    #[must_use]
    pub fn duration(&self) -> (duration: Duration)
        requires
            binary64::frames_have_length((self@.end - self@.start) as nat, self@.sample_rate),
        ensures
            duration@ == binary64::frame_nanoseconds(
                (self@.end - self@.start) as nat,
                self@.sample_rate,
            ),
    {
        match checked_frame_duration(self.frames(), self.sample_rate) {
            Some(duration) => duration,
            None => Duration::zero(),
        }
    }

    /// Returns the selection start as a fraction of the source range.
    #[must_use]
    pub fn normalized_start(&self) -> (fraction: Binary64)
        ensures
            fraction@ == self@.normalized(self@.start),
            fraction.wf(),
            fraction.significand == 0 || fraction.exponent > -120,
            fraction.exponent <= 64,
    {
        proof {
            use_type_invariant(self);
            binary64::lemma_zero_ratio((self.source_end - self.source_start) as nat);
        }
        count_ratio(self.start - self.source_start, self.source_end - self.source_start)
    }

    /// Returns the selection end as a fraction of the source range.
    #[must_use]
    pub fn normalized_end(&self) -> (fraction: Binary64)
        ensures
            fraction@ == self@.normalized(self@.end),
            fraction.wf(),
            fraction.significand == 0 || fraction.exponent > -120,
            fraction.exponent <= 64,
    {
        proof {
            use_type_invariant(self);
            binary64::lemma_zero_ratio((self.source_end - self.source_start) as nat);
        }
        count_ratio(self.end - self.source_start, self.source_end - self.source_start)
    }
}

/// Moves a position by a signed distance and stops at the ends of the range.
pub fn add_signed(value: u64, change: i64) -> (result: u64)
    ensures
        result == moved(value as nat, change as int),
{
    let sum: i128 = value as i128 + change as i128;
    if sum < 0 {
        0
    } else if sum > u64::MAX as i128 {
        u64::MAX
    } else {
        sum as u64
    }
}

/// Limits a position to a range.
fn clamped(value: u64, low: u64, high: u64) -> (result: u64)
    requires
        low <= high,
    ensures
        result == limited(value as nat, low as nat, high as nat),
{
    if value < low {
        low
    } else if value > high {
        high
    } else {
        value
    }
}

/// No movement leaves the source or makes the selection shorter than its
/// minimum, and the other boundary stays where it is.
pub proof fn law_selection_stays_valid(selection: SelectionView, change: int)
    requires
        selection.wf(),
    ensures
        selection.nudged(change).wf(),
        selection.toggled().wf(),
        selection.restored().wf(),
        selection.active == SelectionHandle::Start ==> selection.nudged(change).end
            == selection.end,
        selection.active == SelectionHandle::End ==> selection.nudged(change).start
            == selection.start,
        selection.nudged(change).source_start == selection.source_start,
        selection.nudged(change).source_end == selection.source_end,
{
}

/// Resetting undoes every movement: the selection is that of a new pass.
pub proof fn law_reset_restores_the_full_range(
    source_start: nat,
    source_end: nat,
    sample_rate: nat,
    first: int,
    second: int,
)
    requires
        source_start < source_end <= u64::MAX,
        sample_rate > 0,
    ensures
        SelectionView::full(source_start, source_end, sample_rate).wf(),
        SelectionView::full(source_start, source_end, sample_rate).nudged(first).toggled().nudged(
            second,
        ).restored() == SelectionView::full(source_start, source_end, sample_rate),
{
}

/// Choosing the other boundary twice changes nothing.
pub proof fn law_toggling_twice_changes_nothing(selection: SelectionView)
    ensures
        selection.toggled().toggled() == selection,
{
}

/// A boundary that stays inside the source and away from the other boundary
/// moves by exactly the distance, and nothing else changes.
pub proof fn law_free_movements_are_exact(selection: SelectionView, change: int)
    requires
        selection.wf(),
    ensures
        selection.active == SelectionHandle::Start && selection.source_start <= selection.start
            + change && selection.start + change + selection.minimum_length <= selection.end
            ==> selection.nudged(change) == (SelectionView {
            start: (selection.start + change) as nat,
            ..selection
        }),
        selection.active == SelectionHandle::End && selection.end + change <= selection.source_end
            && selection.start + selection.minimum_length <= selection.end + change
            ==> selection.nudged(change) == (SelectionView {
            end: (selection.end + change) as nat,
            ..selection
        }),
{
}

/// A movement that meets a limit ends at it: at the end of the source, or at the
/// shortest selection.
pub proof fn law_limited_movements_end_at_the_limit(selection: SelectionView, change: int)
    requires
        selection.wf(),
    ensures
        selection.active == SelectionHandle::Start && selection.start + change
            <= selection.source_start ==> selection.nudged(change).start == selection.source_start,
        selection.active == SelectionHandle::Start && selection.start + change
            + selection.minimum_length >= selection.end ==> selection.nudged(change).start
            + selection.minimum_length == selection.end,
        selection.active == SelectionHandle::End && selection.end + change >= selection.source_end
            ==> selection.nudged(change).end == selection.source_end,
        selection.active == SelectionHandle::End && selection.end + change <= selection.start
            + selection.minimum_length ==> selection.nudged(change).end == selection.start
            + selection.minimum_length,
{
}

/// The opposite step leads back, when the first one met no limit.
pub proof fn law_opposite_movements_cancel(selection: SelectionView, change: int)
    requires
        selection.wf(),
        selection.active == SelectionHandle::Start ==> selection.source_start <= selection.start
            + change && selection.start + change + selection.minimum_length <= selection.end,
        selection.active == SelectionHandle::End ==> selection.end + change <= selection.source_end
            && selection.start + selection.minimum_length <= selection.end + change,
    ensures
        selection.nudged(change).nudged(-change) == selection,
{
}

/// Two steps in the same direction are one step of both distances.
pub proof fn law_movements_in_one_direction_add_up(
    selection: SelectionView,
    first: int,
    second: int,
)
    requires
        selection.wf(),
        (first >= 0 && second >= 0) || (first <= 0 && second <= 0),
    ensures
        selection.nudged(first).nudged(second) == selection.nudged(first + second),
{
}

/// A new selection is the whole source, with the start active. It can shrink to
/// fifty milliseconds, rounded down to whole frames, and to at least one frame;
/// a shorter source cannot shrink.
pub proof fn law_new_selections_hold_the_source(
    source_start: u64,
    source_end: u64,
    sample_rate: u32,
    result: Result<ClipSelection, SelectionError>,
)
    requires
        call_ensures(ClipSelection::new, (source_start, source_end, sample_rate), result),
    ensures
        result is Ok <==> source_start < source_end && sample_rate > 0,
        result is Ok ==> {
            let selection = result->Ok_0@;
            let shortest = selection.minimum_length;
            &&& selection.start == source_start && selection.source_start == source_start
            &&& selection.end == source_end && selection.source_end == source_end
            &&& selection.sample_rate == sample_rate
            &&& selection.active == SelectionHandle::Start
            &&& 1 <= shortest <= source_end - source_start
            &&& shortest == 1 || 20 * shortest <= sample_rate
            &&& shortest == source_end - source_start || sample_rate < 20 * (shortest + 1)
        },
{
}

/// The reported boundaries are those of the selection, and its length is their
/// distance.
pub proof fn law_selections_report_their_boundaries(
    selection: ClipSelection,
    start: u64,
    end: u64,
    frames: u64,
    first: u64,
    last: u64,
    handle: SelectionHandle,
)
    requires
        call_ensures(ClipSelection::start_frame, (&selection,), start),
        call_ensures(ClipSelection::end_frame, (&selection,), end),
        call_ensures(ClipSelection::frames, (&selection,), frames),
        call_ensures(ClipSelection::source_start_frame, (&selection,), first),
        call_ensures(ClipSelection::source_end_frame, (&selection,), last),
        call_ensures(ClipSelection::active_handle, (&selection,), handle),
    ensures
        start == selection@.start && end == selection@.end,
        start + frames == end,
        first == selection@.source_start && last == selection@.source_end,
        handle == selection@.active,
{
}

/// The boundaries stand at their share of the source, up to eight parts in 2^53.
pub proof fn law_fractions_are_close(selection: ClipSelection, start: Binary64, end: Binary64)
    requires
        selection@.wf(),
        call_ensures(ClipSelection::normalized_start, (&selection,), start),
        call_ensures(ClipSelection::normalized_end, (&selection,), end),
    ensures
        error::is_about(
            start@,
            (selection@.start - selection@.source_start) as nat,
            (selection@.source_end - selection@.source_start) as nat,
            8,
        ),
        error::is_about(
            end@,
            (selection@.end - selection@.source_start) as nat,
            (selection@.source_end - selection@.source_start) as nat,
            8,
        ),
{
    let length = (selection@.source_end - selection@.source_start) as nat;
    error::lemma_count_ratio_is_about((selection@.start - selection@.source_start) as nat, length);
    error::lemma_count_ratio_is_about((selection@.end - selection@.source_start) as nat, length);
}

/// A signed distance is added exactly, and the range of positions is not left.
pub proof fn law_signed_distances_are_added(value: u64, change: i64, result: u64)
    requires
        call_ensures(add_signed, (value, change), result),
    ensures
        0 <= value + change <= u64::MAX ==> result == value + change,
        value + change < 0 ==> result == 0,
        value + change > u64::MAX ==> result == u64::MAX,
{
}

/// A movement changes the active boundary alone. It goes exactly as far as it is
/// told, but neither out of the source nor closer to the other boundary than the
/// shortest selection.
pub proof fn law_nudges_move_the_active_boundary(selection: &mut ClipSelection, frames: i64)
    requires
        old(selection)@.wf(),
        call_ensures(ClipSelection::nudge, (selection, frames), ()),
    ensures
        ({
            let before = old(selection)@;
            let after = final(selection)@;
            let low = before.source_start as int;
            let high = before.end - before.minimum_length;
            let near = before.start + before.minimum_length;
            let far = before.source_end as int;
            &&& after == SelectionView { start: after.start, end: after.end, ..before }
            &&& before.active == SelectionHandle::Start ==> after.end == before.end
            &&& before.active == SelectionHandle::End ==> after.start == before.start
            &&& before.active == SelectionHandle::Start && low <= before.start + frames <= high
                ==> after.start == before.start + frames
            &&& before.active == SelectionHandle::Start && before.start + frames < low
                ==> after.start == low
            &&& before.active == SelectionHandle::Start && before.start + frames > high
                ==> after.start == high
            &&& before.active == SelectionHandle::End && near <= before.end + frames <= far
                ==> after.end == before.end + frames
            &&& before.active == SelectionHandle::End && before.end + frames < near ==> after.end
                == near
            &&& before.active == SelectionHandle::End && before.end + frames > far ==> after.end
                == far
        }),
{
}

/// A reset selects the whole source from its start, whatever was selected before.
pub proof fn law_resets_select_everything(selection: &mut ClipSelection)
    requires
        call_ensures(ClipSelection::reset, (selection,), ()),
    ensures
        final(selection)@.start == old(selection)@.source_start,
        final(selection)@.end == old(selection)@.source_end,
        final(selection)@.active == SelectionHandle::Start,
        final(selection)@ == (SelectionView {
            start: final(selection)@.start,
            end: final(selection)@.end,
            active: final(selection)@.active,
            ..old(selection)@
        }),
{
}

/// The active boundary changes to the other one, and nothing else changes.
pub proof fn law_toggles_change_the_active_boundary(selection: &mut ClipSelection)
    requires
        call_ensures(ClipSelection::toggle_handle, (selection,), ()),
    ensures
        final(selection)@.active != old(selection)@.active,
        final(selection)@ == (SelectionView {
            active: final(selection)@.active,
            ..old(selection)@
        }),
{
}

/// The length of a selection is its frames over its rate, to the nearest
/// nanosecond and up to the rounding of double precision.
pub proof fn law_selected_lengths_are_close(selection: ClipSelection, duration: Duration)
    requires
        selection@.wf(),
        selection@.sample_rate <= u32::MAX,
        call_ensures(ClipSelection::duration, (&selection,), duration),
    ensures
        ({
            let frames = (selection@.end - selection@.start) as nat;
            let rate = selection@.sample_rate;
            &&& 2 * (duration@ * rate) * error::parts() <= 2 * (frames * 1_000_000_000) * (
            error::parts() + 5) + rate * error::parts()
            &&& 2 * (frames * 1_000_000_000) * error::parts() <= (2 * duration@ + 1) * rate * (
            error::parts() + 5)
        }),
{
    error::lemma_frame_lengths_are_close(
        (selection@.end - selection@.start) as nat,
        selection@.sample_rate,
    );
}

} // verus!
