//! Interface state of the recorder.
//!
//! The terminal owner reads keys and draws. [`App`] keeps all interface state
//! of an audio recording: it takes keys and audio events, and it answers with
//! the work that only the terminal owner can do. [`video`] has the state of a
//! screen recording, [`texts`] writes the lines that both views show, and
//! [`scope`] plans the waveform of the clip editor.
//!
//! A named clip is a finalized session part with a temporary PCM edit source.
//! The editor moves frame-accurate boundaries, previews only the selection, and
//! trims in the background. A preview pauses capture, so the recorder does not
//! capture its own playback.
pub mod scope;
pub mod texts;
pub mod video;

use vstd::prelude::*;

use crate::audio;
use crate::audio::{AudioCommand, AudioEvent, SavedFile, SavedFileKind};
use crate::binary64;
use crate::binary64::checked_frame_duration;
use crate::channel;
use crate::channel::{Inbox, Outbox, SendOutcome, Step};
use crate::clip;
use crate::clip::peaks::{ClipWaveform, WaveformBin};
use crate::clip::ClipSelection;
use crate::labels;
use crate::path;
use crate::path::FilePath;
use crate::session;
use crate::session::{clip_stem, OutputTarget};
use crate::text;
use crate::time::Duration;
use crate::waveform;
use crate::waveform::Waveform;

verus! {

/// Frames in the live history: six seconds at the usual rate.
pub const HISTORY_FRAMES: usize = 288_000;

/// The largest number of characters in the clip-name prompt.
pub const PROMPT_LIMIT: usize = 96;

/// Bins in the waveform of the clip editor.
pub const REVIEW_BINS: usize = 2_048;

/// Selects the live visualization arrangement.
#[derive(Clone, Copy, Debug, PartialEq, Eq, Structural)]
pub enum ViewMode {
    /// Both channels over time.
    Waveform,
    /// The frequency display.
    Spectrum,
    /// Both displays side by side.
    Split,
}

impl Default for ViewMode {
    fn default() -> (mode: ViewMode)
        ensures
            mode == ViewMode::Split,
    {
        ViewMode::Split
    }
}

impl ViewMode {
    /// The next view in the fixed keyboard cycle.
    pub open spec fn following(self) -> ViewMode {
        match self {
            ViewMode::Waveform => ViewMode::Spectrum,
            ViewMode::Spectrum => ViewMode::Split,
            ViewMode::Split => ViewMode::Waveform,
        }
    }

    /// The short label for the recorder header.
    pub open spec fn name(self) -> Seq<char> {
        match self {
            ViewMode::Waveform => "WAVE"@,
            ViewMode::Spectrum => "SPECTRUM"@,
            ViewMode::Split => "SPLIT"@,
        }
    }

    /// Whether the view has a frequency display.
    pub open spec fn has_spectrum(self) -> bool {
        self != ViewMode::Waveform
    }

    /// Returns the next view in the fixed keyboard cycle.
    pub fn next(self) -> (mode: ViewMode)
        ensures
            mode == self.following(),
    {
        match self {
            ViewMode::Waveform => ViewMode::Spectrum,
            ViewMode::Spectrum => ViewMode::Split,
            ViewMode::Split => ViewMode::Waveform,
        }
    }

    /// Returns the short label for the recorder header.
    pub fn label(self) -> (label: &'static str)
        ensures
            label@ == self.name(),
    {
        match self {
            ViewMode::Waveform => "WAVE",
            ViewMode::Spectrum => "SPECTRUM",
            ViewMode::Split => "SPLIT",
        }
    }

    /// Reports whether the view has a frequency display.
    pub fn shows_spectrum(self) -> (shows: bool)
        ensures
            shows == self.has_spectrum(),
    {
        match self {
            ViewMode::Waveform => false,
            ViewMode::Spectrum => true,
            ViewMode::Split => true,
        }
    }
}

/// Three steps through the views come back to the first one, and no fewer do.
pub proof fn law_views_cycle(mode: ViewMode)
    ensures
        mode.following().following().following() == mode,
        mode.following() != mode,
        mode.following().following() != mode,
{
}

/// Describes the recorder state shown in the header.
#[derive(Clone, Copy, Debug, PartialEq, Eq, Structural)]
pub enum CaptureState {
    /// The capture thread prepares the device.
    Starting,
    /// Audio is recorded.
    Recording,
    /// The user paused the recording.
    Paused,
    /// A clip preview plays, and the recording waits for it.
    Previewing,
    /// Capture ended, and the last file is finalized.
    Finalizing,
}

/// A key of the keyboard.
#[derive(Clone, Copy, Debug, PartialEq, Eq, Structural)]
pub enum KeyCode {
    /// A key with a character.
    Char(char),
    /// The escape key.
    Esc,
    /// The enter key.
    Enter,
    /// The backspace key.
    Backspace,
    /// The tabulator key.
    Tab,
    /// The left arrow.
    Left,
    /// The right arrow.
    Right,
    /// The up arrow.
    Up,
    /// The down arrow.
    Down,
    /// Any other key.
    Other,
}

/// One key event of the terminal.
#[derive(Clone, Copy, Debug, PartialEq, Eq, Structural)]
pub struct Key {
    /// Which key it is.
    pub code: KeyCode,
    /// Whether the key went down or repeats. The release of a key has no effect.
    pub pressed: bool,
    /// Whether the control key is held.
    pub control: bool,
    /// Whether the shift key is held.
    pub shift: bool,
    /// Whether the alt key is held.
    pub alt: bool,
}

impl Key {
    /// Whether the key is this letter in either case.
    pub open spec fn is_letter(self, small: char, capital: char) -> bool {
        self.code == KeyCode::Char(small) || self.code == KeyCode::Char(capital)
    }

    /// Whether the key asks for the end of the recording from anywhere.
    pub open spec fn is_interrupt(self) -> bool {
        self.is_letter('c', 'C') && self.control
    }

    /// Reports whether the key is this letter in either case.
    pub fn letter(&self, small: char, capital: char) -> (same: bool)
        ensures
            same == self.is_letter(small, capital),
    {
        match self.code {
            KeyCode::Char(character) => character == small || character == capital,
            _ => false,
        }
    }
}

/// The mathematical value of an optional text.
pub open spec fn optional_text(message: Option<String>) -> Option<Seq<char>> {
    match message {
        Some(message) => Some(message@),
        None => None,
    }
}

/// Stores text and validation feedback for the clip-name prompt.
#[derive(Debug)]
pub struct ClipPrompt {
    /// Contains the file name as the user enters it.
    pub input: String,
    /// Contains the last validation or channel error.
    pub error: Option<String>,
}

/// The mathematical value of a [`ClipPrompt`].
pub struct PromptView {
    pub input: Seq<char>,
    pub error: Option<Seq<char>>,
}

impl View for ClipPrompt {
    type V = PromptView;

    open spec fn view(&self) -> PromptView {
        PromptView { input: self.input@, error: optional_text(self.error) }
    }
}

/// Stores one open selection and its bounded full-clip waveform.
#[derive(Debug)]
pub struct ClipReview {
    /// Identifies the file in the session save list.
    pub save_index: usize,
    /// Contains absolute PCM frame boundaries for the selection.
    pub selection: ClipSelection,
    /// Contains the bounded display copy of both channels.
    pub waveform: ClipWaveform,
    /// Contains the last preview or trim error.
    pub error: Option<String>,
}

/// The mathematical value of a [`ClipReview`].
pub struct ReviewView {
    pub save_index: nat,
    pub selection: clip::SelectionView,
    pub left: Seq<WaveformBin>,
    pub right: Seq<WaveformBin>,
    pub error: Option<Seq<char>>,
}

impl View for ClipReview {
    type V = ReviewView;

    open spec fn view(&self) -> ReviewView {
        ReviewView {
            save_index: self.save_index as nat,
            selection: self.selection@,
            left: self.waveform.left@,
            right: self.waveform.right@,
            error: optional_text(self.error),
        }
    }
}

/// Tracks a trim that runs away from terminal drawing.
#[derive(Clone, Copy, Debug, PartialEq, Eq, Structural)]
pub struct TrimJob {
    /// Identifies the file that the trim replaces.
    pub save_index: usize,
    /// Contains the first PCM frame to keep.
    pub start_frame: u64,
    /// Contains the exclusive last PCM frame to keep.
    pub end_frame: u64,
}

/// Owns all interface state for one recording process.
#[derive(Debug)]
pub struct App {
    /// Contains the capture state that the header shows.
    pub state: CaptureState,
    /// Contains the active live visualization layout.
    pub view: ViewMode,
    /// Contains six seconds of live stereo samples.
    pub waveform: Waveform,
    /// Reports whether the frequency display was used.
    pub spectrum: bool,
    /// Requests final capture shutdown.
    pub stop: bool,
    /// Omits capture packets while true.
    pub paused: bool,
    /// Contains the session directory or explicit file path.
    pub output: FilePath,
    /// Reports whether this output target can make named clips.
    pub clips_enabled: bool,
    /// Contains finalized MP3 files in capture order.
    pub saved: Vec<SavedFile>,
    /// Identifies the active row in the save list.
    pub selected_save: Option<usize>,
    /// Contains the open clip-name prompt, if any.
    pub clip_prompt: Option<ClipPrompt>,
    /// Contains the open clip editor, if any.
    pub clip_review: Option<ClipReview>,
    /// Reports whether a preview plays.
    pub preview: bool,
    /// Stores the pause state from before the preview started.
    pub preview_was_paused: Option<bool>,
    /// Contains one active background trim operation.
    pub trim_job: Option<TrimJob>,
    /// Contains short feedback for the saves panel.
    pub notice: Option<String>,
    /// Contains total encoded frames for elapsed time.
    pub encoded_frames: u64,
    /// Contains the rate that the encoder selected.
    pub sample_rate: u32,
    /// Contains the bit rate that the encoder selected.
    pub bitrate: u32,
    /// Reports whether the help overlay is open.
    pub show_help: bool,
    /// Describes the source that the saves selection currently targets.
    pub source_label: Option<String>,
}

/// The mathematical value of an [`App`].
pub struct AppView {
    pub state: CaptureState,
    pub view: ViewMode,
    pub waveform: waveform::WaveformView,
    pub spectrum: bool,
    pub stop: bool,
    pub paused: bool,
    pub output: path::PathView,
    pub clips_enabled: bool,
    pub saved: Seq<audio::SavedView>,
    pub selected: Option<nat>,
    pub prompt: Option<PromptView>,
    pub review: Option<ReviewView>,
    pub preview: bool,
    pub preview_was_paused: Option<bool>,
    pub trim: Option<TrimJob>,
    pub notice: Option<Seq<char>>,
    pub encoded_frames: nat,
    pub sample_rate: nat,
    pub bitrate: nat,
    pub show_help: bool,
    pub source_label: Option<Seq<char>>,
}

impl View for App {
    type V = AppView;

    open spec fn view(&self) -> AppView {
        AppView {
            state: self.state,
            view: self.view,
            waveform: self.waveform@,
            spectrum: self.spectrum,
            stop: self.stop,
            paused: self.paused,
            output: self.output@,
            clips_enabled: self.clips_enabled,
            saved: audio::output::file_views(self.saved@),
            selected: match self.selected_save {
                Some(index) => Some(index as nat),
                None => None,
            },
            prompt: match self.clip_prompt {
                Some(prompt) => Some(prompt@),
                None => None,
            },
            review: match self.clip_review {
                Some(review) => Some(review@),
                None => None,
            },
            preview: self.preview,
            preview_was_paused: self.preview_was_paused,
            trim: self.trim_job,
            notice: optional_text(self.notice),
            encoded_frames: self.encoded_frames as nat,
            sample_rate: self.sample_rate as nat,
            bitrate: self.bitrate as nat,
            show_help: self.show_help,
            source_label: optional_text(self.source_label),
        }
    }
}

/// The short name of the reason for a file.
pub open spec fn kind_name(kind: SavedFileKind) -> Seq<char> {
    match kind {
        SavedFileKind::Recording => "FILE"@,
        SavedFileKind::Part => "PART"@,
        SavedFileKind::Clip => "CLIP"@,
    }
}

/// Returns the short name of the reason for a file.
pub fn kind_label(kind: SavedFileKind) -> (label: &'static str)
    ensures
        label@ == kind_name(kind),
{
    match kind {
        SavedFileKind::Recording => "FILE",
        SavedFileKind::Part => "PART",
        SavedFileKind::Clip => "CLIP",
    }
}

/// The name under which a file is shown: its file name, or its whole path.
pub open spec fn shown_name(place: path::PathView) -> Seq<char> {
    if place.name.len() == 0 {
        place.text()
    } else {
        place.name
    }
}

/// Returns the name under which a file is shown.
pub fn shown_file_name(place: &FilePath) -> (name: String)
    ensures
        name@ == shown_name(place@),
{
    if place.name.as_str().unicode_len() == 0 {
        place.text()
    } else {
        place.name.clone()
    }
}

/// The source label of a file.
pub open spec fn file_label(file: audio::SavedView) -> Seq<char> {
    kind_name(file.kind) + " · "@ + shown_name(file.path)
}

/// The message behind a sent clip request.
pub open spec fn saving_text(stem: Seq<char>) -> Seq<char> {
    "Saving "@ + stem + ".mp3"@
}

/// Work that only the terminal owner can do.
#[derive(Debug)]
pub enum Request {
    /// Nothing.
    Nothing,
    /// A clip request was offered to the capture thread, with this outcome.
    Offered {
        /// Stem of the clip.
        stem: String,
        /// What the channel did with the request.
        outcome: SendOutcome,
    },
    /// Load the waveform of the clip at this index of the save list.
    LoadClip {
        /// Index in the save list.
        save_index: usize,
    },
    /// Play a range of the clip, given in frames behind its start.
    StartPreview {
        /// MP3 file.
        file: FilePath,
        /// First frame.
        start: u64,
        /// Frame behind the last one.
        end: u64,
        /// Frames per second.
        sample_rate: u32,
        /// Whether the recording was paused before.
        was_paused: bool,
    },
    /// Rebuild the MP3 of a clip from a range of its source.
    StartTrim {
        /// The range and the file.
        job: TrimJob,
    },
}

/// The mathematical value of a [`Request`].
pub enum RequestView {
    Nothing,
    Offered { stem: Seq<char>, outcome: SendOutcome },
    LoadClip { save_index: nat },
    StartPreview {
        file: path::PathView,
        start: nat,
        end: nat,
        sample_rate: nat,
        was_paused: bool,
    },
    StartTrim { job: TrimJob },
}

impl View for Request {
    type V = RequestView;

    open spec fn view(&self) -> RequestView {
        match self {
            Request::Nothing => RequestView::Nothing,
            Request::Offered { stem, outcome } => RequestView::Offered {
                stem: stem@,
                outcome: *outcome,
            },
            Request::LoadClip { save_index } => RequestView::LoadClip {
                save_index: *save_index as nat,
            },
            Request::StartPreview { file, start, end, sample_rate, was_paused } =>
                RequestView::StartPreview {
                    file: file@,
                    start: *start as nat,
                    end: *end as nat,
                    sample_rate: *sample_rate as nat,
                    was_paused: *was_paused,
                },
            Request::StartTrim { job } => RequestView::StartTrim { job: *job },
        }
    }
}

impl AppView {
    /// The live history is valid, and an open editor belongs to a clip in the
    /// save list whose source it shows.
    pub open spec fn wf(self) -> bool {
        &&& self.waveform.wf()
        &&& self.review is Some ==> {
            let review = self.review->0;
            &&& review.selection.wf()
            &&& review.save_index < self.saved.len()
            &&& self.saved[review.save_index as int].edit_source is Some
            &&& self.saved[review.save_index as int].edit_source->0.start_frame
                == review.selection.source_start
            &&& self.saved[review.save_index as int].edit_source->0.end_frame
                == review.selection.source_end
        }
    }

    /// The state behind an end of the preview: playback is off, and the pause
    /// state from before it is back.
    pub open spec fn without_preview(self) -> AppView {
        let restored = match self.preview_was_paused {
            Some(was_paused) => AppView {
                paused: was_paused,
                state: if self.state == CaptureState::Finalizing {
                    self.state
                } else if was_paused {
                    CaptureState::Paused
                } else {
                    CaptureState::Recording
                },
                ..self
            },
            None => self,
        };
        AppView { preview: false, preview_was_paused: None, ..restored }
    }

    /// The state behind a request for the end of the recording.
    pub open spec fn stopping(self) -> AppView {
        AppView { stop: true, state: CaptureState::Finalizing, ..self.without_preview() }
    }

    /// The state with the pause switched.
    pub open spec fn pause_switched(self) -> AppView {
        AppView {
            paused: !self.paused,
            state: if self.paused {
                CaptureState::Recording
            } else {
                CaptureState::Paused
            },
            ..self
        }
    }

    /// The state with the next view.
    pub open spec fn next_view(self) -> AppView {
        let view = self.view.following();
        AppView { view, spectrum: self.spectrum || view.has_spectrum(), ..self }
    }

    /// The state with the label of the selected file.
    pub open spec fn labelled(self) -> AppView {
        AppView {
            source_label: match self.selected {
                Some(index) => if index < self.saved.len() {
                    Some(file_label(self.saved[index as int]))
                } else {
                    None
                },
                None => None,
            },
            ..self
        }
    }

    /// The state with the file in front of the selected one selected.
    pub open spec fn previous_selected(self) -> AppView {
        let selected = match self.selected {
            Some(index) => if index > 0 {
                Some((index - 1) as nat)
            } else if self.saved.len() > 0 {
                Some(0)
            } else {
                None
            },
            None => if self.saved.len() > 0 {
                Some(0)
            } else {
                None
            },
        };
        (AppView { selected, ..self }).labelled()
    }

    /// The state with the file behind the selected one selected.
    pub open spec fn next_selected(self) -> AppView {
        let selected = match self.selected {
            Some(index) => if index + 1 < self.saved.len() {
                Some(index + 1)
            } else {
                Some(index)
            },
            None => if self.saved.len() > 0 {
                Some(0)
            } else {
                None
            },
        };
        (AppView { selected, ..self }).labelled()
    }

    /// The state with a message.
    pub open spec fn noticed(self, message: Seq<char>) -> AppView {
        AppView { notice: Some(message), ..self }
    }

    /// The state with an error in the prompt, where it is open.
    pub open spec fn prompt_failed(self, message: Seq<char>) -> AppView {
        AppView {
            prompt: match self.prompt {
                Some(prompt) => Some(PromptView { error: Some(message), ..prompt }),
                None => None,
            },
            ..self
        }
    }

    /// The state with an error in the editor, where it is open.
    pub open spec fn review_failed(self, message: Seq<char>) -> AppView {
        AppView {
            review: match self.review {
                Some(review) => Some(ReviewView { error: Some(message), ..review }),
                None => None,
            },
            ..self
        }
    }

    /// The state without an error in the editor.
    pub open spec fn review_cleared(self) -> AppView {
        AppView {
            review: match self.review {
                Some(review) => Some(ReviewView { error: None, ..review }),
                None => None,
            },
            ..self
        }
    }

    /// The state behind a clip request that the channel answered.
    pub open spec fn offered(self, stem: Seq<char>, outcome: SendOutcome) -> AppView {
        match outcome {
            SendOutcome::Sent => AppView {
                notice: Some(saving_text(stem)),
                prompt: None,
                ..self
            },
            SendOutcome::Full => self.prompt_failed("The audio thread is busy. Try again."@),
            SendOutcome::Disconnected => self.prompt_failed("Audio capture has stopped."@),
        }
    }
}

impl AppView {
    /// The prompt and the request behind a key in the open prompt. `outcome` is
    /// what the channel does with a request, where the key makes one.
    pub open spec fn prompt_step(self, key: Key, outcome: SendOutcome) -> (AppView, RequestView) {
        let prompt = self.prompt->0;
        match key.code {
            KeyCode::Esc => (AppView { prompt: None, ..self }, RequestView::Nothing),
            KeyCode::Enter => match session::clip_stem_of(prompt.input) {
                Ok(stem) => (
                    self.offered(stem, outcome),
                    RequestView::Offered { stem, outcome },
                ),
                Err(problem) => (
                    self.prompt_failed(session::problem_text(problem)),
                    RequestView::Nothing,
                ),
            },
            KeyCode::Backspace => (
                AppView {
                    prompt: Some(
                        PromptView {
                            input: if prompt.input.len() > 0 {
                                prompt.input.drop_last()
                            } else {
                                prompt.input
                            },
                            error: None,
                        },
                    ),
                    ..self
                },
                RequestView::Nothing,
            ),
            KeyCode::Char(character) => if !text::is_control(character) && !key.control
                && !key.alt && prompt.input.len() < PROMPT_LIMIT {
                (
                    AppView {
                        prompt: Some(
                            PromptView { input: prompt.input.push(character), error: None },
                        ),
                        ..self
                    },
                    RequestView::Nothing,
                )
            } else {
                (self, RequestView::Nothing)
            },
            _ => (self, RequestView::Nothing),
        }
    }

    /// The state and the request behind the key that opens the editor.
    pub open spec fn open_step(self) -> (AppView, RequestView) {
        match self.selected {
            None => (self.noticed("Select a named clip first"@), RequestView::Nothing),
            Some(index) => if index >= self.saved.len() {
                (
                    self.noticed("The selected file is no longer available"@),
                    RequestView::Nothing,
                )
            } else {
                let file = self.saved[index as int];
                match file.edit_source {
                    None => (
                        self.noticed("Only named clips can open in the editor"@),
                        RequestView::Nothing,
                    ),
                    Some(source) => if source.start_frame >= source.end_frame || file.sample_rate
                        == 0 {
                        (
                            self.noticed("the clip selection must contain audio"@),
                            RequestView::Nothing,
                        )
                    } else {
                        (self, RequestView::LoadClip { save_index: index })
                    },
                }
            },
        }
    }

    /// The distance that an arrow key moves a boundary, in frames.
    pub open spec fn nudge_distance(key: Key, sample_rate: nat) -> int {
        let step: int = if key.shift {
            sample_rate as int
        } else if key.control {
            if sample_rate / 100 < 1 {
                1
            } else {
                (sample_rate / 100) as int
            }
        } else {
            if sample_rate / 10 < 1 {
                1
            } else {
                (sample_rate / 10) as int
            }
        };
        if key.code == KeyCode::Left {
            -step
        } else {
            step
        }
    }

    /// The state with another selection in the editor, and no error.
    pub open spec fn reselected(self, selection: clip::SelectionView) -> AppView {
        AppView {
            review: Some(ReviewView { selection, error: None, ..self.review->0 }),
            ..self
        }
    }

    /// The state and the request behind the preview key.
    pub open spec fn preview_step(self) -> (AppView, RequestView) {
        if self.preview {
            (self.without_preview(), RequestView::Nothing)
        } else {
            let review = self.review->0;
            let file = self.saved[review.save_index as int];
            let source = file.edit_source->0;
            (
                AppView { paused: true, state: CaptureState::Previewing, ..self },
                RequestView::StartPreview {
                    file: file.path,
                    start: (review.selection.start - source.start_frame) as nat,
                    end: (review.selection.end - source.start_frame) as nat,
                    sample_rate: file.sample_rate,
                    was_paused: self.paused,
                },
            )
        }
    }

    /// The state and the request behind the trim key.
    pub open spec fn trim_step(self) -> (AppView, RequestView) {
        let quiet = self.without_preview();
        let review = self.review->0;
        let file = self.saved[review.save_index as int];
        let source = file.edit_source->0;
        if review.selection.start == source.start_frame && review.selection.end
            == source.end_frame {
            (
                AppView {
                    notice: Some("Kept "@ + file.path.text() + " without trimming"@),
                    review: None,
                    ..quiet
                },
                RequestView::Nothing,
            )
        } else {
            (
                quiet,
                RequestView::StartTrim {
                    job: TrimJob {
                        save_index: review.save_index as usize,
                        start_frame: review.selection.start as u64,
                        end_frame: review.selection.end as u64,
                    },
                },
            )
        }
    }

    /// The state and the request behind a key in the open editor.
    pub open spec fn review_step(self, key: Key) -> (AppView, RequestView) {
        let selection = self.review->0.selection;
        if self.trim is Some {
            (self, RequestView::Nothing)
        } else if key.code == KeyCode::Esc {
            (AppView { review: None, ..self.without_preview() }, RequestView::Nothing)
        } else if key.code == KeyCode::Tab {
            (self.reselected(selection.toggled()), RequestView::Nothing)
        } else if key.code == KeyCode::Left || key.code == KeyCode::Right {
            (
                self.reselected(
                    selection.nudged(AppView::nudge_distance(key, selection.sample_rate)),
                ),
                RequestView::Nothing,
            )
        } else if key.is_letter('r', 'R') {
            (self.reselected(selection.restored()), RequestView::Nothing)
        } else if key.is_letter('p', 'P') {
            self.preview_step()
        } else if key.code == KeyCode::Enter {
            self.trim_step()
        } else {
            (self, RequestView::Nothing)
        }
    }

    /// The state and the request behind a key in the recorder itself.
    pub open spec fn recorder_step(self, key: Key) -> (AppView, RequestView) {
        if key.is_letter('s', 'S') || key.is_letter('q', 'Q') || key.code == KeyCode::Esc {
            (self.stopping(), RequestView::Nothing)
        } else if key.code == KeyCode::Char(' ') && self.state != CaptureState::Starting
            && self.state != CaptureState::Finalizing {
            (self.pause_switched(), RequestView::Nothing)
        } else if key.is_letter('w', 'W') {
            (self.next_view(), RequestView::Nothing)
        } else if key.code == KeyCode::Char('?') {
            (AppView { show_help: true, ..self }, RequestView::Nothing)
        } else if key.is_letter('c', 'C') && self.clips_enabled && (self.state
            == CaptureState::Recording || self.state == CaptureState::Paused) {
            (
                AppView {
                    prompt: Some(PromptView { input: Seq::empty(), error: None }),
                    notice: None,
                    ..self
                },
                RequestView::Nothing,
            )
        } else if key.code == KeyCode::Up {
            (self.previous_selected(), RequestView::Nothing)
        } else if key.code == KeyCode::Down {
            (self.next_selected(), RequestView::Nothing)
        } else if key.is_letter('e', 'E') {
            self.open_step()
        } else {
            (self, RequestView::Nothing)
        }
    }

    /// The state and the request behind a key. The interrupt key works
    /// everywhere. Every other key goes to the topmost open part.
    pub open spec fn key_step(self, key: Key, outcome: SendOutcome) -> (AppView, RequestView) {
        if !key.pressed {
            (self, RequestView::Nothing)
        } else if key.is_interrupt() {
            (self.stopping(), RequestView::Nothing)
        } else if self.prompt is Some {
            self.prompt_step(key, outcome)
        } else if self.review is Some {
            self.review_step(key)
        } else if self.show_help {
            if key.code == KeyCode::Esc || key.code == KeyCode::Char('?') {
                (AppView { show_help: false, ..self }, RequestView::Nothing)
            } else {
                (self, RequestView::Nothing)
            }
        } else {
            self.recorder_step(key)
        }
    }
}

impl App {
    /// Creates the initial state without a frequency display or a large
    /// history reserve.
    pub fn new(target: &OutputTarget) -> (app: App)
        ensures
            app@.wf(),
            app@ == (AppView {
                state: CaptureState::Starting,
                view: ViewMode::Split,
                waveform: waveform::WaveformView {
                    left: Seq::empty(),
                    right: Seq::empty(),
                    left_peak: crate::sample::Sample { bits: 0 },
                    right_peak: crate::sample::Sample { bits: 0 },
                    capacity: HISTORY_FRAMES as nat,
                },
                spectrum: false,
                stop: false,
                paused: false,
                output: target.place(),
                clips_enabled: target is Session,
                saved: Seq::empty(),
                selected: None,
                prompt: None,
                review: None,
                preview: false,
                preview_was_paused: None,
                trim: None,
                notice: None,
                encoded_frames: 0,
                sample_rate: 48_000,
                bitrate: 320_000,
                show_help: false,
                source_label: None,
            }),
    {
        let app = App {
            state: CaptureState::Starting,
            view: ViewMode::Split,
            waveform: Waveform::new(HISTORY_FRAMES),
            spectrum: false,
            stop: false,
            paused: false,
            output: target.root().clone(),
            clips_enabled: target.is_session(),
            saved: Vec::new(),
            selected_save: None,
            clip_prompt: None,
            clip_review: None,
            preview: false,
            preview_was_paused: None,
            trim_job: None,
            notice: None,
            encoded_frames: 0,
            sample_rate: 48_000,
            bitrate: 320_000,
            show_help: false,
            source_label: None,
        };
        proof {
            assert(app@.saved =~= Seq::<audio::SavedView>::empty());
        }
        app
    }

    /// Updates the source label from the saves selection.
    fn refresh_source_label(&mut self)
        ensures
            final(self)@ == old(self)@.labelled(),
            final(self).clip_review == old(self).clip_review,
    {
        let label = match self.selected_save {
            Some(index) => if index < self.saved.len() {
                let file = &self.saved[index];
                let mut label = String::from_str(kind_label(file.kind));
                label.append(" · ");
                label.append(shown_file_name(&file.path).as_str());
                Some(label)
            } else {
                None
            },
            None => None,
        };
        self.source_label = label;
    }

    /// Ends a preview and restores the previous pause state.
    pub fn stop_preview(&mut self)
        ensures
            final(self)@ == old(self)@.without_preview(),
            final(self).clip_review == old(self).clip_review,
    {
        self.preview = false;
        match self.preview_was_paused {
            Some(was_paused) => {
                self.paused = was_paused;
                if self.state != CaptureState::Finalizing {
                    self.state = if was_paused {
                        CaptureState::Paused
                    } else {
                        CaptureState::Recording
                    };
                }
                self.preview_was_paused = None;
            },
            None => {},
        }
    }

    /// Ends a preview and then requests MP3 finalization.
    pub fn request_stop(&mut self)
        ensures
            final(self)@ == old(self)@.stopping(),
            final(self).clip_review == old(self).clip_review,
    {
        self.stop_preview();
        self.stop = true;
        self.state = CaptureState::Finalizing;
    }

    /// Moves the save-list selection toward the first item.
    fn select_previous_save(&mut self)
        ensures
            final(self)@ == old(self)@.previous_selected(),
            final(self).clip_review == old(self).clip_review,
    {
        let found = self.saved.len() > 0;
        self.selected_save = match self.selected_save {
            Some(index) => if index > 0 {
                Some(index - 1)
            } else if found {
                Some(0)
            } else {
                None
            },
            None => if found {
                Some(0)
            } else {
                None
            },
        };
        self.refresh_source_label();
    }

    /// Moves the save-list selection toward the last item.
    fn select_next_save(&mut self)
        ensures
            final(self)@ == old(self)@.next_selected(),
            final(self).clip_review == old(self).clip_review,
    {
        let count: usize = self.saved.len();
        self.selected_save = match self.selected_save {
            Some(index) => if count > 0 && index < count - 1 {
                Some(index + 1)
            } else {
                Some(index)
            },
            None => if count > 0 {
                Some(0)
            } else {
                None
            },
        };
        self.refresh_source_label();
    }
}

/// The outcome that a request reports, where it reports one.
pub open spec fn reported_outcome(request: RequestView) -> SendOutcome {
    match request {
        RequestView::Offered { outcome, .. } => outcome,
        _ => SendOutcome::Sent,
    }
}

/// Whether a request tells what was handed to the command channel: exactly one
/// clip request with the reported stem and the reported outcome, or nothing.
pub open spec fn is_handed_over(
    before: Seq<Step<AudioCommand>>,
    after: Seq<Step<AudioCommand>>,
    request: RequestView,
) -> bool {
    match request {
        RequestView::Offered { stem, outcome } => {
            &&& after == before.push(after.last())
            &&& after.last() is Offered
            &&& after.last()->Offered_0 is SaveClip
            &&& after.last()->Offered_0->SaveClip_0@ == stem
            &&& after.last()->Offered_1 == outcome
        },
        _ => after == before,
    }
}

impl App {
    /// Shows an error in the prompt, where it is open.
    fn fail_prompt(&mut self, message: &str)
        ensures
            final(self)@ == old(self)@.prompt_failed(message@),
            final(self).clip_review == old(self).clip_review,
    {
        match self.clip_prompt.take() {
            Some(prompt) => {
                self.clip_prompt = Some(
                    ClipPrompt { input: prompt.input, error: Some(String::from_str(message)) },
                );
            },
            None => {},
        }
    }

    /// Applies what the channel did with a clip request.
    pub fn clip_offered(&mut self, stem: &str, outcome: SendOutcome)
        ensures
            final(self)@ == old(self)@.offered(stem@, outcome),
            final(self).clip_review == old(self).clip_review,
    {
        match outcome {
            SendOutcome::Sent => {
                let mut message = String::from_str("Saving ");
                message.append(stem);
                message.append(".mp3");
                self.notice = Some(message);
                self.clip_prompt = None;
            },
            SendOutcome::Full => {
                self.fail_prompt("The audio thread is busy. Try again.");
            },
            SendOutcome::Disconnected => {
                self.fail_prompt("Audio capture has stopped.");
            },
        }
    }

    /// Edits, validates, or submits the clip-name prompt.
    fn handle_clip_prompt(&mut self, key: Key, commands: &mut Outbox<AudioCommand>) -> (request:
        Request)
        requires
            old(self)@.prompt is Some,
        ensures
            (final(self)@, request@) == old(self)@.prompt_step(key, reported_outcome(request@)),
            is_handed_over(old(commands).steps(), final(commands).steps(), request@),
            final(self).clip_review == old(self).clip_review,
    {
        let prompt = match self.clip_prompt.take() {
            Some(prompt) => prompt,
            None => ClipPrompt { input: String::new(), error: None },
        };
        match key.code {
            KeyCode::Esc => Request::Nothing,
            KeyCode::Enter => {
                let checked = clip_stem(prompt.input.as_str());
                self.clip_prompt = Some(prompt);
                match checked {
                    Ok(stem) => {
                        let command = AudioCommand::SaveClip(stem.clone());
                        let outcome = commands.offer(command);
                        self.clip_offered(stem.as_str(), outcome);
                        Request::Offered { stem, outcome }
                    },
                    Err(error) => {
                        self.fail_prompt(error.message());
                        Request::Nothing
                    },
                }
            },
            KeyCode::Backspace => {
                let mut input = prompt.input;
                let _ = input.pop();
                self.clip_prompt = Some(ClipPrompt { input, error: None });
                Request::Nothing
            },
            KeyCode::Char(character) => {
                if !text::control(character) && !key.control && !key.alt
                    && prompt.input.as_str().unicode_len() < PROMPT_LIMIT {
                    let mut input = prompt.input;
                    input.push(character);
                    self.clip_prompt = Some(ClipPrompt { input, error: None });
                } else {
                    self.clip_prompt = Some(prompt);
                }
                Request::Nothing
            },
            _ => {
                self.clip_prompt = Some(prompt);
                Request::Nothing
            },
        }
    }

    /// Checks the selected file for the editor.
    fn open_clip_review(&mut self) -> (request: Request)
        requires
            old(self)@.wf(),
        ensures
            (final(self)@, request@) == old(self)@.open_step(),
            final(self).clip_review == old(self).clip_review,
    {
        let index = match self.selected_save {
            None => {
                self.notice = Some(String::from_str("Select a named clip first"));
                return Request::Nothing;
            },
            Some(index) => index,
        };
        if index >= self.saved.len() {
            self.notice = Some(String::from_str("The selected file is no longer available"));
            return Request::Nothing;
        }
        let file = &self.saved[index];
        match &file.edit_source {
            None => {
                self.notice = Some(String::from_str("Only named clips can open in the editor"));
                Request::Nothing
            },
            Some(source) => {
                match ClipSelection::new(source.start_frame, source.end_frame, file.sample_rate) {
                    Err(error) => {
                        self.notice = Some(String::from_str(error.message()));
                        Request::Nothing
                    },
                    Ok(_) => Request::LoadClip { save_index: index },
                }
            },
        }
    }

    /// Starts or stops playback of only the selected clip range.
    fn toggle_preview(&mut self) -> (request: Request)
        requires
            old(self)@.wf(),
            old(self)@.review is Some,
        ensures
            (final(self)@, request@) == old(self)@.preview_step(),
            final(self).clip_review == old(self).clip_review,
    {
        if self.preview {
            self.stop_preview();
            return Request::Nothing;
        }
        let request = match &self.clip_review {
            None => Request::Nothing,
            Some(review) => {
                let file = &self.saved[review.save_index];
                match &file.edit_source {
                    None => Request::Nothing,
                    Some(source) => Request::StartPreview {
                        file: file.path.clone(),
                        start: review.selection.start_frame() - source.start_frame,
                        end: review.selection.end_frame() - source.start_frame,
                        sample_rate: file.sample_rate,
                        was_paused: self.paused,
                    },
                }
            },
        };
        self.paused = true;
        self.state = CaptureState::Previewing;
        request
    }

    /// Asks for a trim of the selected clip, or keeps a clip that is not changed.
    fn start_trim_job(&mut self) -> (request: Request)
        requires
            old(self)@.wf(),
            old(self)@.review is Some,
        ensures
            (final(self)@, request@) == old(self)@.trim_step(),
    {
        self.stop_preview();
        let (request, notice) = match &self.clip_review {
            None => (Request::Nothing, None),
            Some(review) => {
                let file = &self.saved[review.save_index];
                match &file.edit_source {
                    None => (Request::Nothing, None),
                    Some(source) => {
                        let start_frame: u64 = review.selection.start_frame();
                        let end_frame: u64 = review.selection.end_frame();
                        if start_frame == source.start_frame && end_frame == source.end_frame {
                            let mut message = String::from_str("Kept ");
                            message.append(file.path.text().as_str());
                            message.append(" without trimming");
                            (Request::Nothing, Some(message))
                        } else {
                            (
                                Request::StartTrim {
                                    job: TrimJob {
                                        save_index: review.save_index,
                                        start_frame,
                                        end_frame,
                                    },
                                },
                                None,
                            )
                        }
                    },
                }
            },
        };
        match notice {
            Some(message) => {
                self.notice = Some(message);
                self.clip_review = None;
            },
            None => {},
        }
        request
    }

    /// Returns the distance that an arrow key moves a boundary.
    fn nudge_frames(key: Key, sample_rate: u32) -> (distance: i64)
        ensures
            distance == AppView::nudge_distance(key, sample_rate as nat),
    {
        let rate: i64 = sample_rate as i64;
        let step: i64 = if key.shift {
            rate
        } else if key.control {
            if rate / 100 < 1 {
                1
            } else {
                rate / 100
            }
        } else {
            if rate / 10 < 1 {
                1
            } else {
                rate / 10
            }
        };
        match key.code {
            KeyCode::Left => -step,
            _ => step,
        }
    }

    /// Applies trim-handle and preview keys to the open editor.
    fn handle_clip_review(&mut self, key: Key) -> (request: Request)
        requires
            old(self)@.wf(),
            old(self)@.review is Some,
        ensures
            (final(self)@, request@) == old(self)@.review_step(key),
    {
        if self.trim_job.is_some() {
            return Request::Nothing;
        }
        if key.letter('p', 'P') {
            return self.toggle_preview();
        }
        match key.code {
            KeyCode::Esc => {
                self.stop_preview();
                self.clip_review = None;
                Request::Nothing
            },
            KeyCode::Enter => self.start_trim_job(),
            _ => {
                let reset = key.letter('r', 'R');
                match self.clip_review.take() {
                    None => {},
                    Some(review) => {
                        let mut selection = review.selection.clone();
                        let changed = match key.code {
                            KeyCode::Tab => {
                                selection.toggle_handle();
                                true
                            },
                            KeyCode::Left => {
                                let rate: u32 = selection.sample_rate();
                                selection.nudge(App::nudge_frames(key, rate));
                                true
                            },
                            KeyCode::Right => {
                                let rate: u32 = selection.sample_rate();
                                selection.nudge(App::nudge_frames(key, rate));
                                true
                            },
                            _ => {
                                if reset {
                                    selection.reset();
                                }
                                reset
                            },
                        };
                        if changed {
                            self.clip_review = Some(
                                ClipReview {
                                    save_index: review.save_index,
                                    selection,
                                    waveform: review.waveform,
                                    error: None,
                                },
                            );
                        } else {
                            self.clip_review = Some(review);
                        }
                    },
                }
                Request::Nothing
            },
        }
    }
}

impl App {
    /// Handles a key in the recorder itself.
    fn handle_recorder_key(&mut self, key: Key) -> (request: Request)
        requires
            old(self)@.wf(),
        ensures
            (final(self)@, request@) == old(self)@.recorder_step(key),
    {
        if key.letter('s', 'S') || key.letter('q', 'Q') {
            self.request_stop();
            return Request::Nothing;
        }
        if key.letter('w', 'W') {
            self.view = self.view.next();
            if self.view.shows_spectrum() {
                self.spectrum = true;
            }
            return Request::Nothing;
        }
        if key.letter('c', 'C') {
            if self.clips_enabled && (self.state == CaptureState::Recording || self.state
                == CaptureState::Paused) {
                let input = String::new();
                proof {
                    assert(input@ =~= Seq::<char>::empty());
                }
                self.clip_prompt = Some(ClipPrompt { input, error: None });
                self.notice = None;
            }
            return Request::Nothing;
        }
        if key.letter('e', 'E') {
            return self.open_clip_review();
        }
        match key.code {
            KeyCode::Esc => {
                self.request_stop();
            },
            KeyCode::Char(' ') => {
                if self.state != CaptureState::Starting && self.state != CaptureState::Finalizing {
                    self.state = if self.paused {
                        CaptureState::Recording
                    } else {
                        CaptureState::Paused
                    };
                    self.paused = !self.paused;
                }
            },
            KeyCode::Char('?') => {
                self.show_help = true;
            },
            KeyCode::Up => {
                self.select_previous_save();
            },
            KeyCode::Down => {
                self.select_next_save();
            },
            _ => {},
        }
        Request::Nothing
    }

    /// Routes one key to the active prompt, the editor, or recorder controls.
    ///
    /// A clip request goes to `commands`, and nothing else does. The result tells
    /// what was offered and what became of it.
    pub fn handle_event(&mut self, key: Key, commands: &mut Outbox<AudioCommand>) -> (request:
        Request)
        requires
            old(self)@.wf(),
        ensures
            (final(self)@, request@) == old(self)@.key_step(key, reported_outcome(request@)),
            is_handed_over(old(commands).steps(), final(commands).steps(), request@),
            final(self)@.wf(),
    {
        let ghost before = self@;
        if !key.pressed {
            return Request::Nothing;
        }
        if key.letter('c', 'C') && key.control {
            self.request_stop();
            proof {
                law_keys_keep_the_state_valid(before, key, SendOutcome::Sent);
            }
            return Request::Nothing;
        }
        if self.clip_prompt.is_some() {
            let request = self.handle_clip_prompt(key, commands);
            proof {
                lemma_prompt_keeps_the_state_valid(before, key, reported_outcome(request@));
            }
            return request;
        }
        if self.clip_review.is_some() {
            let request = self.handle_clip_review(key);
            proof {
                lemma_editor_keeps_the_state_valid(before, key);
            }
            return request;
        }
        if self.show_help {
            match key.code {
                KeyCode::Esc => {
                    self.show_help = false;
                },
                KeyCode::Char('?') => {
                    self.show_help = false;
                },
                _ => {},
            }
            return Request::Nothing;
        }
        let request = self.handle_recorder_key(key);
        proof {
            lemma_recorder_keeps_the_state_valid(before, key);
        }
        request
    }
}

/// The prompt leaves the save list and the editor alone.
proof fn lemma_prompt_keeps_the_state_valid(app: AppView, key: Key, outcome: SendOutcome)
    requires
        app.wf(),
        app.prompt is Some,
    ensures
        app.prompt_step(key, outcome).0.wf(),
{
    let next = app.prompt_step(key, outcome).0;
    assert(next.waveform == app.waveform && next.saved == app.saved && next.review == app.review);
}

/// The editor keeps its file, and its selection stays valid.
proof fn lemma_editor_keeps_the_state_valid(app: AppView, key: Key)
    requires
        app.wf(),
        app.review is Some,
    ensures
        app.review_step(key).0.wf(),
{
    let selection = app.review->0.selection;
    let next = app.review_step(key).0;
    clip::law_selection_stays_valid(
        selection,
        AppView::nudge_distance(key, selection.sample_rate),
    );
    assert(next.waveform == app.waveform && next.saved == app.saved);
    assert(next.review is None || next.review->0.save_index == app.review->0.save_index);
}

/// The recorder keys leave the save list and the editor alone.
proof fn lemma_recorder_keeps_the_state_valid(app: AppView, key: Key)
    requires
        app.wf(),
    ensures
        app.recorder_step(key).0.wf(),
{
    let next = app.recorder_step(key).0;
    assert(next.waveform == app.waveform && next.saved == app.saved && next.review == app.review);
}

/// No key breaks the state: whatever the channel answers, an open editor still
/// belongs to a clip in the save list, and its selection is valid.
pub proof fn law_keys_keep_the_state_valid(app: AppView, key: Key, outcome: SendOutcome)
    requires
        app.wf(),
    ensures
        app.key_step(key, outcome).0.wf(),
{
    if !key.pressed {
    } else if key.is_interrupt() {
        let next = app.stopping();
        assert(next.waveform == app.waveform && next.saved == app.saved && next.review
            == app.review);
    } else if app.prompt is Some {
        lemma_prompt_keeps_the_state_valid(app, key, outcome);
    } else if app.review is Some {
        lemma_editor_keeps_the_state_valid(app, key);
    } else if !app.show_help {
        lemma_recorder_keeps_the_state_valid(app, key);
    }
}

/// The interrupt key stops the recording from everywhere: the state is final,
/// the stop is requested, and no preview plays.
pub proof fn law_interrupt_stops_from_everywhere(app: AppView, key: Key, outcome: SendOutcome)
    requires
        key.pressed,
        key.is_interrupt(),
    ensures
        app.key_step(key, outcome).0.stop,
        app.key_step(key, outcome).0.state == CaptureState::Finalizing,
        !app.key_step(key, outcome).0.preview,
{
}

/// What the channel answers matters only to a key that submits a clip name.
pub proof fn law_only_submitted_names_depend_on_the_channel(
    app: AppView,
    key: Key,
    first: SendOutcome,
    second: SendOutcome,
)
    requires
        !(app.prompt is Some && key.code == KeyCode::Enter),
    ensures
        app.key_step(key, first) == app.key_step(key, second),
{
}

/// Whether a key starts a preview from the editor.
pub open spec fn starts_preview(app: AppView, key: Key) -> bool {
    &&& key.pressed
    &&& key.is_letter('p', 'P')
    &&& app.prompt is None
    &&& app.review is Some
    &&& app.trim is None
    &&& !app.preview
}

/// A finished recording stays finished: no key leads out of the final state,
/// except the one that starts a preview.
pub proof fn law_finalizing_is_final(app: AppView, key: Key, outcome: SendOutcome)
    requires
        app.state == CaptureState::Finalizing,
        !starts_preview(app, key),
    ensures
        app.key_step(key, outcome).0.state == CaptureState::Finalizing,
{
}

/// Starting a preview pauses capture, and its end restores the pause state from
/// before, however it ends: by its key, on its own, or with an error. A second
/// end changes nothing.
pub proof fn law_previews_restore_the_pause_state(app: AppView, error: Seq<char>)
    requires
        app.wf(),
        app.review is Some,
        !app.preview,
    ensures
        ({
            let started = app.preview_step().0.preview_begun(app.paused);
            let ended = started.without_preview();
            &&& started.paused
            &&& started.preview
            &&& ended.paused == app.paused
            &&& !ended.preview
            &&& ended.state == (if app.paused {
                CaptureState::Paused
            } else {
                CaptureState::Recording
            })
            &&& ended.without_preview() == ended
            &&& started.preview_step() == (ended, RequestView::Nothing)
            &&& started.preview_polled(Ok(false)) == ended
            &&& started.preview_polled(Err(error)).paused == app.paused
            &&& started.preview_polled(Err(error)).state == ended.state
            &&& !started.preview_polled(Err(error)).preview
        }),
{
}

/// The end of a playing preview restores the pause state from before it, also
/// when keys and events came in between. A final state stays final.
pub proof fn law_ended_previews_restore_the_pause_state(app: AppView, was_paused: bool)
    requires
        app.preview_was_paused == Some(was_paused),
    ensures
        app.without_preview().paused == was_paused,
        !app.without_preview().preview,
        app.without_preview().preview_was_paused is None,
        app.without_preview().state == (if app.state == CaptureState::Finalizing {
            CaptureState::Finalizing
        } else if was_paused {
            CaptureState::Paused
        } else {
            CaptureState::Recording
        }),
        app.without_preview().without_preview() == app.without_preview(),
{
}

impl AppView {
    /// The state behind the start of a preview.
    pub open spec fn preview_begun(self, was_paused: bool) -> AppView {
        AppView {
            preview: true,
            preview_was_paused: Some(was_paused),
            ..self.review_cleared()
        }
    }

    /// The state behind a preview that could not start.
    pub open spec fn preview_refused(self, was_paused: bool, error: Seq<char>) -> AppView {
        let restored = AppView {
            paused: was_paused,
            state: if was_paused {
                CaptureState::Paused
            } else {
                CaptureState::Recording
            },
            ..self
        };
        restored.review_failed("Preview failed: "@ + error)
    }

    /// The state behind a look at the playing preview.
    pub open spec fn preview_polled(self, playing: Result<bool, Seq<char>>) -> AppView {
        if !self.preview {
            self
        } else {
            match playing {
                Ok(true) => self,
                Ok(false) => self.without_preview(),
                Err(error) => self.review_failed("Preview failed: "@ + error).without_preview(),
            }
        }
    }

    /// The state behind the loading of a clip into the editor.
    pub open spec fn clip_loaded(
        self,
        save_index: nat,
        loaded: Result<(Seq<WaveformBin>, Seq<WaveformBin>), Seq<char>>,
    ) -> AppView {
        match loaded {
            Ok((left, right)) => {
                let file = self.saved[save_index as int];
                let source = file.edit_source->0;
                AppView {
                    review: Some(
                        ReviewView {
                            save_index,
                            selection: clip::SelectionView::full(
                                source.start_frame,
                                source.end_frame,
                                file.sample_rate,
                            ),
                            left,
                            right,
                            error: None,
                        },
                    ),
                    notice: None,
                    ..self
                }
            },
            Err(error) => self.noticed("Could not open clip: "@ + error),
        }
    }

    /// Whether the file at an index can open in the editor.
    pub open spec fn can_open(self, save_index: nat) -> bool {
        &&& save_index < self.saved.len()
        &&& self.saved[save_index as int].edit_source is Some
        &&& self.saved[save_index as int].edit_source->0.start_frame
            < self.saved[save_index as int].edit_source->0.end_frame
        &&& self.saved[save_index as int].sample_rate > 0
    }

    /// The state behind the start of a trim.
    pub open spec fn trim_begun(self, job: TrimJob) -> AppView {
        AppView { trim: Some(job), ..self.review_cleared() }
    }

    /// The save list behind a finished trim.
    pub open spec fn trimmed_files(self, job: TrimJob, frames: nat) -> Seq<audio::SavedView> {
        let file = self.saved[job.save_index as int];
        self.saved.update(
            job.save_index as int,
            audio::SavedView {
                frames,
                edit_source: match file.edit_source {
                    Some(source) => Some(
                        audio::EditSourceView {
                            start_frame: job.start_frame as nat,
                            end_frame: job.end_frame as nat,
                            ..source
                        },
                    ),
                    None => None,
                },
                ..file
            },
        )
    }

    /// The state behind the end of the trim.
    pub open spec fn trim_ended(self, result: Result<nat, Seq<char>>) -> AppView {
        let job = self.trim->0;
        match result {
            Ok(frames) => if job.save_index < self.saved.len() {
                AppView {
                    trim: None,
                    review: None,
                    saved: self.trimmed_files(job, frames),
                    notice: Some("Trimmed "@ + self.saved[job.save_index as int].path.text()),
                    ..self
                }
            } else {
                AppView { trim: None, review: None, ..self }
            },
            Err(error) => (AppView { trim: None, ..self }).review_failed(
                "Trim failed: "@ + error,
            ),
        }
    }
}

/// The mathematical value of a result with a message.
pub open spec fn result_text<T>(result: Result<T, String>) -> Result<T, Seq<char>> {
    match result {
        Ok(value) => Ok(value),
        Err(message) => Err(message@),
    }
}

impl App {
    /// Shows an error in the editor, where it is open.
    fn fail_review(&mut self, front: &str, message: &str)
        ensures
            final(self)@ == old(self)@.review_failed(front@ + message@),
    {
        match self.clip_review.take() {
            Some(review) => {
                let mut error = String::from_str(front);
                error.append(message);
                self.clip_review = Some(
                    ClipReview {
                        save_index: review.save_index,
                        selection: review.selection,
                        waveform: review.waveform,
                        error: Some(error),
                    },
                );
            },
            None => {},
        }
    }

    /// Removes the error from the editor.
    fn clear_review(&mut self)
        ensures
            final(self)@ == old(self)@.review_cleared(),
    {
        match self.clip_review.take() {
            Some(review) => {
                self.clip_review = Some(
                    ClipReview {
                        save_index: review.save_index,
                        selection: review.selection,
                        waveform: review.waveform,
                        error: None,
                    },
                );
            },
            None => {},
        }
    }

    /// Opens the editor with a loaded waveform, or shows why it could not load.
    pub fn clip_loaded(&mut self, save_index: usize, loaded: Result<ClipWaveform, String>)
        requires
            old(self)@.wf(),
            old(self)@.can_open(save_index as nat),
        ensures
            final(self)@ == old(self)@.clip_loaded(
                save_index as nat,
                match loaded {
                    Ok(waveform) => Ok((waveform.left@, waveform.right@)),
                    Err(message) => Err(message@),
                },
            ),
            final(self)@.wf(),
    {
        match loaded {
            Ok(waveform) => {
                let file = &self.saved[save_index];
                let selection = match &file.edit_source {
                    None => None,
                    Some(source) => match ClipSelection::new(
                        source.start_frame,
                        source.end_frame,
                        file.sample_rate,
                    ) {
                        Ok(selection) => Some(selection),
                        Err(_) => None,
                    },
                };
                match selection {
                    None => {},
                    Some(selection) => {
                        self.clip_review = Some(
                            ClipReview { save_index, selection, waveform, error: None },
                        );
                        self.notice = None;
                    },
                }
            },
            Err(message) => {
                let mut notice = String::from_str("Could not open clip: ");
                notice.append(message.as_str());
                self.notice = Some(notice);
            },
        }
    }

    /// Applies the start of a preview, or shows why it could not start.
    pub fn preview_started(&mut self, was_paused: bool, started: Result<(), String>)
        requires
            old(self)@.wf(),
        ensures
            final(self)@ == (match started {
                Ok(_) => old(self)@.preview_begun(was_paused),
                Err(message) => old(self)@.preview_refused(was_paused, message@),
            }),
            final(self)@.wf(),
    {
        match started {
            Ok(_) => {
                self.preview = true;
                self.preview_was_paused = Some(was_paused);
                self.clear_review();
            },
            Err(message) => {
                self.paused = was_paused;
                self.state = if was_paused {
                    CaptureState::Paused
                } else {
                    CaptureState::Recording
                };
                self.fail_review("Preview failed: ", message.as_str());
            },
        }
    }

    /// Detects the end of a preview from what the player reports.
    pub fn poll_preview(&mut self, playing: Result<bool, String>)
        requires
            old(self)@.wf(),
        ensures
            final(self)@ == old(self)@.preview_polled(result_text(playing)),
            final(self)@.wf(),
    {
        if !self.preview {
            return;
        }
        match playing {
            Ok(true) => {},
            Ok(false) => {
                self.stop_preview();
            },
            Err(message) => {
                self.fail_review("Preview failed: ", message.as_str());
                self.stop_preview();
            },
        }
    }

    /// Applies the start of a trim, or shows why it could not start.
    pub fn trim_started(&mut self, job: TrimJob, started: Result<(), String>)
        requires
            old(self)@.wf(),
        ensures
            final(self)@ == (match started {
                Ok(_) => old(self)@.trim_begun(job),
                Err(message) => old(self)@.review_failed("Could not start trim: "@ + message@),
            }),
            final(self)@.wf(),
    {
        match started {
            Ok(_) => {
                self.trim_job = Some(job);
                self.clear_review();
            },
            Err(message) => {
                self.fail_review("Could not start trim: ", message.as_str());
            },
        }
    }

    /// Applies a completed trim to the saves panel and editor.
    pub fn poll_trim_job(&mut self, result: Result<u64, String>)
        requires
            old(self)@.wf(),
            old(self)@.trim is Some,
        ensures
            final(self)@ == old(self)@.trim_ended(
                match result {
                    Ok(frames) => Ok(frames as nat),
                    Err(message) => Err(message@),
                },
            ),
            final(self)@.wf(),
    {
        let ghost before = self@;
        let job = match self.trim_job {
            Some(job) => job,
            None => {
                return;
            },
        };
        self.trim_job = None;
        match result {
            Ok(frames) => {
                self.clip_review = None;
                if job.save_index < self.saved.len() {
                    let file = self.saved[job.save_index].clone();
                    let mut notice = String::from_str("Trimmed ");
                    notice.append(file.path.text().as_str());
                    let edit_source = match file.edit_source {
                        Some(source) => Some(
                            audio::ClipEditSource {
                                pcm_path: source.pcm_path,
                                start_frame: job.start_frame,
                                end_frame: job.end_frame,
                            },
                        ),
                        None => None,
                    };
                    let trimmed = SavedFile {
                        path: file.path,
                        kind: file.kind,
                        sample_rate: file.sample_rate,
                        bitrate: file.bitrate,
                        frames,
                        edit_source,
                    };
                    self.saved.set(job.save_index, trimmed);
                    self.notice = Some(notice);
                    proof {
                        assert(self@.saved =~= before.trimmed_files(job, frames as nat));
                    }
                }
            },
            Err(message) => {
                self.fail_review("Trim failed: ", message.as_str());
            },
        }
    }
}

/// Whether both channels of a display block have the same length.
pub open spec fn is_balanced(event: AudioEvent) -> bool {
    match event {
        AudioEvent::Samples { left, right, .. } => left@.len() == right@.len(),
        _ => true,
    }
}

impl AppView {
    /// The state behind one audio event.
    pub open spec fn with_event(self, event: AudioEvent) -> AppView {
        match event {
            AudioEvent::Started { sample_rate, bitrate, .. } => AppView {
                sample_rate: sample_rate as nat,
                bitrate: bitrate as nat,
                state: CaptureState::Recording,
                ..self
            },
            AudioEvent::Samples { left, right, encoded_frames } => AppView {
                waveform: self.waveform.pushed(left@, right@),
                encoded_frames: encoded_frames as nat,
                ..self
            },
            AudioEvent::Saved(file) => (AppView {
                notice: Some("Saved "@ + file@.path.text()),
                saved: self.saved.push(file@),
                selected: Some(self.saved.len()),
                ..self
            }).labelled(),
            AudioEvent::Notice(message) => self.noticed(message@),
            AudioEvent::Finalizing => AppView { state: CaptureState::Finalizing, ..self },
        }
    }

    /// The state behind audio events in order.
    pub open spec fn with_events(self, events: Seq<AudioEvent>) -> AppView
        decreases events.len(),
    {
        if events.len() == 0 {
            self
        } else {
            self.with_events(events.drop_last()).with_event(events.last())
        }
    }

    /// The state behind a round of audio events. Samples wake the frequency
    /// display of a view that has one.
    pub open spec fn with_round(self, events: Seq<AudioEvent>) -> AppView {
        let after = self.with_events(events);
        AppView {
            spectrum: after.spectrum || (has_samples(events) && after.view.has_spectrum()),
            ..after
        }
    }
}

/// Whether a round of events has a display block.
pub open spec fn has_samples(events: Seq<AudioEvent>) -> bool {
    exists|i: int| 0 <= i < events.len() && (#[trigger] events[i]) is Samples
}

/// Whether every display block of a round is balanced.
pub open spec fn all_balanced(events: Seq<AudioEvent>) -> bool {
    forall|i: int| 0 <= i < events.len() ==> is_balanced(#[trigger] events[i])
}

impl App {
    /// Applies one audio event.
    fn apply_event(&mut self, event: AudioEvent)
        requires
            old(self)@.wf(),
            is_balanced(event),
        ensures
            final(self)@ == old(self)@.with_event(event),
            final(self)@.wf(),
    {
        let ghost before = self@;
        match event {
            AudioEvent::Started { sample_rate, bitrate, .. } => {
                self.sample_rate = sample_rate;
                self.bitrate = bitrate;
                self.state = CaptureState::Recording;
            },
            AudioEvent::Samples { left, right, encoded_frames } => {
                self.waveform.push(left.as_slice(), right.as_slice());
                self.encoded_frames = encoded_frames;
            },
            AudioEvent::Saved(file) => {
                let mut notice = String::from_str("Saved ");
                notice.append(file.path.text().as_str());
                self.notice = Some(notice);
                self.selected_save = Some(self.saved.len());
                self.saved.push(file);
                proof {
                    assert(self@.saved =~= before.saved.push(file@));
                }
                self.refresh_source_label();
            },
            AudioEvent::Notice(message) => {
                self.notice = Some(message);
            },
            AudioEvent::Finalizing => {
                self.state = CaptureState::Finalizing;
            },
        }
    }

    /// Applies a round of audio events in order. Returns whether the frequency
    /// display must be computed again.
    pub fn apply_events(&mut self, events: Vec<AudioEvent>) -> (update_spectrum: bool)
        requires
            old(self)@.wf(),
            all_balanced(events@),
        ensures
            final(self)@ == old(self)@.with_round(events@),
            final(self)@.wf(),
            update_spectrum == (has_samples(events@) && final(self)@.view.has_spectrum()),
    {
        let ghost all = events@;
        let mut samples_changed = false;
        proof {
            assert(all.take(0) =~= Seq::<AudioEvent>::empty());
        }
        for event in iter: events
            invariant
                iter.seq() == all,
                all_balanced(all),
                self@.wf(),
                self@ == old(self)@.with_events(all.take(iter.index() as int)),
                samples_changed == has_samples(all.take(iter.index() as int)),
        {
            let ghost index = iter.index() as int;
            let ghost seen = all.take(index);
            let ghost more = all.take(index + 1);
            proof {
                assert(more.drop_last() =~= seen);
                assert(event == all[index]);
                assert(is_balanced(all[index]));
                if has_samples(seen) {
                    let i = choose|i: int| 0 <= i < seen.len() && (#[trigger] seen[i]) is Samples;
                    assert(more[i] is Samples);
                }
                if event is Samples {
                    assert(more[index] is Samples);
                }
                if has_samples(more) {
                    let i = choose|i: int| 0 <= i < more.len() && (#[trigger] more[i]) is Samples;
                    if i < index {
                        assert(seen[i] is Samples);
                    }
                }
            }
            let shown = match &event {
                AudioEvent::Samples { .. } => true,
                _ => false,
            };
            self.apply_event(event);
            samples_changed = samples_changed || shown;
        }
        proof {
            assert(all.take(all.len() as int) =~= all);
        }
        let update = samples_changed && self.view.shows_spectrum();
        if update {
            self.spectrum = true;
        }
        update
    }

    /// Applies all pending audio events without waiting for another event.
    /// Returns whether the frequency display must be computed again.
    ///
    /// A display block whose channels differ in length is not shown.
    pub fn drain_audio_events(&mut self, events: &mut Inbox<AudioEvent>) -> (update_spectrum: bool)
        requires
            old(self)@.wf(),
        ensures
            old(events).taken().is_prefix_of(final(events).taken()),
            is_round(
                channel::newly_taken(*old(events), *final(events)),
                old(self)@,
                final(self)@,
                update_spectrum,
            ),
            final(self)@.wf(),
    {
        let ghost earlier = events.taken();
        let found = events.take_pending();
        proof {
            assert(events.taken().skip(earlier.len() as int) =~= found@);
        }
        self.apply_events(balanced_events(found))
    }

    /// Reports whether the interface has nothing left to wait for.
    pub fn is_done(&self, worker_finished: bool) -> (done: bool)
        ensures
            done == (worker_finished && self@.trim is None),
    {
        worker_finished && self.trim_job.is_none()
    }

    /// Notes whether someone asked for the end of the recording.
    pub fn note_stop(&mut self, stop: bool)
        requires
            old(self)@.wf(),
        ensures
            final(self)@ == (if stop {
                AppView { state: CaptureState::Finalizing, ..old(self)@ }
            } else {
                old(self)@
            }),
            final(self)@.wf(),
    {
        if stop {
            self.state = CaptureState::Finalizing;
        }
    }

    /// Formats total encoded frames as an hours, minutes, and seconds clock.
    pub fn elapsed(&self) -> (label: String)
        requires
            binary64::frames_have_length(self@.encoded_frames, self@.sample_rate),
        ensures
            label@ == labels::clock(
                binary64::frame_nanoseconds(self@.encoded_frames, self@.sample_rate)
                    / 1_000_000_000,
            ),
    {
        let duration = match checked_frame_duration(self.encoded_frames, self.sample_rate) {
            Some(duration) => duration,
            None => Duration::zero(),
        };
        labels::format_clock(duration)
    }
}

/// The events of a round that are shown: those whose display blocks are balanced.
pub open spec fn shown_events(events: Seq<AudioEvent>) -> Seq<AudioEvent> {
    events.filter(|event: AudioEvent| is_balanced(event))
}

/// Whether a round of events leads from one state to another.
pub open spec fn is_round(
    events: Seq<AudioEvent>,
    before: AppView,
    after: AppView,
    update_spectrum: bool,
) -> bool {
    &&& after == before.with_round(shown_events(events))
    &&& update_spectrum == (has_samples(shown_events(events)) && after.view.has_spectrum())
}

/// Keeps the events whose display blocks are balanced, in order.
fn balanced_events(events: Vec<AudioEvent>) -> (kept: Vec<AudioEvent>)
    ensures
        kept@ == shown_events(events@),
        all_balanced(kept@),
{
    let ghost all = events@;
    let mut kept: Vec<AudioEvent> = Vec::new();
    proof {
        reveal(Seq::filter);
        assert(all.take(0) =~= Seq::<AudioEvent>::empty());
    }
    for event in iter: events
        invariant
            iter.seq() == all,
            all_balanced(kept@),
            kept@ == shown_events(all.take(iter.index() as int)),
    {
        let balanced = match &event {
            AudioEvent::Samples { left, right, .. } => left.len() == right.len(),
            _ => true,
        };
        proof {
            reveal(Seq::filter);
            let index = iter.index() as int;
            assert(event == all[index]);
            assert(all.take(index + 1).drop_last() =~= all.take(index));
            assert(all.take(index + 1).last() == event);
        }
        if balanced {
            kept.push(event);
        }
    }
    proof {
        assert(all.take(all.len() as int) =~= all);
    }
    kept
}

/// When the channels of every display block agree in length, a round shows every
/// event.
pub proof fn law_balanced_rounds_are_shown_completely(events: Seq<AudioEvent>)
    requires
        all_balanced(events),
    ensures
        shown_events(events) == events,
    decreases events.len(),
{
    reveal(Seq::filter);
    if events.len() > 0 {
        let front = events.drop_last();
        assert forall|i: int| 0 <= i < front.len() implies is_balanced(#[trigger] front[i]) by {
            assert(is_balanced(events[i]));
        }
        law_balanced_rounds_are_shown_completely(front);
        assert(is_balanced(events[events.len() - 1]));
        assert(front.push(events.last()) =~= events);
    }
}

/// The interface reports a recording only after capture has started: as long as
/// it waits for the start, no key and no other event changes that.
pub proof fn law_only_a_start_begins_recording(
    app: AppView,
    key: Key,
    outcome: SendOutcome,
    event: AudioEvent,
)
    requires
        app.state == CaptureState::Starting,
        app.preview_was_paused is None,
    ensures
        app.key_step(key, outcome).0.state != CaptureState::Recording,
        app.with_event(event).state == CaptureState::Recording <==> event is Started,
{
}

/// A saved file is always the selected one, and the label names it.
pub proof fn law_saved_files_become_selected(app: AppView, file: SavedFile)
    ensures
        ({
            let after = app.with_event(AudioEvent::Saved(file));
            &&& after.selected == Some(app.saved.len())
            &&& after.saved.last() == file@
            &&& after.saved.drop_last() == app.saved
            &&& after.source_label == Some(file_label(file@))
        }),
{
    let after = app.with_event(AudioEvent::Saved(file));
    assert(after.saved.drop_last() =~= app.saved);
}

/// Moving the selection stays inside the save list, and up undoes down unless
/// the selection is at the end.
pub proof fn law_selection_moves_inside_the_save_list(app: AppView)
    requires
        app.selected is Some ==> app.selected->0 < app.saved.len(),
    ensures
        app.next_selected().selected is Some ==> app.next_selected().selected->0
            < app.saved.len(),
        app.previous_selected().selected is Some ==> app.previous_selected().selected->0
            < app.saved.len(),
        app.selected is Some && app.selected->0 + 1 < app.saved.len()
            ==> app.next_selected().previous_selected().selected == app.selected,
{
}

impl AppView {
    /// Whether neither the prompt, nor the editor, nor the help is open.
    pub open spec fn is_plain(self) -> bool {
        self.prompt is None && self.review is None && !self.show_help
    }
}

/// Space switches the pause of a running recording: the flag changes, the state
/// follows it, and nothing else happens. A second press leads back. Before the
/// start and behind the end it has no effect.
pub proof fn law_space_switches_the_pause(app: AppView, key: Key, outcome: SendOutcome)
    requires
        app.is_plain(),
        key.pressed,
        key.code == KeyCode::Char(' '),
    ensures
        ({
            let (once, request) = app.key_step(key, outcome);
            let (twice, _) = once.key_step(key, outcome);
            let running = app.state != CaptureState::Starting && app.state
                != CaptureState::Finalizing;
            &&& request == RequestView::Nothing
            &&& once == AppView { paused: once.paused, state: once.state, ..app }
            &&& running ==> once.paused != app.paused
            &&& running ==> once.state == (if once.paused {
                CaptureState::Paused
            } else {
                CaptureState::Recording
            })
            &&& running ==> twice.paused == app.paused
            &&& running ==> (twice.state == CaptureState::Paused <==> app.paused)
            &&& running ==> (twice.state == CaptureState::Recording <==> !app.paused)
            &&& !running ==> once == app
        }),
{
}

/// The keys `s`, `q`, and escape end a recording when nothing else is open: the
/// end is requested, no preview plays, and the save list stays.
pub proof fn law_stop_keys_end_the_recording(app: AppView, key: Key, outcome: SendOutcome)
    requires
        app.is_plain(),
        key.pressed,
        key.code == KeyCode::Char('s') || key.code == KeyCode::Char('S') || key.code
            == KeyCode::Char('q') || key.code == KeyCode::Char('Q') || key.code == KeyCode::Esc,
    ensures
        ({
            let (after, request) = app.key_step(key, outcome);
            &&& after.stop
            &&& after.state == CaptureState::Finalizing
            &&& !after.preview
            &&& after.saved == app.saved
            &&& request == RequestView::Nothing
        }),
{
}

/// Only the interrupt and the stop keys ask for the end of the recording.
pub proof fn law_other_keys_do_not_stop(app: AppView, key: Key, outcome: SendOutcome)
    requires
        !app.stop,
        app.key_step(key, outcome).0.stop,
    ensures
        key.pressed,
        (key.control && (key.code == KeyCode::Char('c') || key.code == KeyCode::Char('C'))) || (
        app.is_plain() && (key.code == KeyCode::Esc || key.code == KeyCode::Char('s') || key.code
            == KeyCode::Char('S') || key.code == KeyCode::Char('q') || key.code == KeyCode::Char(
            'Q',
        ))),
{
}

/// The release of a key has no effect.
pub proof fn law_released_keys_have_no_effect(app: AppView, key: Key, outcome: SendOutcome)
    requires
        !key.pressed,
    ensures
        app.key_step(key, outcome) == (app, RequestView::Nothing),
{
}

/// The view key shows the next view and wakes the frequency display where the
/// view has one; three presses lead back to the view.
pub proof fn law_the_view_key_cycles(app: AppView, key: Key, outcome: SendOutcome)
    requires
        app.is_plain(),
        key.pressed,
        key.code == KeyCode::Char('w') || key.code == KeyCode::Char('W'),
    ensures
        ({
            let (once, request) = app.key_step(key, outcome);
            let twice = once.key_step(key, outcome).0;
            let thrice = twice.key_step(key, outcome).0;
            &&& request == RequestView::Nothing
            &&& once == AppView { view: once.view, spectrum: once.spectrum, ..app }
            &&& once.view != app.view && twice.view != app.view && twice.view != once.view
            &&& thrice.view == app.view
            &&& once.spectrum == (app.spectrum || once.view == ViewMode::Spectrum || once.view
                == ViewMode::Split)
        }),
{
}

/// The views follow each other: waveform, spectrum, both.
pub proof fn law_views_have_an_order(first: ViewMode, second: ViewMode, third: ViewMode)
    requires
        call_ensures(ViewMode::next, (ViewMode::Waveform,), first),
        call_ensures(ViewMode::next, (first,), second),
        call_ensures(ViewMode::next, (second,), third),
    ensures
        first == ViewMode::Spectrum,
        second == ViewMode::Split,
        third == ViewMode::Waveform,
{
}

/// The help opens over the recorder and closes again without a trace. While it
/// is open, no other key does anything.
pub proof fn law_help_leaves_no_trace(app: AppView, open: Key, key: Key, outcome: SendOutcome)
    requires
        app.is_plain(),
        open.pressed,
        open.code == KeyCode::Char('?'),
        key.pressed,
        !(key.control && (key.code == KeyCode::Char('c') || key.code == KeyCode::Char('C'))),
    ensures
        ({
            let helped = app.key_step(open, outcome).0;
            let after = helped.key_step(key, outcome);
            &&& helped == AppView { show_help: true, ..app }
            &&& after.1 == RequestView::Nothing
            &&& key.code == KeyCode::Char('?') || key.code == KeyCode::Esc ==> after.0 == app
            &&& key.code != KeyCode::Char('?') && key.code != KeyCode::Esc ==> after.0 == helped
        }),
{
}

/// The clip key opens an empty prompt in a session that records or pauses, and
/// does nothing otherwise.
pub proof fn law_the_clip_key_opens_the_prompt(app: AppView, key: Key, outcome: SendOutcome)
    requires
        app.is_plain(),
        key.pressed,
        !key.control,
        key.code == KeyCode::Char('c') || key.code == KeyCode::Char('C'),
    ensures
        ({
            let (after, request) = app.key_step(key, outcome);
            let open = app.clips_enabled && (app.state == CaptureState::Recording || app.state
                == CaptureState::Paused);
            &&& request == RequestView::Nothing
            &&& !open ==> after == app
            &&& open ==> after.prompt == Some(PromptView { input: Seq::empty(), error: None })
            &&& open ==> after == AppView { prompt: after.prompt, notice: None, ..app }
        }),
{
}

/// The state behind typed characters, in order.
pub open spec fn typed(app: AppView, letters: Seq<char>, outcome: SendOutcome) -> AppView
    decreases letters.len(),
{
    if letters.len() == 0 {
        app
    } else {
        typed(app, letters.drop_last(), outcome).key_step(
            Key {
                code: KeyCode::Char(letters.last()),
                pressed: true,
                control: false,
                shift: false,
                alt: false,
            },
            outcome,
        ).0
    }
}

/// The prompt takes what is typed, in order, up to 96 characters.
pub proof fn law_the_prompt_takes_what_is_typed(
    app: AppView,
    letters: Seq<char>,
    outcome: SendOutcome,
)
    requires
        app.prompt is Some,
        app.prompt->0.input.len() + letters.len() <= 96,
        forall|i: int| 0 <= i < letters.len() ==> ' ' <= #[trigger] letters[i] && letters[i] < '\u{7f}',
    ensures
        typed(app, letters, outcome).prompt is Some,
        typed(app, letters, outcome).prompt->0.input == app.prompt->0.input + letters,
        letters.len() > 0 ==> typed(app, letters, outcome).prompt->0.error is None,
        typed(app, letters, outcome) == (AppView {
            prompt: typed(app, letters, outcome).prompt,
            ..app
        }),
    decreases letters.len(),
{
    if letters.len() == 0 {
        assert(app.prompt->0.input + letters =~= app.prompt->0.input);
    } else {
        let front = letters.drop_last();
        assert forall|i: int| 0 <= i < front.len() implies ' ' <= #[trigger] front[i] && front[i]
            < '\u{7f}' by {
            assert(front[i] == letters[i]);
        }
        law_the_prompt_takes_what_is_typed(app, front, outcome);
        let last = letters.last();
        assert(last == letters[letters.len() - 1]);
        assert((app.prompt->0.input + front).push(last) =~= app.prompt->0.input + letters);
    }
}

/// In the prompt, backspace takes back the last character, escape leaves it, and
/// a full prompt takes no more. Characters with control or alt are not typed.
pub proof fn law_the_prompt_can_be_edited(app: AppView, key: Key, outcome: SendOutcome)
    requires
        app.prompt is Some,
        key.pressed,
        !(key.control && (key.code == KeyCode::Char('c') || key.code == KeyCode::Char('C'))),
    ensures
        ({
            let (after, request) = app.key_step(key, outcome);
            let input = app.prompt->0.input;
            &&& key.code == KeyCode::Esc ==> after == AppView { prompt: None, ..app }
            &&& key.code == KeyCode::Backspace ==> after.prompt is Some
            &&& key.code == KeyCode::Backspace && input.len() > 0 ==> after.prompt->0.input.push(
                input.last(),
            ) == input
            &&& key.code == KeyCode::Backspace && input.len() == 0 ==> after.prompt->0.input
                == input
            &&& key.code is Char && (input.len() >= 96 || key.control || key.alt) ==> after == app
            &&& key.code != KeyCode::Enter ==> request == RequestView::Nothing
            &&& key.code != KeyCode::Enter ==> after == AppView { prompt: after.prompt, ..app }
        }),
{
    let input = app.prompt->0.input;
    if key.code == KeyCode::Backspace && input.len() > 0 {
        assert(input.drop_last().push(input.last()) =~= input);
    }
}

/// A submitted name is offered under its checked stem. When the channel takes
/// it, the prompt closes with a message; otherwise the prompt keeps what was
/// typed and shows an error. A bad name is not offered.
pub proof fn law_submitted_names_are_offered(app: AppView, key: Key, outcome: SendOutcome)
    requires
        app.prompt is Some,
        key.pressed,
        key.code == KeyCode::Enter,
    ensures
        ({
            let (after, request) = app.key_step(key, outcome);
            let checked = session::clip_stem_of(app.prompt->0.input);
            let sent = checked is Ok && outcome == SendOutcome::Sent;
            &&& checked is Ok ==> request == RequestView::Offered { stem: checked->Ok_0, outcome }
            &&& checked is Err ==> request == RequestView::Nothing
            &&& sent ==> after.prompt is None && after.notice == Some(
                "Saving "@ + checked->Ok_0 + ".mp3"@,
            )
            &&& !sent ==> after.prompt is Some && after.prompt->0.input == app.prompt->0.input
            &&& !sent ==> after.prompt->0.error is Some && after.notice == app.notice
            &&& checked is Err ==> after.prompt->0.error == Some(
                session::problem_text(checked->Err_0),
            )
            &&& after == AppView { prompt: after.prompt, notice: after.notice, ..app }
        }),
{
}

/// The distances of the arrow keys: a tenth of a second, a hundredth with
/// control, and a whole second with shift, rounded down, and at least one frame.
/// Left is the opposite of right.
pub proof fn law_arrow_keys_have_their_distance(left: Key, right: Key, sample_rate: nat)
    requires
        left.code == KeyCode::Left,
        right == (Key { code: KeyCode::Right, ..left }),
        sample_rate > 0,
    ensures
        ({
            let step = AppView::nudge_distance(right, sample_rate);
            &&& AppView::nudge_distance(left, sample_rate) == -step
            &&& step >= 1
            &&& right.shift ==> step == sample_rate
            &&& !right.shift && right.control ==> (step == 1 || 100 * step <= sample_rate)
                && sample_rate < 100 * (step + 1)
            &&& !right.shift && !right.control ==> (step == 1 || 10 * step <= sample_rate)
                && sample_rate < 10 * (step + 1)
        }),
{
}

/// Whether a key goes to the open editor.
pub open spec fn goes_to_the_editor(app: AppView, key: Key) -> bool {
    &&& app.prompt is None
    &&& app.review is Some
    &&& app.trim is None
    &&& key.pressed
    &&& !(key.control && (key.code == KeyCode::Char('c') || key.code == KeyCode::Char('C')))
}

/// The arrow keys move the active boundary of the editor by their distance, tab
/// changes the active boundary, and `r` selects everything. None of them changes
/// anything but the selection.
pub proof fn law_editor_keys_change_the_selection(app: AppView, key: Key, outcome: SendOutcome)
    requires
        goes_to_the_editor(app, key),
    ensures
        ({
            let (after, request) = app.key_step(key, outcome);
            let old = app.review->0.selection;
            let new = after.review->0.selection;
            let arrow = key.code == KeyCode::Left || key.code == KeyCode::Right;
            let reset = key.code == KeyCode::Char('r') || key.code == KeyCode::Char('R');
            &&& arrow ==> new == old.nudged(AppView::nudge_distance(key, old.sample_rate))
            &&& key.code == KeyCode::Tab ==> new.active != old.active && new
                == clip::SelectionView { active: new.active, ..old }
            &&& reset ==> new.start == old.source_start && new.end == old.source_end
                && new.active == clip::SelectionHandle::Start
            &&& arrow || reset || key.code == KeyCode::Tab ==> {
                &&& request == RequestView::Nothing
                &&& after == AppView {
                    review: Some(ReviewView { selection: new, error: None, ..app.review->0 }),
                    ..app
                }
            }
        }),
{
}

/// Escape closes the editor and keeps every file as it is; a preview ends.
pub proof fn law_escape_closes_the_editor(app: AppView, key: Key, outcome: SendOutcome)
    requires
        goes_to_the_editor(app, key),
        key.code == KeyCode::Esc,
    ensures
        ({
            let (after, request) = app.key_step(key, outcome);
            &&& request == RequestView::Nothing
            &&& after.review is None
            &&& !after.preview
            &&& after.saved == app.saved
            &&& !after.stop || app.stop
            &&& app.preview_was_paused is Some ==> after.paused == app.preview_was_paused->0
            &&& app.preview_was_paused is None ==> after.paused == app.paused
        }),
{
}

/// While a trim runs, the editor ignores its keys.
pub proof fn law_a_running_trim_locks_the_editor(app: AppView, key: Key, outcome: SendOutcome)
    requires
        app.prompt is None,
        app.review is Some,
        app.trim is Some,
        !(key.control && (key.code == KeyCode::Char('c') || key.code == KeyCode::Char('C'))),
    ensures
        app.key_step(key, outcome) == (app, RequestView::Nothing),
{
}

/// The preview key plays the selection of the clip, counted from the start of
/// its file, and pauses the recording meanwhile.
pub proof fn law_previews_play_the_selection(app: AppView, key: Key, outcome: SendOutcome)
    requires
        app.wf(),
        goes_to_the_editor(app, key),
        !app.preview,
        key.code == KeyCode::Char('p') || key.code == KeyCode::Char('P'),
    ensures
        ({
            let (after, request) = app.key_step(key, outcome);
            let selection = app.review->0.selection;
            let file = app.saved[app.review->0.save_index as int];
            &&& request is StartPreview
            &&& request->file == file.path
            &&& request->start + selection.source_start == selection.start
            &&& request->end + selection.source_start == selection.end
            &&& request->StartPreview_sample_rate == file.sample_rate
            &&& request->was_paused == app.paused
            &&& after == AppView { paused: true, state: CaptureState::Previewing, ..app }
        }),
{
}

/// A preview that cannot start leaves the recording as it was, with an error in
/// the editor.
pub proof fn law_refused_previews_restore_the_pause_state(app: AppView, error: Seq<char>)
    requires
        app.wf(),
        app.review is Some,
        !app.preview,
    ensures
        ({
            let refused = app.preview_step().0.preview_refused(app.paused, error);
            &&& refused.paused == app.paused
            &&& refused.state == (if app.paused {
                CaptureState::Paused
            } else {
                CaptureState::Recording
            })
            &&& !refused.preview
            &&& refused.review->0.error == Some("Preview failed: "@ + error)
            &&& refused.review->0.selection == app.review->0.selection
            &&& refused.saved == app.saved
        }),
{
}

/// Enter trims the clip to the selection. A selection of the whole clip needs no
/// trim: the editor closes, and the file stays.
pub proof fn law_enter_trims_to_the_selection(app: AppView, key: Key, outcome: SendOutcome)
    requires
        app.wf(),
        goes_to_the_editor(app, key),
        key.code == KeyCode::Enter,
        app.review->0.save_index <= usize::MAX,
    ensures
        ({
            let (after, request) = app.key_step(key, outcome);
            let selection = app.review->0.selection;
            let whole = selection.start == selection.source_start && selection.end
                == selection.source_end;
            &&& !after.preview
            &&& after.saved == app.saved
            &&& whole ==> request == RequestView::Nothing && after.review is None
            &&& !whole ==> {
                &&& request is StartTrim
                &&& request->job.save_index == app.review->0.save_index
                &&& request->job.start_frame == selection.start
                &&& request->job.end_frame == selection.end
                &&& after.review == app.review
            }
        }),
{
}

/// A finished trim changes the trimmed file alone: it has the new length, and its
/// source is the kept range. The editor closes. A failed trim changes no file,
/// and the editor shows the error.
pub proof fn law_trims_change_one_file(
    app: AppView,
    frames: nat,
    error: Seq<char>,
    other: int,
)
    requires
        app.trim is Some,
        app.trim->0.save_index < app.saved.len(),
        0 <= other < app.saved.len(),
        other != app.trim->0.save_index,
    ensures
        ({
            let done = app.trim_ended(Ok(frames));
            let index = app.trim->0.save_index as int;
            let (before, after) = (app.saved[index], done.saved[index]);
            &&& done.saved.len() == app.saved.len()
            &&& done.saved[other] == app.saved[other]
            &&& after.frames == frames
            &&& after.path == before.path && after.kind == before.kind
            &&& after.sample_rate == before.sample_rate && after.bitrate == before.bitrate
            &&& before.edit_source is Some ==> after.edit_source is Some
                && after.edit_source->0.start_frame == app.trim->0.start_frame
                && after.edit_source->0.end_frame == app.trim->0.end_frame
                && after.edit_source->0.pcm_path == before.edit_source->0.pcm_path
            &&& done.trim is None && done.review is None
            &&& done.paused == app.paused && done.state == app.state && done.stop == app.stop
        }),
        ({
            let failed = app.trim_ended(Err(error));
            &&& failed.saved == app.saved
            &&& failed.trim is None
            &&& app.review is Some ==> failed.review is Some && failed.review->0.error == Some(
                "Trim failed: "@ + error,
            ) && failed.review->0.selection == app.review->0.selection
            &&& failed.paused == app.paused && failed.state == app.state
        }),
{
}

/// The editor key asks for the waveform of the selected clip when it has audio,
/// and only says why otherwise.
pub proof fn law_only_clips_with_audio_open(app: AppView, key: Key, outcome: SendOutcome)
    requires
        app.is_plain(),
        key.pressed,
        key.code == KeyCode::Char('e') || key.code == KeyCode::Char('E'),
    ensures
        ({
            let (after, request) = app.key_step(key, outcome);
            let opens = app.selected is Some && app.can_open(app.selected->0);
            &&& opens ==> after == app && request == RequestView::LoadClip {
                save_index: app.selected->0,
            }
            &&& !opens ==> request == RequestView::Nothing && after == AppView {
                notice: after.notice,
                ..app
            } && after.notice is Some
        }),
{
}

/// A loaded clip opens in the editor with its whole range selected. A clip that
/// cannot be read only leaves a message.
pub proof fn law_loaded_clips_are_selected_completely(
    app: AppView,
    save_index: nat,
    left: Seq<WaveformBin>,
    right: Seq<WaveformBin>,
    error: Seq<char>,
)
    requires
        app.can_open(save_index),
    ensures
        ({
            let after = app.clip_loaded(save_index, Ok((left, right)));
            let source = app.saved[save_index as int].edit_source->0;
            let review = after.review->0;
            &&& after.review is Some
            &&& review.save_index == save_index
            &&& review.left == left && review.right == right && review.error is None
            &&& review.selection.start == source.start_frame && review.selection.source_start
                == source.start_frame
            &&& review.selection.end == source.end_frame && review.selection.source_end
                == source.end_frame
            &&& review.selection.sample_rate == app.saved[save_index as int].sample_rate
            &&& after == AppView { review: after.review, notice: None, ..app }
        }),
        app.clip_loaded(save_index, Err(error)) == (AppView {
            notice: Some("Could not open clip: "@ + error),
            ..app
        }),
{
}

/// The arrow keys walk through the save list one file at a time and stop at its
/// ends. Without a selection they select the first file. The label follows.
pub proof fn law_arrow_keys_walk_through_the_saves(app: AppView, key: Key, outcome: SendOutcome)
    requires
        app.is_plain(),
        key.pressed,
        key.code == KeyCode::Up || key.code == KeyCode::Down,
        app.selected is Some ==> app.selected->0 < app.saved.len(),
    ensures
        ({
            let (after, request) = app.key_step(key, outcome);
            let last = (app.saved.len() - 1) as nat;
            &&& request == RequestView::Nothing
            &&& after == AppView {
                selected: after.selected,
                source_label: after.source_label,
                ..app
            }
            &&& app.saved.len() == 0 ==> after.selected is None && after.source_label is None
            &&& app.saved.len() > 0 ==> after.selected is Some && after.source_label == Some(
                file_label(app.saved[after.selected->0 as int]),
            )
            &&& app.saved.len() > 0 && app.selected is None ==> after.selected == Some(0nat)
            &&& app.selected is Some && key.code == KeyCode::Down && app.selected->0 < last
                ==> after.selected->0 == app.selected->0 + 1
            &&& app.selected is Some && key.code == KeyCode::Up && app.selected->0 > 0
                ==> after.selected->0 + 1 == app.selected->0
            &&& app.selected is Some && key.code == KeyCode::Down && app.selected->0 == last
                ==> after.selected == app.selected
            &&& app.selected is Some && key.code == KeyCode::Up && app.selected->0 == 0
                ==> after.selected == app.selected
        }),
{
}

/// A key without a meaning for the recorder does nothing.
pub proof fn law_other_keys_do_nothing(app: AppView, key: Key, outcome: SendOutcome)
    requires
        app.is_plain(),
        key.code == KeyCode::Other || key.code == KeyCode::Tab || key.code == KeyCode::Enter
            || key.code == KeyCode::Backspace || key.code == KeyCode::Left || key.code
            == KeyCode::Right,
    ensures
        app.key_step(key, outcome) == (app, RequestView::Nothing),
{
}

/// What the events of the capture thread change: a start sets the format and the
/// state, samples set the encoded length and join the history, a message and the
/// end are shown, and a saved file joins the save list. Nothing else changes.
pub proof fn law_events_change_what_they_report(app: AppView, event: AudioEvent)
    ensures
        ({
            let after = app.with_event(event);
            &&& event is Started ==> {
                &&& after.sample_rate == event->sample_rate && after.bitrate == event->bitrate
                &&& after.state == CaptureState::Recording
                &&& after == AppView {
                    sample_rate: after.sample_rate,
                    bitrate: after.bitrate,
                    state: after.state,
                    ..app
                }
            }
            &&& event is Samples ==> {
                &&& after.encoded_frames == event->encoded_frames
                &&& after.waveform == app.waveform.pushed(event->left@, event->right@)
                &&& after == AppView {
                    encoded_frames: after.encoded_frames,
                    waveform: after.waveform,
                    ..app
                }
            }
            &&& event is Notice ==> after == AppView {
                notice: Some(event->Notice_0@),
                ..app
            }
            &&& event is Finalizing ==> after == AppView {
                state: CaptureState::Finalizing,
                ..app
            }
            &&& event is Saved ==> {
                &&& after.notice == Some("Saved "@ + event->Saved_0@.path.text())
                &&& after == AppView {
                    notice: after.notice,
                    saved: after.saved,
                    selected: after.selected,
                    source_label: after.source_label,
                    ..app
                }
            }
        }),
{
}

/// Two rounds of events are one round of both.
pub proof fn law_rounds_join(app: AppView, first: Seq<AudioEvent>, second: Seq<AudioEvent>)
    ensures
        app.with_events(first).with_events(second) == app.with_events(first + second),
    decreases second.len(),
{
    if second.len() == 0 {
        assert(first + second =~= first);
    } else {
        law_rounds_join(app, first, second.drop_last());
        assert((first + second).drop_last() =~= first + second.drop_last());
        assert((first + second).last() == second.last());
    }
}

/// A new interface waits for the start of a recording that runs without a pause.
/// Clips can be named in a session alone.
pub proof fn law_new_interfaces_wait_for_the_start(target: OutputTarget, app: App)
    requires
        call_ensures(App::new, (&target,), app),
    ensures
        app.state == CaptureState::Starting,
        !app.stop && !app.paused && !app.preview && !app.show_help,
        app.clips_enabled <==> target is Session,
        app@.saved.len() == 0 && app.selected_save is None,
        app.clip_prompt is None && app.clip_review is None && app.trim_job is None,
        app.encoded_frames == 0,
        app.view == ViewMode::Split,
        app@.output == target.place(),
        app.notice is None,
{
}

/// The interface is done when the worker has finished and no trim runs.
pub proof fn law_interfaces_wait_for_the_trim(app: App, finished: bool, done: bool)
    requires
        call_ensures(App::is_done, (&app, finished), done),
    ensures
        done <==> finished && app.trim_job is None,
{
}

/// A file is labelled with its kind and its name.
pub proof fn law_labels_name_the_file(file: audio::SavedView)
    requires
        file.path.name.len() > 0,
    ensures
        file.kind == SavedFileKind::Clip ==> file_label(file) == "CLIP"@ + " · "@ + file.path.name,
        file.kind == SavedFileKind::Part ==> file_label(file) == "PART"@ + " · "@ + file.path.name,
        file.kind == SavedFileKind::Recording ==> file_label(file) == "FILE"@ + " · "@
            + file.path.name,
{
}

/// What a key does in the recorder itself: space switches the pause, `s`, `q`, and
/// escape end the recording, `w` shows the next view, `?` opens the help, and the
/// arrow keys move the selection. None of them hands anything to the channel.
pub proof fn law_recorder_keys_do_what_they_say(
    app: &mut App,
    key: Key,
    commands: &mut Outbox<AudioCommand>,
    request: Request,
)
    requires
        call_ensures(App::handle_event, (app, key, commands), request),
        old(app)@.is_plain(),
        key.pressed,
        !key.control,
    ensures
        ({
            let before = old(app)@;
            let after = final(app)@;
            let running = before.state != CaptureState::Starting && before.state
                != CaptureState::Finalizing;
            &&& final(commands).steps() == old(commands).steps()
            &&& key.code == KeyCode::Char(' ') && running ==> after.paused != before.paused
                && after.state == (if before.paused {
                CaptureState::Recording
            } else {
                CaptureState::Paused
            })
            &&& key.code == KeyCode::Char(' ') && !running ==> after == before
            &&& key.code == KeyCode::Char('s') || key.code == KeyCode::Char('q') || key.code
                == KeyCode::Esc ==> after.stop && after.state == CaptureState::Finalizing
            &&& key.code == KeyCode::Char('w') ==> after.view != before.view && after.state
                == before.state && after.paused == before.paused
            &&& key.code == KeyCode::Char('?') ==> after.show_help && after.state == before.state
            &&& key.code == KeyCode::Down && before.selected is Some && before.selected->0 + 1
                < before.saved.len() ==> after.selected == Some(before.selected->0 + 1)
            &&& key.code == KeyCode::Up && before.selected is Some && before.selected->0 > 0
                ==> after.selected == Some((before.selected->0 - 1) as nat)
            &&& after.saved == before.saved
            &&& after.encoded_frames == before.encoded_frames
        }),
{
}

/// A released key changes nothing and hands nothing over.
pub proof fn law_handled_releases_have_no_effect(
    app: &mut App,
    key: Key,
    commands: &mut Outbox<AudioCommand>,
    request: Request,
)
    requires
        call_ensures(App::handle_event, (app, key, commands), request),
        !key.pressed,
    ensures
        final(app)@ == old(app)@,
        final(commands).steps() == old(commands).steps(),
        request is Nothing,
{
}

/// The interrupt ends the recording from everywhere.
pub proof fn law_handled_interrupts_end_the_recording(
    app: &mut App,
    key: Key,
    commands: &mut Outbox<AudioCommand>,
    request: Request,
)
    requires
        call_ensures(App::handle_event, (app, key, commands), request),
        key.pressed,
        key.control,
        key.code == KeyCode::Char('c') || key.code == KeyCode::Char('C'),
    ensures
        final(app)@.stop,
        final(app)@.state == CaptureState::Finalizing,
        !final(app)@.preview,
        final(commands).steps() == old(commands).steps(),
{
}

/// Only a name that was entered in the prompt goes to the capture thread, and the
/// prompt closes when the channel took it.
pub proof fn law_only_entered_names_are_sent(
    app: &mut App,
    key: Key,
    commands: &mut Outbox<AudioCommand>,
    request: Request,
)
    requires
        call_ensures(App::handle_event, (app, key, commands), request),
        final(commands).steps() != old(commands).steps(),
    ensures
        key.pressed && key.code == KeyCode::Enter,
        old(app)@.prompt is Some,
        final(commands).steps().len() == old(commands).steps().len() + 1,
        request is Offered,
        session::clip_stem_of(old(app)@.prompt->0.input) == Ok::<Seq<char>, session::NameProblem>(
            request->stem@,
        ),
        request->outcome == SendOutcome::Sent <==> final(app)@.prompt is None,
{
}

/// The end of a preview brings back the pause from before it.
pub proof fn law_stopped_previews_restore_the_pause(app: &mut App)
    requires
        call_ensures(App::stop_preview, (app,), ()),
    ensures
        !final(app)@.preview && final(app)@.preview_was_paused is None,
        old(app)@.preview_was_paused matches Some(was_paused) ==> final(app)@.paused == was_paused,
        old(app)@.preview_was_paused == Some(true) && old(app)@.state != CaptureState::Finalizing
            ==> final(app)@.state == CaptureState::Paused,
        old(app)@.preview_was_paused == Some(false) && old(app)@.state != CaptureState::Finalizing
            ==> final(app)@.state == CaptureState::Recording,
        old(app)@.preview_was_paused is None ==> final(app)@.paused == old(app)@.paused
            && final(app)@.state == old(app)@.state,
        final(app)@ == (AppView {
            preview: final(app)@.preview,
            preview_was_paused: final(app)@.preview_was_paused,
            paused: final(app)@.paused,
            state: final(app)@.state,
            ..old(app)@
        }),
{
}

/// A request for the end also ends a preview, and takes nothing away.
pub proof fn law_stop_requests_keep_the_files(app: &mut App)
    requires
        call_ensures(App::request_stop, (app,), ()),
    ensures
        final(app)@.stop && final(app)@.state == CaptureState::Finalizing && !final(app)@.preview,
        final(app)@.saved == old(app)@.saved && final(app)@.selected == old(app)@.selected,
        final(app)@.encoded_frames == old(app)@.encoded_frames,
{
}

/// A clip request that the channel took closes the prompt and is noticed. One
/// that it did not take leaves the prompt open, with an error and what was typed.
pub proof fn law_refused_clips_keep_the_prompt(app: &mut App, stem: &str, outcome: SendOutcome)
    requires
        call_ensures(App::clip_offered, (app, stem, outcome), ()),
        old(app)@.prompt is Some,
    ensures
        outcome == SendOutcome::Sent ==> final(app)@.prompt is None && final(app)@.notice is Some,
        outcome != SendOutcome::Sent ==> final(app)@.prompt is Some
            && final(app)@.prompt->0.input == old(app)@.prompt->0.input
            && final(app)@.prompt->0.error is Some && final(app)@.notice == old(app)@.notice,
        final(app)@ == (AppView {
            prompt: final(app)@.prompt,
            notice: final(app)@.notice,
            ..old(app)@
        }),
{
}

/// A preview that began plays and remembers the pause from before it; one that
/// could not begin leaves that pause as it was.
pub proof fn law_begun_previews_remember_the_pause(
    app: &mut App,
    was_paused: bool,
    started: Result<(), String>,
)
    requires
        call_ensures(App::preview_started, (app, was_paused, started), ()),
    ensures
        started is Ok ==> final(app)@.preview && final(app)@.preview_was_paused == Some(was_paused),
        started is Err ==> final(app)@.paused == was_paused && final(app)@.preview
            == old(app)@.preview,
        final(app)@.saved == old(app)@.saved,
{
}

/// A preview goes on while the player says so. Its end and its failure bring back
/// the pause from before it.
pub proof fn law_polled_previews_end_with_the_player(app: &mut App, playing: Result<bool, String>)
    requires
        call_ensures(App::poll_preview, (app, playing), ()),
        old(app)@.preview,
    ensures
        playing == Ok::<bool, String>(true) ==> final(app)@ == old(app)@,
        playing != Ok::<bool, String>(true) ==> !final(app)@.preview
            && final(app)@.preview_was_paused is None,
        playing != Ok::<bool, String>(true) && old(app)@.preview_was_paused is Some
            ==> final(app)@.paused == old(app)@.preview_was_paused->0,
        final(app)@.saved == old(app)@.saved,
{
}

/// A trim that began is remembered, and one that could not begin is told in the
/// editor.
pub proof fn law_begun_trims_are_remembered(
    app: &mut App,
    job: TrimJob,
    started: Result<(), String>,
)
    requires
        call_ensures(App::trim_started, (app, job, started), ()),
    ensures
        started is Ok ==> final(app)@.trim == Some(job),
        started is Err ==> final(app)@.trim == old(app)@.trim,
        started is Err && old(app)@.review is Some ==> final(app)@.review is Some
            && final(app)@.review->0.error is Some,
        final(app)@.saved == old(app)@.saved,
{
}

/// A finished trim sets the length of its clip and the end of its source, closes
/// the editor, and touches no other file. A failed one touches none.
pub proof fn law_finished_trims_change_one_file(
    app: &mut App,
    result: Result<u64, String>,
    other: int,
)
    requires
        call_ensures(App::poll_trim_job, (app, result), ()),
        old(app)@.trim is Some,
    ensures
        final(app)@.trim is None,
        final(app)@.saved.len() == old(app)@.saved.len(),
        result is Err ==> final(app)@.saved == old(app)@.saved,
        0 <= other < old(app)@.saved.len() && other != old(app)@.trim->0.save_index
            ==> final(app)@.saved[other] == old(app)@.saved[other],
        result is Ok && old(app)@.trim->0.save_index < old(app)@.saved.len() ==> {
            let index = old(app)@.trim->0.save_index as int;
            final(app)@.saved[index].frames == result->Ok_0
        },
        final(app)@.encoded_frames == old(app)@.encoded_frames,
{
}

/// A round of events leaves what they tell in order: the last start decides the
/// format, and every saved file is in the list.
pub proof fn law_single_events_are_applied(app: &mut App, events: Vec<AudioEvent>, update: bool)
    requires
        call_ensures(App::apply_events, (app, events), update),
        events@.len() == 1,
    ensures
        events@[0] is Started ==> final(app)@.sample_rate == events@[0]->sample_rate
            && final(app)@.bitrate == events@[0]->bitrate && final(app)@.state
            == CaptureState::Recording,
        events@[0] is Samples ==> final(app)@.encoded_frames == events@[0]->encoded_frames,
        events@[0] is Saved ==> final(app)@.saved == old(app)@.saved.push(
            events@[0]->Saved_0@,
        ),
        !(events@[0] is Saved) ==> final(app)@.saved == old(app)@.saved,
        events@[0] is Notice ==> final(app)@.notice == Some(events@[0]->Notice_0@),
        events@[0] is Finalizing ==> final(app)@.state == CaptureState::Finalizing,
        update ==> events@[0] is Samples,
{
    reveal_with_fuel(AppView::with_events, 2);
    assert(events@.drop_last() =~= Seq::<AudioEvent>::empty());
    assert(events@.last() == events@[0]);
}

/// Someone who asks for the end finds the recording at its end, and nobody else
/// changes anything.
pub proof fn law_noted_stops_finalize(app: &mut App, stop: bool)
    requires
        call_ensures(App::note_stop, (app, stop), ()),
    ensures
        stop ==> final(app)@.state == CaptureState::Finalizing,
        !stop ==> final(app)@ == old(app)@,
        final(app)@ == (AppView { state: final(app)@.state, ..old(app)@ }),
{
}

/// Two of the three views have a frequency display, and a new interface starts
/// with both displays.
pub proof fn law_views_show_their_displays(mode: ViewMode, shows: bool, first: ViewMode)
    requires
        call_ensures(ViewMode::shows_spectrum, (mode,), shows),
        call_ensures(ViewMode::default, (), first),
    ensures
        mode == ViewMode::Waveform ==> !shows,
        mode == ViewMode::Spectrum || mode == ViewMode::Split ==> shows,
        first == ViewMode::Split,
{
}

/// A loaded clip opens with its whole range selected, and one that could not be
/// loaded is only told.
pub proof fn law_opened_clips_show_their_range(
    app: &mut App,
    save_index: usize,
    loaded: Result<ClipWaveform, String>,
)
    requires
        call_ensures(App::clip_loaded, (app, save_index, loaded), ()),
        old(app)@.can_open(save_index as nat),
    ensures
        ({
            let before = old(app)@;
            let after = final(app)@;
            let file = before.saved[save_index as int];
            &&& loaded is Ok ==> after.review is Some && after.review->0.save_index == save_index
            &&& loaded matches Ok(waveform) ==> after.review->0.left == waveform.left@
                && after.review->0.right == waveform.right@
            &&& loaded is Ok ==> after.review->0.selection.start == file.edit_source->0.start_frame
                && after.review->0.selection.end == file.edit_source->0.end_frame
            &&& loaded is Err ==> after.review == before.review && after.notice is Some
            &&& after.saved == before.saved && after.state == before.state
        }),
{
}

/// The clock of the interface shows the whole seconds of the encoded frames.
pub proof fn law_elapsed_time_is_shown(app: App, label: String, shown: String, length: Duration)
    requires
        call_ensures(App::elapsed, (&app,), label),
        length@ == binary64::frame_nanoseconds(app@.encoded_frames, app@.sample_rate),
        call_ensures(labels::format_clock, (length,), shown),
    ensures
        label@ == shown@,
{
}

/// The prompt tells a full channel and a closed one apart, and the notice names
/// the clip that is being saved.
pub proof fn law_channel_answers_are_told(app: &mut App, stem: &str, outcome: SendOutcome)
    requires
        call_ensures(App::clip_offered, (app, stem, outcome), ()),
        old(app)@.prompt is Some,
    ensures
        outcome == SendOutcome::Full ==> final(app)@.prompt->0.error == Some(
            "The audio thread is busy. Try again."@,
        ),
        outcome == SendOutcome::Disconnected ==> final(app)@.prompt->0.error == Some(
            "Audio capture has stopped."@,
        ),
        outcome == SendOutcome::Sent ==> final(app)@.notice == Some("Saving "@ + stem@ + ".mp3"@),
{
}

/// A file without a clip source cannot be edited, and every reason is told.
pub proof fn law_unopened_clips_are_told(app: AppView)
    ensures
        app.selected is None ==> app.open_step().0.notice == Some("Select a named clip first"@),
        app.selected matches Some(index) ==> index >= app.saved.len() ==> app.open_step().0.notice
            == Some("The selected file is no longer available"@),
        app.selected matches Some(index) ==> index < app.saved.len()
            && app.saved[index as int].edit_source is None ==> app.open_step().0.notice == Some(
            "Only named clips can open in the editor"@,
        ),
{
}

} // verus!
