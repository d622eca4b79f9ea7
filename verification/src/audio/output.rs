//! Exact session boundaries and the metadata of every finalized file.
//!
//! [`OutputManager`] splits encoded frames at exact integer boundaries. It
//! plans the file work for each block: which frames go to the open part, when
//! a part closes, and which files open next. The capture thread performs the
//! plan in order. A session part also keeps temporary stereo PCM. Automatic
//! parts discard that cache. Named clips keep it for later edits.
use vstd::prelude::*;

use crate::audio;
use crate::audio::{ClipEditSource, RecordingSummary, SavedFile, SavedFileKind};
use crate::path;
use crate::path::FilePath;
use crate::session;
use crate::session::{
    available_clip_path, part_path, segment_frame_limit, NameError, OutputTarget,
};
use crate::text;

verus! {

/// The MP3 part that is open for writing.
#[derive(Debug)]
pub struct OpenPart {
    /// Destination of the MP3 data.
    pub path: FilePath,
    /// Destination of the temporary PCM data of a session part.
    pub pcm_path: Option<FilePath>,
    /// Frames already written to both destinations.
    pub frames: u64,
}

/// The mathematical value of an [`OpenPart`].
pub struct OpenView {
    pub path: path::PathView,
    pub pcm_path: Option<path::PathView>,
    pub frames: nat,
}

/// The mathematical value of an optional path.
pub open spec fn optional_path(path: Option<FilePath>) -> Option<path::PathView> {
    match path {
        Some(path) => Some(path@),
        None => None,
    }
}

impl View for OpenPart {
    type V = OpenView;

    open spec fn view(&self) -> OpenView {
        OpenView {
            path: self.path@,
            pcm_path: optional_path(self.pcm_path),
            frames: self.frames as nat,
        }
    }
}

/// Why a recording cannot go on.
#[derive(Clone, Copy, Debug, PartialEq, Eq, Structural)]
pub enum OutputError {
    /// A stereo block has a sample without a partner.
    OddBlock,
    /// The single output file was already closed.
    SingleFileClosed,
    /// The session has no free part number.
    TooManyParts,
    /// The encoded timeline exceeds the frame counter.
    TimelineTooLong,
    /// A later part uses another encoder format.
    ProfileChanged,
}

impl OutputError {
    /// The message for the user.
    pub open spec fn text(self) -> Seq<char> {
        match self {
            OutputError::OddBlock =>
                "internal encoder error: stereo sample block has an odd length"@,
            OutputError::SingleFileClosed => "the single-file MP3 writer was already closed"@,
            OutputError::TooManyParts => "the session has too many parts"@,
            OutputError::TimelineTooLong => "encoded audio timeline is too long"@,
            OutputError::ProfileChanged =>
                "the Windows MP3 profile changed during the recording session"@,
        }
    }

    /// Returns the message for the user.
    pub fn message(&self) -> (message: &'static str)
        ensures
            message@ == self.text(),
    {
        match self {
            OutputError::OddBlock =>
                "internal encoder error: stereo sample block has an odd length",
            OutputError::SingleFileClosed => "the single-file MP3 writer was already closed",
            OutputError::TooManyParts => "the session has too many parts",
            OutputError::TimelineTooLong => "encoded audio timeline is too long",
            OutputError::ProfileChanged =>
                "the Windows MP3 profile changed during the recording session",
        }
    }
}

/// One piece of file work for the capture thread.
#[derive(Debug)]
pub enum OutputAction {
    /// Open these destinations without replacing a file.
    Open {
        /// Destination of the MP3 data.
        path: FilePath,
        /// Destination of the temporary PCM data.
        pcm_path: Option<FilePath>,
    },
    /// Write this range of frames of the block to the open part.
    Write {
        /// First frame.
        start: usize,
        /// Frame behind the last one.
        end: usize,
    },
    /// Finalize the open part as this file and announce it.
    Close(SavedFile),
    /// Stop the recording with this error.
    Fail(OutputError),
}

/// The mathematical value of an [`OutputAction`].
pub enum ActionView {
    Open { path: path::PathView, pcm_path: Option<path::PathView> },
    Write { start: nat, end: nat },
    Close(audio::SavedView),
    Fail(OutputError),
}

impl View for OutputAction {
    type V = ActionView;

    open spec fn view(&self) -> ActionView {
        match self {
            OutputAction::Open { path, pcm_path } => ActionView::Open {
                path: path@,
                pcm_path: optional_path(*pcm_path),
            },
            OutputAction::Write { start, end } => ActionView::Write {
                start: *start as nat,
                end: *end as nat,
            },
            OutputAction::Close(file) => ActionView::Close(file@),
            OutputAction::Fail(error) => ActionView::Fail(*error),
        }
    }
}

/// The values of a list of actions.
pub open spec fn action_views(actions: Seq<OutputAction>) -> Seq<ActionView> {
    Seq::new(actions.len(), |i: int| actions[i]@)
}

/// The values of a list of files.
pub open spec fn file_views(files: Seq<SavedFile>) -> Seq<audio::SavedView> {
    Seq::new(files.len(), |i: int| files[i]@)
}

/// The name of the temporary PCM file of one numbered part.
pub open spec fn cache_name(index: nat) -> Seq<char> {
    "part-"@ + text::padded(index, 6) + ".pcm"@
}

/// Returns the temporary PCM path for one numbered part.
pub fn clip_cache_part_path(cache: &FilePath, index: u32) -> (path: FilePath)
    ensures
        path@ == cache@.child(cache_name(index as nat)),
{
    let mut name = String::from_str("part-");
    text::push_padded(&mut name, index as u64, 6);
    name.append(".pcm");
    cache.child(name.as_str())
}

/// Owns exact session boundaries and all finalized file metadata.
#[derive(Debug)]
pub struct OutputManager {
    target: OutputTarget,
    writer: Option<OpenPart>,
    clip_cache: Option<FilePath>,
    sample_rate: u32,
    bitrate: u32,
    segment_limit: Option<u64>,
    next_part_index: u32,
    total_frames: u64,
    files: Vec<SavedFile>,
}

/// The mathematical value of an [`OutputManager`].
pub struct OutputView {
    pub target: OutputTarget,
    pub open: Option<OpenView>,
    pub cache: Option<path::PathView>,
    pub sample_rate: nat,
    pub bitrate: nat,
    pub limit: Option<nat>,
    pub next_part: nat,
    pub total: nat,
    pub files: Seq<audio::SavedView>,
}

impl View for OutputManager {
    type V = OutputView;

    closed spec fn view(&self) -> OutputView {
        OutputView {
            target: self.target,
            open: match self.writer {
                Some(part) => Some(part@),
                None => None,
            },
            cache: optional_path(self.clip_cache),
            sample_rate: self.sample_rate as nat,
            bitrate: self.bitrate as nat,
            limit: match self.segment_limit {
                Some(limit) => Some(limit as nat),
                None => None,
            },
            next_part: self.next_part_index as nat,
            total: self.total_frames as nat,
            files: file_views(self.files@),
        }
    }
}

/// The number of frames in a list of files.
pub open spec fn frames_in(files: Seq<audio::SavedView>) -> nat
    decreases files.len(),
{
    if files.len() == 0 {
        0
    } else {
        frames_in(files.drop_last()) + files.last().frames
    }
}

impl OutputView {
    /// The frames in the open part.
    pub open spec fn open_frames(self) -> nat {
        match self.open {
            Some(part) => part.frames,
            None => 0,
        }
    }

    /// Part numbers and limits make sense, the open part is below its limit,
    /// and every encoded frame is in a finalized file or in the open part.
    pub open spec fn wf(self) -> bool {
        &&& self.limit is Some <==> self.target is Session
        &&& self.limit is Some ==> self.limit->0 > 0 && self.open_frames() < self.limit->0
        &&& 1 <= self.next_part <= u32::MAX
        &&& self.total <= u64::MAX
        &&& self.total == frames_in(self.files) + self.open_frames()
    }

    /// The state with the next numbered part open and empty.
    pub open spec fn with_next_part(self) -> OutputView {
        OutputView {
            open: Some(
                OpenView {
                    path: self.target->directory@.child(session::part_name(self.next_part)),
                    pcm_path: match self.cache {
                        Some(cache) => Some(cache.child(cache_name(self.next_part))),
                        None => None,
                    },
                    frames: 0,
                },
            ),
            next_part: self.next_part + 1,
            ..self
        }
    }

    /// What stops the next part from opening.
    pub open spec fn open_problem(self) -> Option<OutputError> {
        if self.open is Some {
            None
        } else if self.target is SingleFile {
            Some(OutputError::SingleFileClosed)
        } else if self.next_part == u32::MAX {
            Some(OutputError::TooManyParts)
        } else {
            None
        }
    }

    /// The state with a part open.
    pub open spec fn ready(self) -> OutputView {
        if self.open is Some {
            self
        } else {
            self.with_next_part()
        }
    }

    /// The number of frames that the open part takes out of `wanted` frames.
    pub open spec fn chunk(self, wanted: nat) -> nat {
        match self.limit {
            Some(limit) => if limit <= self.open_frames() {
                0
            } else if limit - self.open_frames() < wanted {
                (limit - self.open_frames()) as nat
            } else {
                wanted
            },
            None => wanted,
        }
    }

    /// The state after the open part took some frames.
    pub open spec fn taken(self, frames: nat) -> OutputView {
        OutputView {
            open: Some(
                OpenView { frames: self.open->0.frames + frames, ..self.open->0 },
            ),
            total: self.total + frames,
            ..self
        }
    }

    /// Whether the open part has all of its frames.
    pub open spec fn at_boundary(self) -> bool {
        self.limit is Some && self.open_frames() >= self.limit->0
    }

    /// The file that the open part becomes.
    pub open spec fn closed_file(
        self,
        kind: SavedFileKind,
        path: path::PathView,
    ) -> audio::SavedView {
        audio::SavedView {
            path,
            kind,
            sample_rate: self.sample_rate,
            bitrate: self.bitrate,
            frames: self.open->0.frames,
            edit_source: if kind == SavedFileKind::Clip && self.cache is Some
                && self.open->0.pcm_path is Some {
                Some(
                    audio::EditSourceView {
                        pcm_path: self.open->0.pcm_path->0,
                        start_frame: 0,
                        end_frame: self.open->0.frames,
                    },
                )
            } else {
                None
            },
        }
    }

    /// The state after the open part became a file at a path.
    pub open spec fn closed(self, kind: SavedFileKind, path: path::PathView) -> OutputView {
        OutputView { open: None, files: self.files.push(self.closed_file(kind, path)), ..self }
    }

    /// The state after the open part took some frames and closed at its boundary.
    pub open spec fn written(self, frames: nat) -> OutputView {
        let taken = self.taken(frames);
        if taken.at_boundary() {
            taken.closed(SavedFileKind::Part, taken.open->0.path)
        } else {
            taken
        }
    }

    /// The file work of one part, and of nothing else.
    pub open spec fn part_actions(self, offset: nat, frames: nat) -> Seq<ActionView> {
        let ready = self.ready();
        let chunk = ready.chunk(frames);
        let opened = if self.open is Some {
            Seq::empty()
        } else {
            seq![
                ActionView::Open {
                    path: ready.open->0.path,
                    pcm_path: ready.open->0.pcm_path,
                },
            ]
        };
        let write = ActionView::Write { start: offset, end: offset + chunk };
        if ready.total + chunk > u64::MAX {
            opened.push(write).push(ActionView::Fail(OutputError::TimelineTooLong))
        } else if ready.taken(chunk).at_boundary() {
            let taken = ready.taken(chunk);
            opened.push(write).push(
                ActionView::Close(taken.closed_file(SavedFileKind::Part, taken.open->0.path)),
            )
        } else {
            opened.push(write)
        }
    }

    /// All file work for the frames of a block from an offset on.
    pub open spec fn actions(self, offset: nat, frames: nat) -> Seq<ActionView>
        decreases frames,
    {
        if frames == 0 {
            Seq::empty()
        } else if self.open_problem() is Some {
            seq![ActionView::Fail(self.open_problem()->0)]
        } else {
            let ready = self.ready();
            let chunk = ready.chunk(frames);
            if chunk == 0 || ready.total + chunk > u64::MAX {
                self.part_actions(offset, frames)
            } else {
                self.part_actions(offset, frames) + ready.written(chunk).actions(
                    offset + chunk,
                    (frames - chunk) as nat,
                )
            }
        }
    }

    /// The state after all file work for some frames.
    pub open spec fn after(self, frames: nat) -> OutputView
        decreases frames,
    {
        if frames == 0 || self.open_problem() is Some {
            self
        } else {
            let ready = self.ready();
            let chunk = ready.chunk(frames);
            if chunk == 0 || ready.total + chunk > u64::MAX {
                ready
            } else {
                ready.written(chunk).after((frames - chunk) as nat)
            }
        }
    }
}

/// The outcome of a clip request.
#[derive(Debug)]
pub enum ClipOutcome {
    /// The recording has one explicit file, so the request has no effect.
    Ignored,
    /// No audio was captured since the last file. Show this message.
    NeedsAudio(String),
    /// Finalize the open part, rename it when a new path is given, and announce
    /// the file.
    Saved {
        /// Path of the part until it is renamed.
        part: FilePath,
        /// New path, when it differs.
        rename_to: Option<FilePath>,
        /// The finalized clip.
        file: SavedFile,
    },
    /// No free file name was found.
    Failed(NameError),
}

/// The message for a clip request without captured audio.
pub open spec fn needs_audio_text() -> Seq<char> {
    "A clip needs captured audio. Try again after the waveform moves."@
}

/// What the end of a recording does with the open part.
#[derive(Debug)]
pub enum FinalWork {
    /// No part is open.
    Nothing,
    /// Remove the empty part at this path.
    Discard(FilePath),
    /// Finalize the open part as this file and announce it.
    Close(SavedFile),
}

/// The destinations of the first part.
#[derive(Debug)]
pub struct FirstPart {
    /// Destination of the MP3 data.
    pub path: FilePath,
    /// Destination of the temporary PCM data of a session part.
    pub pcm_path: Option<FilePath>,
    /// Replace an existing file.
    pub replace: bool,
}

/// Chooses the destinations of the first part.
pub fn first_part(target: &OutputTarget, cache: &Option<FilePath>) -> (first: FirstPart)
    ensures
        match target {
            OutputTarget::SingleFile { path, replace } => first.path@ == path@ && first.replace
                == replace,
            OutputTarget::Session { directory, .. } => first.path@ == directory@.child(
                session::part_name(1),
            ) && !first.replace,
        },
        optional_path(first.pcm_path) == (match cache {
            Some(cache) => Some(cache@.child(cache_name(1))),
            None => None::<path::PathView>,
        }),
{
    let pcm_path = match cache {
        Some(cache) => Some(clip_cache_part_path(cache, 1)),
        None => None,
    };
    match target {
        OutputTarget::SingleFile { path, replace } => FirstPart {
            path: path.clone(),
            pcm_path,
            replace: *replace,
        },
        OutputTarget::Session { directory, .. } => FirstPart {
            path: part_path(directory, 1),
            pcm_path,
            replace: false,
        },
    }
}

impl OutputManager {
    /// Starts with the first part open and locks the encoder format for the
    /// whole recording.
    pub fn open(
        target: &OutputTarget,
        cache: Option<FilePath>,
        first: FirstPart,
        profile: audio::Profile,
    ) -> (manager: OutputManager)
        ensures
            manager@.wf(),
            manager@.target == *target,
            manager@.open == Some(
                OpenView {
                    path: first.path@,
                    pcm_path: optional_path(first.pcm_path),
                    frames: 0,
                },
            ),
            manager@.cache == optional_path(cache),
            manager@.sample_rate == profile.sample_rate,
            manager@.bitrate == profile.bitrate,
            manager@.limit == (match target {
                OutputTarget::SingleFile { .. } => None::<nat>,
                OutputTarget::Session { segment_duration, .. } => Some(
                    session::frame_limit(segment_duration@, profile.sample_rate as nat),
                ),
            }),
            manager@.next_part == (if target is Session {
                2nat
            } else {
                1nat
            }),
            manager@.total == 0,
            manager@.files == Seq::<audio::SavedView>::empty(),
    {
        let (segment_limit, next_part_index): (Option<u64>, u32) = match target {
            OutputTarget::SingleFile { .. } => (None, 1),
            OutputTarget::Session { segment_duration, .. } => (
                Some(segment_frame_limit(*segment_duration, profile.sample_rate)),
                2,
            ),
        };
        let manager = OutputManager {
            target: target.clone(),
            writer: Some(OpenPart { path: first.path, pcm_path: first.pcm_path, frames: 0 }),
            clip_cache: cache,
            sample_rate: profile.sample_rate,
            bitrate: profile.bitrate,
            segment_limit,
            next_part_index,
            total_frames: 0,
            files: Vec::new(),
        };
        proof {
            assert(file_views(manager.files@) =~= Seq::<audio::SavedView>::empty());
        }
        manager
    }

    /// Returns the selected output sample rate.
    pub fn sample_rate(&self) -> (rate: u32)
        ensures
            rate == self@.sample_rate,
    {
        self.sample_rate
    }

    /// Returns the selected output bit rate.
    pub fn bitrate(&self) -> (rate: u32)
        ensures
            rate == self@.bitrate,
    {
        self.bitrate
    }

    /// Returns all encoded frames from this process.
    pub fn total_frames(&self) -> (frames: u64)
        ensures
            frames == self@.total,
    {
        self.total_frames
    }

    /// Rejects a later part whose encoder format differs from the first one.
    pub fn check_profile(&self, profile: audio::Profile) -> (result: Result<(), OutputError>)
        ensures
            result is Ok <==> profile.sample_rate == self@.sample_rate && profile.bitrate
                == self@.bitrate,
            result is Err ==> result->Err_0 == OutputError::ProfileChanged,
    {
        if profile.sample_rate != self.sample_rate || profile.bitrate != self.bitrate {
            Err(OutputError::ProfileChanged)
        } else {
            Ok(())
        }
    }
}

impl OutputManager {
    /// Opens the next numbered part when no part is open.
    fn ensure_part(&mut self) -> (result: Result<Option<OutputAction>, OutputError>)
        requires
            old(self)@.wf(),
        ensures
            old(self)@.open_problem() is Some ==> result is Err && result->Err_0
                == old(self)@.open_problem()->0 && final(self)@ == old(self)@,
            old(self)@.open_problem() is None ==> result is Ok && final(self)@
                == old(self)@.ready() && final(self)@.wf(),
            old(self)@.open is Some ==> result is Ok && result->Ok_0 is None,
            old(self)@.open is None && result is Ok ==> result->Ok_0 is Some
                && result->Ok_0->0@ == (ActionView::Open {
                path: final(self)@.open->0.path,
                pcm_path: final(self)@.open->0.pcm_path,
            }),
    {
        if self.writer.is_some() {
            return Ok(None);
        }
        let path = match &self.target {
            OutputTarget::SingleFile { .. } => {
                return Err(OutputError::SingleFileClosed);
            },
            OutputTarget::Session { directory, .. } => part_path(directory, self.next_part_index),
        };
        if self.next_part_index == u32::MAX {
            return Err(OutputError::TooManyParts);
        }
        let pcm_path = match &self.clip_cache {
            Some(cache) => Some(clip_cache_part_path(cache, self.next_part_index)),
            None => None,
        };
        let action = OutputAction::Open {
            path: path.clone(),
            pcm_path: match &pcm_path {
                Some(path) => Some(path.clone()),
                None => None,
            },
        };
        self.next_part_index = self.next_part_index + 1;
        self.writer = Some(OpenPart { path, pcm_path, frames: 0 });
        Ok(Some(action))
    }

    /// Returns how many of the wanted frames fit into the open part.
    fn room(&self, wanted: usize) -> (chunk: usize)
        requires
            self@.wf(),
        ensures
            chunk == self@.chunk(wanted as nat),
            wanted > 0 ==> chunk > 0,
            chunk <= wanted,
    {
        let current: u64 = match &self.writer {
            Some(part) => part.frames,
            None => 0,
        };
        match self.segment_limit {
            None => wanted,
            Some(limit) => {
                let remaining: u64 = limit - current;
                if remaining < wanted as u64 {
                    remaining as usize
                } else {
                    wanted
                }
            },
        }
    }

    /// Counts frames that went to the open part, or reports that the timeline
    /// is too long.
    fn take_frames(&mut self, frames: usize) -> (counted: bool)
        requires
            old(self)@.wf(),
            old(self)@.open is Some,
        ensures
            counted == (old(self)@.total + frames <= u64::MAX),
            counted ==> final(self)@ == old(self)@.taken(frames as nat),
            !counted ==> final(self)@ == old(self)@,
    {
        match self.total_frames.checked_add(frames as u64) {
            None => false,
            Some(total) => {
                let ghost before = self@;
                match self.writer.take() {
                    None => {},
                    Some(part) => {
                        self.writer = Some(
                            OpenPart {
                                path: part.path,
                                pcm_path: part.pcm_path,
                                frames: part.frames + frames as u64,
                            },
                        );
                    },
                }
                self.total_frames = total;
                proof {
                    assert(self@.files == before.files);
                }
                true
            },
        }
    }

    /// Reports whether the open part has all of its frames.
    fn reached_boundary(&self) -> (reached: bool)
        ensures
            reached == self@.at_boundary(),
    {
        let current: u64 = match &self.writer {
            Some(part) => part.frames,
            None => 0,
        };
        match self.segment_limit {
            Some(limit) => current >= limit,
            None => false,
        }
    }

    /// Turns the open part into a finished file at a path.
    fn close_part(&mut self, kind: SavedFileKind, path: FilePath) -> (file: SavedFile)
        requires
            old(self)@.open is Some,
        ensures
            file@ == old(self)@.closed_file(kind, path@),
            final(self)@ == old(self)@.closed(kind, path@),
    {
        let ghost before = self@;
        let (pcm_path, frames): (Option<FilePath>, u64) = match self.writer.take() {
            Some(part) => (part.pcm_path, part.frames),
            None => (None, 0),
        };
        let edit_source = match (kind, pcm_path, &self.clip_cache) {
            (SavedFileKind::Clip, Some(pcm_path), Some(_)) => Some(
                ClipEditSource { pcm_path, start_frame: 0, end_frame: frames },
            ),
            _ => None,
        };
        let file = SavedFile {
            path,
            kind,
            sample_rate: self.sample_rate,
            bitrate: self.bitrate,
            frames,
            edit_source,
        };
        self.files.push(file.clone());
        proof {
            assert(self@.files =~= before.files.push(file@));
        }
        file
    }

    /// Returns the path of the open part.
    fn open_path(&self) -> (path: FilePath)
        requires
            self@.open is Some,
        ensures
            path@ == self@.open->0.path,
    {
        match &self.writer {
            Some(part) => part.path.clone(),
            None => FilePath::new("", "", '/'),
        }
    }

    /// Plans the file work for an interleaved stereo block of so many samples,
    /// across exact part boundaries.
    pub fn write(&mut self, samples: usize) -> (actions: Vec<OutputAction>)
        requires
            old(self)@.wf(),
        ensures
            samples % 2 == 1 ==> action_views(actions@) == seq![
                ActionView::Fail(OutputError::OddBlock),
            ] && final(self)@ == old(self)@,
            samples % 2 == 0 ==> action_views(actions@) == old(self)@.actions(
                0,
                samples as nat / 2,
            ) && final(self)@ == old(self)@.after(samples as nat / 2),
            final(self)@.wf(),
    {
        let mut actions: Vec<OutputAction> = Vec::new();
        if samples % 2 == 1 {
            actions.push(OutputAction::Fail(OutputError::OddBlock));
            proof {
                assert(action_views(actions@) =~= seq![ActionView::Fail(OutputError::OddBlock)]);
            }
            return actions;
        }
        let frames: usize = samples / 2;
        let ghost planned = self@.actions(0, frames as nat);
        let ghost target = self@.after(frames as nat);
        let mut offset: usize = 0;
        proof {
            assert(action_views(actions@) =~= Seq::<ActionView>::empty());
            assert(Seq::<ActionView>::empty() + planned =~= planned);
        }
        while offset < frames
            invariant
                offset <= frames,
                self@.wf(),
                action_views(actions@) + self@.actions(offset as nat, (frames - offset) as nat)
                    == planned,
                self@.after((frames - offset) as nat) == target,
                planned == old(self)@.actions(0, frames as nat),
                target == old(self)@.after(frames as nat),
                frames == samples as nat / 2,
                samples % 2 == 0,
            decreases frames - offset,
        {
            let ghost before = self@;
            let ghost earlier = action_views(actions@);
            let ghost left = (frames - offset) as nat;
            match self.ensure_part() {
                Err(error) => {
                    actions.push(OutputAction::Fail(error));
                    proof {
                        assert(action_views(actions@) =~= planned);
                    }
                    return actions;
                },
                Ok(Some(action)) => {
                    actions.push(action);
                },
                Ok(None) => {},
            }
            let ghost ready = self@;
            let chunk: usize = self.room(frames - offset);
            actions.push(OutputAction::Write { start: offset, end: offset + chunk });
            if !self.take_frames(chunk) {
                actions.push(OutputAction::Fail(OutputError::TimelineTooLong));
                proof {
                    assert(action_views(actions@) =~= earlier + before.part_actions(
                        offset as nat,
                        left,
                    ));
                }
                return actions;
            }
            if self.reached_boundary() {
                let path = self.open_path();
                let file = self.close_part(SavedFileKind::Part, path);
                actions.push(OutputAction::Close(file));
                proof {
                    let taken = ready.taken(chunk as nat);
                    assert(self@.files.drop_last() =~= taken.files);
                }
            }
            proof {
                assert(self@ == ready.written(chunk as nat));
                assert(action_views(actions@) =~= earlier + before.part_actions(
                    offset as nat,
                    left,
                ));
                let rest = self@.actions((offset + chunk) as nat, (left - chunk) as nat);
                assert(earlier + (before.part_actions(offset as nat, left) + rest) =~= (earlier
                    + before.part_actions(offset as nat, left)) + rest);
            }
            offset = offset + chunk;
        }
        proof {
            assert(action_views(actions@) + Seq::<ActionView>::empty() =~= action_views(actions@));
        }
        actions
    }
}

impl OutputView {
    /// Whether the open part holds audio.
    pub open spec fn has_audio(self) -> bool {
        self.open is Some && self.open->0.frames > 0
    }

    /// The reason for the file that the end of the recording finalizes.
    pub open spec fn final_kind(self) -> SavedFileKind {
        if self.target is Session {
            SavedFileKind::Part
        } else {
            SavedFileKind::Recording
        }
    }

    /// The state after the open part was finalized, or removed when it is empty.
    pub open spec fn finished(self) -> OutputView {
        if self.has_audio() {
            self.closed(self.final_kind(), self.open->0.path)
        } else {
            OutputView { open: None, ..self }
        }
    }
}

impl OutputManager {
    /// Finalizes the open part as a named clip when sessions are active.
    ///
    /// `in_use` answers whether another file has a path.
    pub fn save_clip<F: Fn(&FilePath) -> bool>(&mut self, stem: &str, in_use: F) -> (outcome:
        ClipOutcome)
        requires
            old(self)@.wf(),
            forall|candidate: &FilePath| call_requires(in_use, (candidate,)),
        ensures
            final(self)@.wf(),
            old(self)@.target is SingleFile ==> outcome is Ignored && final(self)@ == old(self)@,
            old(self)@.target is Session && !old(self)@.has_audio() ==> outcome is NeedsAudio
                && outcome->NeedsAudio_0@ == needs_audio_text() && final(self)@ == old(self)@,
            old(self)@.target is Session && old(self)@.has_audio() ==> match outcome {
                ClipOutcome::Saved { part, rename_to, file } => {
                    &&& part@ == old(self)@.open->0.path
                    &&& session::clip_stem_of(stem@) is Ok
                    &&& match rename_to {
                        Some(destination) => {
                            &&& file@.path == destination@
                            &&& !destination@.same_place(part@)
                            &&& session::is_first_free(
                                in_use,
                                old(self)@.target->directory@,
                                session::clip_stem_of(stem@)->Ok_0,
                                part@,
                                destination@,
                            )
                        },
                        None => {
                            &&& file@.path == part@
                            &&& exists|chosen: path::PathView|
                                chosen.same_place(part@) && #[trigger] session::is_first_free(
                                    in_use,
                                    old(self)@.target->directory@,
                                    session::clip_stem_of(stem@)->Ok_0,
                                    part@,
                                    chosen,
                                )
                        },
                    }
                    &&& file@ == old(self)@.closed_file(SavedFileKind::Clip, file@.path)
                    &&& final(self)@ == old(self)@.closed(SavedFileKind::Clip, file@.path)
                },
                ClipOutcome::Failed(error) => {
                    &&& match session::clip_stem_of(stem@) {
                        Err(problem) => error.problem == problem,
                        Ok(name) => error.problem == session::NameProblem::NoFreeName
                            && session::earlier_taken(
                            in_use,
                            old(self)@.target->directory@,
                            name,
                            old(self)@.open->0.path,
                            session::SUFFIX_END as nat,
                        ),
                    }
                    &&& final(self)@ == old(self)@
                },
                _ => false,
            },
    {
        let ghost before = self@;
        let directory = match &self.target {
            OutputTarget::SingleFile { .. } => {
                return ClipOutcome::Ignored;
            },
            OutputTarget::Session { directory, .. } => directory.clone(),
        };
        let recorded: u64 = match &self.writer {
            Some(part) => part.frames,
            None => 0,
        };
        if recorded == 0 {
            return ClipOutcome::NeedsAudio(
                String::from_str(
                    "A clip needs captured audio. Try again after the waveform moves.",
                ),
            );
        }
        let part = self.open_path();
        match available_clip_path(&directory, stem, &part, in_use) {
            Err(error) => ClipOutcome::Failed(error),
            Ok(destination) => {
                let (rename_to, place) = if destination.same(&part) {
                    (None, part.clone())
                } else {
                    (Some(destination.clone()), destination)
                };
                let file = self.close_part(SavedFileKind::Clip, place);
                proof {
                    assert(self@.files.drop_last() =~= before.files);
                }
                ClipOutcome::Saved { part, rename_to, file }
            },
        }
    }

    /// Ends the recording. The summary counts on the returned file work.
    pub fn finish(self) -> (result: (FinalWork, RecordingSummary))
        requires
            self@.wf(),
        ensures
            match self@.open {
                None => result.0 is Nothing,
                Some(part) => if part.frames == 0 {
                    result.0 is Discard && result.0->Discard_0@ == part.path
                } else {
                    result.0 is Close && result.0->Close_0@ == self@.closed_file(
                        self@.final_kind(),
                        part.path,
                    )
                },
            },
            result.1.output@ == self@.target.place(),
            result.1.sample_rate == self@.sample_rate,
            result.1.bitrate == self@.bitrate,
            result.1.frames == self@.total,
            file_views(result.1.files@) == self@.finished().files,
            result.1.frames == frames_in(file_views(result.1.files@)),
    {
        let mut manager = self;
        let kind = if manager.target.is_session() {
            SavedFileKind::Part
        } else {
            SavedFileKind::Recording
        };
        let recorded: Option<u64> = match &manager.writer {
            Some(part) => Some(part.frames),
            None => None,
        };
        let work = match recorded {
            None => FinalWork::Nothing,
            Some(frames) => {
                let path = manager.open_path();
                if frames == 0 {
                    FinalWork::Discard(path)
                } else {
                    let ghost before = manager@;
                    let file = manager.close_part(kind, path);
                    proof {
                        assert(manager@.files.drop_last() =~= before.files);
                    }
                    FinalWork::Close(file)
                }
            },
        };
        let summary = RecordingSummary {
            output: manager.target.root().clone(),
            sample_rate: manager.sample_rate,
            bitrate: manager.bitrate,
            frames: manager.total_frames,
            files: manager.files,
        };
        (work, summary)
    }
}

/// Block boundaries leave no trace: two blocks lead to the same files, open
/// part, and frame counts as one block with all of their frames.
pub proof fn law_blocks_join(state: OutputView, first: nat, second: nat)
    requires
        state.wf(),
        state.total + first + second <= u64::MAX,
    ensures
        state.after(first).after(second) == state.after(first + second),
    decreases first,
{
    if first == 0 || state.open_problem() is Some {
        if state.open_problem() is Some {
            assert(state.after(first) == state);
        }
    } else {
        let ready = state.ready();
        let chunk = ready.chunk(first);
        let joined = ready.chunk(first + second);
        let next = ready.written(chunk);
        lemma_written_is_well_formed(ready, chunk);
        law_blocks_join(next, (first - chunk) as nat, second);
        if joined == chunk {
            assert(((first + second) - chunk) as nat == ((first - chunk) as nat + second));
        } else {
            assert(chunk == first);
            assert(!ready.taken(chunk).at_boundary());
            assert(next.open is Some && next.ready() == next);
            let more = next.chunk(second);
            assert(joined == chunk + more);
            assert(next.written(more) == ready.written(joined));
            assert((second - more) as nat == ((first + second) - joined) as nat);
            assert(next.after(second) == next.written(more).after((second - more) as nat));
        }
    }
}

/// Writing into the open part keeps the state well formed.
proof fn lemma_written_is_well_formed(ready: OutputView, chunk: nat)
    requires
        ready.wf(),
        ready.open is Some,
        ready.total + chunk <= u64::MAX,
        ready.limit is Some ==> ready.open_frames() + chunk <= ready.limit->0,
    ensures
        ready.written(chunk).wf(),
        ready.written(chunk).total == ready.total + chunk,
{
    let taken = ready.taken(chunk);
    if taken.at_boundary() {
        let closed = taken.closed(SavedFileKind::Part, taken.open->0.path);
        assert(closed.files.drop_last() =~= taken.files);
    }
}

/// Whether a plan has no failure in it.
pub open spec fn completes(actions: Seq<ActionView>) -> bool {
    forall|i: int| 0 <= i < actions.len() ==> !((#[trigger] actions[i]) is Fail)
}

/// A plan without a failure has room for its frames, and so has the rest of it.
proof fn lemma_plan_continues(state: OutputView, offset: nat, frames: nat)
    requires
        state.wf(),
        frames > 0,
        completes(state.actions(offset, frames)),
    ensures
        state.open_problem() is None,
        state.total + state.ready().chunk(frames) <= u64::MAX,
        0 < state.ready().chunk(frames) <= frames,
        state.ready().written(state.ready().chunk(frames)).wf(),
        completes(
            state.ready().written(state.ready().chunk(frames)).actions(
                offset + state.ready().chunk(frames),
                (frames - state.ready().chunk(frames)) as nat,
            ),
        ),
{
    let actions = state.actions(offset, frames);
    if state.open_problem() is Some {
        assert(actions[0] is Fail);
    } else {
        let ready = state.ready();
        let chunk = ready.chunk(frames);
        let part = state.part_actions(offset, frames);
        if ready.total + chunk > u64::MAX {
            assert(actions[actions.len() - 1] is Fail);
        } else {
            lemma_written_is_well_formed(ready, chunk);
            let rest = ready.written(chunk).actions(offset + chunk, (frames - chunk) as nat);
            assert forall|i: int| 0 <= i < rest.len() implies !((#[trigger] rest[i]) is Fail) by {
                assert(actions[part.len() + i] == rest[i]);
            }
        }
    }
}

/// Every frame is encoded exactly once: a block whose plan completes adds all
/// of its frames to the total, and the total is always the frames in all files.
pub proof fn law_no_frame_is_lost(state: OutputView, offset: nat, frames: nat)
    requires
        state.wf(),
        completes(state.actions(offset, frames)),
    ensures
        state.after(frames).wf(),
        state.after(frames).total == state.total + frames,
        state.after(frames).total == frames_in(state.after(frames).files) + state.after(
            frames,
        ).open_frames(),
    decreases frames,
{
    if frames > 0 {
        lemma_plan_continues(state, offset, frames);
        let ready = state.ready();
        let chunk = ready.chunk(frames);
        lemma_written_is_well_formed(ready, chunk);
        law_no_frame_is_lost(ready.written(chunk), offset + chunk, (frames - chunk) as nat);
    }
}

/// Automatic boundaries are exact: every part that a block closes has exactly
/// the frame limit of the session, and files closed earlier stay as they are.
pub proof fn law_automatic_parts_have_exactly_the_limit(state: OutputView, frames: nat, index: int)
    requires
        state.wf(),
        0 <= index < state.after(frames).files.len(),
    ensures
        state.files.len() <= state.after(frames).files.len(),
        index < state.files.len() ==> state.after(frames).files[index] == state.files[index],
        index >= state.files.len() ==> {
            let file = state.after(frames).files[index];
            &&& state.limit is Some
            &&& file.frames == state.limit->0
            &&& file.kind == SavedFileKind::Part
            &&& file.edit_source is None
        },
    decreases frames,
{
    if frames > 0 && state.open_problem() is None {
        let ready = state.ready();
        let chunk = ready.chunk(frames);
        if ready.total + chunk <= u64::MAX {
            lemma_written_is_well_formed(ready, chunk);
            law_automatic_parts_have_exactly_the_limit(
                ready.written(chunk),
                (frames - chunk) as nat,
                index,
            );
        }
    }
}

/// The frames that a list of actions writes, when they are written in order
/// from an offset on; none when a range does not start where the last one ended.
pub open spec fn written_end(actions: Seq<ActionView>, offset: nat) -> Option<nat>
    decreases actions.len(),
{
    if actions.len() == 0 {
        Some(offset)
    } else {
        match written_end(actions.drop_last(), offset) {
            None => None,
            Some(reached) => match actions.last() {
                ActionView::Write { start, end } => if start == reached && start < end {
                    Some(end)
                } else {
                    None
                },
                _ => Some(reached),
            },
        }
    }
}

/// The planned ranges cover the block without a gap or an overlap.
pub proof fn law_planned_writes_cover_the_block(state: OutputView, offset: nat, frames: nat)
    requires
        state.wf(),
        completes(state.actions(offset, frames)),
    ensures
        written_end(state.actions(offset, frames), offset) == Some(offset + frames),
    decreases frames,
{
    if frames > 0 {
        lemma_plan_continues(state, offset, frames);
        let ready = state.ready();
        let chunk = ready.chunk(frames);
        let rest = ready.written(chunk).actions(offset + chunk, (frames - chunk) as nat);
        law_planned_writes_cover_the_block(
            ready.written(chunk),
            offset + chunk,
            (frames - chunk) as nat,
        );
        let part = state.part_actions(offset, frames);
        lemma_part_writes_its_chunk(state, offset, frames);
        lemma_written_end_joins(part, rest, offset);
    }
}

/// The actions of one part write exactly its chunk.
proof fn lemma_part_writes_its_chunk(state: OutputView, offset: nat, frames: nat)
    requires
        state.wf(),
        state.open_problem() is None,
        frames > 0,
        state.total + state.ready().chunk(frames) <= u64::MAX,
    ensures
        written_end(state.part_actions(offset, frames), offset) == Some(
            offset + state.ready().chunk(frames),
        ),
{
    reveal_with_fuel(written_end, 4);
    let ready = state.ready();
    let chunk = ready.chunk(frames);
    let part = state.part_actions(offset, frames);
    let write = ActionView::Write { start: offset, end: offset + chunk };
    let opened = if state.open is Some {
        Seq::<ActionView>::empty()
    } else {
        seq![ActionView::Open { path: ready.open->0.path, pcm_path: ready.open->0.pcm_path }]
    };
    assert(opened.push(write).drop_last() =~= opened);
    if state.open is None {
        assert(opened.drop_last() =~= Seq::<ActionView>::empty());
    }
    assert(written_end(opened, offset) == Some(offset));
    assert(written_end(opened.push(write), offset) == Some(offset + chunk));
    if ready.taken(chunk).at_boundary() {
        assert(part.drop_last() =~= opened.push(write));
    }
}

/// Actions in a row write one range behind the other.
proof fn lemma_written_end_joins(first: Seq<ActionView>, second: Seq<ActionView>, offset: nat)
    requires
        written_end(first, offset) is Some,
    ensures
        written_end(first + second, offset) == written_end(
            second,
            written_end(first, offset)->0,
        ),
    decreases second.len(),
{
    if second.len() == 0 {
        assert(first + second =~= first);
    } else {
        assert((first + second).drop_last() =~= first + second.drop_last());
        lemma_written_end_joins(first, second.drop_last(), offset);
    }
}

/// A single file is never split: it takes every frame, and no other file begins.
pub proof fn law_single_files_take_everything(state: OutputView, frames: nat)
    requires
        state.wf(),
        state.target is SingleFile,
        state.open is Some,
        state.total + frames <= u64::MAX,
    ensures
        state.after(frames).files == state.files,
        state.after(frames).open == Some(
            OpenView { frames: state.open->0.frames + frames, ..state.open->0 },
        ),
{
    if frames > 0 {
        let next = state.written(frames);
        assert(state.chunk(frames) == frames);
        assert(next.after(0) == next);
    }
}

/// A finalized file tells what was encoded: its frames, its format, and its
/// place. Only a clip keeps a source for the editor, from its first frame to its
/// last one.
pub proof fn law_files_tell_what_was_encoded(
    state: OutputView,
    kind: SavedFileKind,
    place: path::PathView,
)
    requires
        state.open is Some,
    ensures
        ({
            let after = state.closed(kind, place);
            let file = after.files.last();
            &&& after.files.drop_last() == state.files
            &&& after.open is None
            &&& file.path == place && file.kind == kind
            &&& file.frames == state.open->0.frames
            &&& file.sample_rate == state.sample_rate && file.bitrate == state.bitrate
            &&& kind != SavedFileKind::Clip ==> file.edit_source is None
            &&& kind == SavedFileKind::Clip && state.cache is Some && state.open->0.pcm_path is Some
                ==> {
                &&& file.edit_source is Some
                &&& file.edit_source->0.start_frame == 0
                &&& file.edit_source->0.end_frame == state.open->0.frames
                &&& file.edit_source->0.pcm_path == state.open->0.pcm_path->0
            }
            &&& after.total == state.total
        }),
{
    let after = state.closed(kind, place);
    assert(after.files.drop_last() =~= state.files);
}

/// Whether the parts of a session without clips have their numbers: the files in
/// order from one on, and the open part behind them.
pub open spec fn is_numbered(state: OutputView, directory: path::PathView) -> bool {
    let count = state.files.len();
    &&& state.target is Session
    &&& state.target->directory@ == directory
    &&& forall|i: int|
        0 <= i < count ==> (#[trigger] state.files[i]).path == directory.child(
            session::part_name((i + 1) as nat),
        )
    &&& state.open is Some ==> state.open->0.path == directory.child(session::part_name(count + 1))
    &&& state.next_part == count + (if state.open is Some {
        2nat
    } else {
        1
    })
}

/// The parts of a session are numbered in order from one on, without a gap, as
/// long as frames come.
pub proof fn law_parts_are_numbered(state: OutputView, directory: path::PathView, frames: nat)
    requires
        state.wf(),
        is_numbered(state, directory),
    ensures
        is_numbered(state.after(frames), directory),
    decreases frames,
{
    if frames > 0 && state.open_problem() is None {
        let ready = state.ready();
        let chunk = ready.chunk(frames);
        assert(is_numbered(ready, directory));
        if chunk > 0 && ready.total + chunk <= u64::MAX {
            let next = ready.written(chunk);
            lemma_written_is_well_formed(ready, chunk);
            assert(is_numbered(next, directory)) by {
                let taken = ready.taken(chunk);
                if taken.at_boundary() {
                    assert forall|i: int| 0 <= i < next.files.len() implies (
                    #[trigger] next.files[i]).path == directory.child(
                        session::part_name((i + 1) as nat),
                    ) by {
                        if i < ready.files.len() {
                            assert(next.files[i] == ready.files[i]);
                        }
                    }
                }
            }
            law_parts_are_numbered(next, directory, (frames - chunk) as nat);
        }
    }
}

/// A recording starts with its first destination open and empty. A session
/// starts with its first part and has a limit; a single file has none.
pub proof fn law_recordings_start_empty(
    target: OutputTarget,
    cache: Option<FilePath>,
    first: FirstPart,
    profile: audio::Profile,
    manager: OutputManager,
)
    requires
        call_ensures(first_part, (&target, &cache), first),
        call_ensures(OutputManager::open, (&target, cache, first, profile), manager),
    ensures
        manager@.wf(),
        manager@.files.len() == 0 && manager@.total == 0,
        manager@.open is Some && manager@.open->0.frames == 0,
        manager@.sample_rate == profile.sample_rate && manager@.bitrate == profile.bitrate,
        target is Session ==> is_numbered(manager@, target->directory@) && !first.replace,
        target is SingleFile ==> manager@.open->0.path == target->path@ && first.replace
            == target->replace && manager@.limit is None,
        cache is None ==> manager@.open->0.pcm_path is None,
        cache is Some ==> manager@.open->0.pcm_path == Some(
            cache->0@.child("part-"@ + text::padded(1, 6) + ".pcm"@),
        ),
{
}

/// A part closes with exactly the frames of its length: at its sample rate, the
/// length times the rate, rounded down, and at least one.
pub proof fn law_session_limits_are_whole_frames(
    target: OutputTarget,
    cache: Option<FilePath>,
    first: FirstPart,
    profile: audio::Profile,
    manager: OutputManager,
)
    requires
        target is Session,
        call_ensures(OutputManager::open, (&target, cache, first, profile), manager),
        target->segment_duration@ * profile.sample_rate <= u64::MAX * 1_000_000_000,
    ensures
        manager@.limit is Some,
        manager@.limit->0 >= 1,
        manager@.limit->0 == 1 || manager@.limit->0 * 1_000_000_000 <= target->segment_duration@
            * profile.sample_rate,
        target->segment_duration@ * profile.sample_rate < (manager@.limit->0 + 1) * 1_000_000_000,
{
    let product = target->segment_duration@ * profile.sample_rate as nat;
    vstd::arithmetic::div_mod::lemma_fundamental_div_mod(product as int, 1_000_000_000);
}

/// The end of a recording finalizes the open part when it holds audio, and
/// leaves no file for an empty one. No frame is lost.
pub proof fn law_the_end_keeps_all_audio(state: OutputView)
    requires
        state.wf(),
    ensures
        ({
            let end = state.finished();
            &&& end.open is None
            &&& frames_in(end.files) == state.total
            &&& state.open is Some && state.open->0.frames > 0 ==> end.files.len()
                == state.files.len() + 1 && end.files.last().frames == state.open->0.frames
                && end.files.last().path == state.open->0.path && end.files.last().kind == (
            if state.target is Session {
                SavedFileKind::Part
            } else {
                SavedFileKind::Recording
            })
            &&& state.open is None || state.open->0.frames == 0 ==> end.files == state.files
        }),
{
    if state.open is Some && state.open->0.frames > 0 {
        let end = state.finished();
        assert(end.files.drop_last() =~= state.files);
    }
}

/// A later part must have the format of the first one.
pub proof fn law_the_format_never_changes(
    manager: OutputManager,
    profile: audio::Profile,
    result: Result<(), OutputError>,
)
    requires
        call_ensures(OutputManager::check_profile, (&manager, profile), result),
    ensures
        result is Ok <==> profile.sample_rate == manager@.sample_rate && profile.bitrate
            == manager@.bitrate,
{
}

/// When a part is full, or a clip closed it, the next frame opens the next part
/// of the session before it is written.
pub proof fn law_closed_parts_are_followed_by_the_next(
    state: OutputView,
    offset: nat,
    frames: nat,
)
    requires
        state.wf(),
        state.target is Session,
        state.open is None,
        state.next_part < u32::MAX,
        frames > 0,
    ensures
        ({
            let first = state.actions(offset, frames)[0];
            &&& state.actions(offset, frames).len() > 1
            &&& first is Open
            &&& first->path == state.target->directory@.child(
                "part-"@ + text::padded(state.next_part, 3) + ".mp3"@,
            )
            &&& state.cache is None ==> first->pcm_path is None
            &&& state.cache is Some ==> first->pcm_path == Some(
                state.cache->0.child("part-"@ + text::padded(state.next_part, 6) + ".pcm"@),
            )
        }),
{
}

/// A block of stereo frames is encoded completely: the total grows by its frames,
/// and the recording still holds every frame in its files and its open part. A
/// block with half a frame is refused and changes nothing.
pub proof fn law_written_blocks_are_counted(
    manager: &mut OutputManager,
    samples: usize,
    actions: Vec<OutputAction>,
)
    requires
        call_ensures(OutputManager::write, (manager, samples), actions),
        old(manager)@.wf(),
        old(manager)@.target is SingleFile,
        old(manager)@.open is Some,
        old(manager)@.total + samples / 2 <= u64::MAX,
    ensures
        samples % 2 == 1 ==> final(manager)@ == old(manager)@ && actions@.len() == 1
            && actions@[0] is Fail,
        samples % 2 == 0 ==> final(manager)@.files == old(manager)@.files,
        samples % 2 == 0 ==> final(manager)@.open is Some && final(manager)@.open->0.frames
            == old(manager)@.open->0.frames + samples / 2,
{
    if samples % 2 == 0 {
        law_single_files_take_everything(old(manager)@, samples as nat / 2);
    } else {
        assert(action_views(actions@).len() == actions@.len());
        assert(action_views(actions@)[0] == actions@[0]@);
    }
}

/// A clip is saved only from a session with audio. It holds the frames of the open
/// part, carries the name that was asked for, and can be edited where there is a
/// cache; the next frame opens the next part.
pub proof fn law_saved_clips_hold_the_open_part<F: Fn(&FilePath) -> bool>(
    manager: &mut OutputManager,
    stem: &str,
    in_use: F,
    outcome: ClipOutcome,
)
    requires
        call_ensures(OutputManager::save_clip::<F>, (manager, stem, in_use), outcome),
    ensures
        outcome is Saved ==> {
            let before = old(manager)@;
            let after = final(manager)@;
            let file = outcome->file@;
            &&& before.target is Session
            &&& before.open is Some && before.open->0.frames > 0
            &&& file.frames == before.open->0.frames
            &&& file.kind == SavedFileKind::Clip
            &&& after.open is None
            &&& after.files == before.files.push(file)
            &&& after.total == before.total && after.next_part == before.next_part
            &&& outcome->rename_to matches Some(destination) ==> file.path == destination@
            &&& outcome->rename_to is None ==> file.path == before.open->0.path
        },
        old(manager)@.target is SingleFile ==> outcome is Ignored && final(manager)@
            == old(manager)@,
        outcome is NeedsAudio ==> final(manager)@ == old(manager)@,
{
}

/// Every failure has its own message.
pub proof fn law_output_failures_are_told(error: OutputError, message: &'static str)
    requires
        call_ensures(OutputError::message, (&error,), message),
    ensures
        error == OutputError::OddBlock ==> message@
            == "internal encoder error: stereo sample block has an odd length"@,
        error == OutputError::SingleFileClosed ==> message@
            == "the single-file MP3 writer was already closed"@,
        error == OutputError::TooManyParts ==> message@ == "the session has too many parts"@,
        error == OutputError::TimelineTooLong ==> message@ == "encoded audio timeline is too long"@,
        error == OutputError::ProfileChanged ==> message@
            == "the Windows MP3 profile changed during the recording session"@,
{
}

/// The end of a recording finalizes the open part when it holds audio, and removes
/// an empty one. The summary counts every frame.
pub proof fn law_finished_recordings_are_counted(
    manager: OutputManager,
    result: (FinalWork, RecordingSummary),
)
    requires
        manager@.wf(),
        call_ensures(OutputManager::finish, (manager,), result),
    ensures
        manager@.open is None ==> result.0 is Nothing,
        manager@.open is Some && manager@.open->0.frames == 0 ==> result.0 is Discard,
        manager@.open is Some && manager@.open->0.frames > 0 ==> result.0 is Close
            && result.0->Close_0@.frames == manager@.open->0.frames && result.0->Close_0@.path
            == manager@.open->0.path,
        result.1.frames == manager@.total,
        result.1.frames == frames_in(file_views(result.1.files@)),
        result.1.sample_rate == manager@.sample_rate && result.1.bitrate == manager@.bitrate,
        manager@.target matches OutputTarget::Session { directory, .. } ==> result.1.output@
            == directory@,
        manager@.target matches OutputTarget::SingleFile { path, .. } ==> result.1.output@ == path@,
{
}

/// The temporary files of the parts are named by a number of at least six digits.
pub proof fn law_cached_parts_are_named_by_their_number(cache: FilePath, index: u32, path: FilePath)
    requires
        call_ensures(clip_cache_part_path, (&cache, index), path),
    ensures
        path@ == cache@.child("part-"@ + text::padded(index as nat, 6) + ".pcm"@),
{
}

/// Frames fail when there is no part for them: a closed single file takes none,
/// and a session has no part behind its last number. An open part takes frames
/// until the count of all frames no longer fits 64 bits.
pub proof fn law_failed_writes_have_a_reason(state: OutputView, offset: nat, frames: nat)
    requires
        state.wf(),
        frames > 0,
    ensures
        ({
            let actions = state.actions(offset, frames);
            &&& state.open is None && state.target is SingleFile ==> actions == seq![
                ActionView::Fail(OutputError::SingleFileClosed),
            ] && state.after(frames) == state
            &&& state.open is None && state.target is Session && state.next_part == 0xFFFF_FFFF
                ==> actions == seq![ActionView::Fail(OutputError::TooManyParts)]
                && state.after(frames) == state
            &&& state.open is Some && state.limit is None && state.total + frames
                > 0xFFFF_FFFF_FFFF_FFFF ==> actions == seq![
                ActionView::Write { start: offset, end: offset + frames },
                ActionView::Fail(OutputError::TimelineTooLong),
            ]
            &&& state.open is Some && state.limit is None && state.total + frames
                <= 0xFFFF_FFFF_FFFF_FFFF ==> actions == seq![
                ActionView::Write { start: offset, end: offset + frames },
            ]
        }),
{
    if state.open is Some && state.limit is None {
        let ready = state.ready();
        let chunk = ready.chunk(frames);
        assert(chunk == frames);
        assert(!ready.taken(chunk).at_boundary());
        let write = ActionView::Write { start: offset, end: offset + frames };
        let none = Seq::<ActionView>::empty();
        if state.total + frames > u64::MAX {
            assert(state.part_actions(offset, frames) =~= seq![
                write,
                ActionView::Fail(OutputError::TimelineTooLong),
            ]);
        } else {
            assert(state.part_actions(offset, frames) =~= seq![write]);
            let next = ready.written(chunk);
            assert(next.actions(offset + chunk, 0) =~= none);
        }
        assert(state.actions(offset, frames) =~= state.part_actions(offset, frames));
    }
}

} // verus!
