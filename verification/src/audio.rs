//! Audio capture contracts shared by the capture thread and the interface.
//!
//! The capture thread owns the audio device and the encoder. It sends bounded
//! display events to the main thread. The main thread sends rare control
//! commands in the other direction. The rules of the capture thread live in
//! the submodules: [`wave`] reads device formats, [`output`] splits the
//! encoded timeline into files, and [`capture`] decides what happens to every
//! packet.
pub mod capture;
pub mod convert;
pub mod converter;
pub mod output;
pub mod turns;
pub mod wave;

use vstd::prelude::*;

use crate::binary64;
use crate::binary64::checked_frame_duration;
use crate::path;
use crate::path::FilePath;
use crate::sample::Sample;
use crate::session::OutputTarget;
use crate::time::Duration;

verus! {

/// Contains the settings of one recording process.
#[derive(Debug)]
pub struct RecordConfig {
    /// Selects one file or a rotating session directory.
    pub target: OutputTarget,
    /// Requests an MP3 bit rate in bits per second.
    pub bitrate: u32,
    /// Stops capture after this encoded duration when set.
    pub duration: Option<Duration>,
}

/// A low-frequency command from the interface to the capture thread.
#[derive(Debug)]
pub enum AudioCommand {
    /// Finalize the current session part under the provided validated stem.
    SaveClip(String),
}

/// Identifies why the recorder finalized an MP3 file.
#[derive(Clone, Copy, Debug, PartialEq, Eq, Structural)]
pub enum SavedFileKind {
    /// The user requested one explicit output file.
    Recording,
    /// The automatic session boundary finalized this numbered part.
    Part,
    /// The user named and finalized the current session part.
    Clip,
}

/// Points to temporary PCM data that can rebuild a named clip.
#[derive(Debug)]
pub struct ClipEditSource {
    /// Temporary stereo 16-bit PCM file in little-endian order.
    pub pcm_path: FilePath,
    /// First source frame in the current clip.
    pub start_frame: u64,
    /// Exclusive last source frame in the current clip.
    pub end_frame: u64,
}

/// The mathematical value of a [`ClipEditSource`].
pub struct EditSourceView {
    pub pcm_path: path::PathView,
    pub start_frame: nat,
    pub end_frame: nat,
}

impl View for ClipEditSource {
    type V = EditSourceView;

    open spec fn view(&self) -> EditSourceView {
        EditSourceView {
            pcm_path: self.pcm_path@,
            start_frame: self.start_frame as nat,
            end_frame: self.end_frame as nat,
        }
    }
}

impl Clone for ClipEditSource {
    fn clone(&self) -> (copy: ClipEditSource)
        ensures
            copy == *self,
    {
        ClipEditSource {
            pcm_path: self.pcm_path.clone(),
            start_frame: self.start_frame,
            end_frame: self.end_frame,
        }
    }
}

/// Describes one complete MP3 file from the active process.
#[derive(Debug)]
pub struct SavedFile {
    /// Final path of the MP3 file.
    pub path: FilePath,
    /// Reason that the recorder finalized the file.
    pub kind: SavedFileKind,
    /// Encoded sample rate in frames per second.
    pub sample_rate: u32,
    /// Encoded MP3 bit rate in bits per second.
    pub bitrate: u32,
    /// Number of stereo frames in this file.
    pub frames: u64,
    /// Temporary edit source for a named clip.
    pub edit_source: Option<ClipEditSource>,
}

/// The mathematical value of a [`SavedFile`].
pub struct SavedView {
    pub path: path::PathView,
    pub kind: SavedFileKind,
    pub sample_rate: nat,
    pub bitrate: nat,
    pub frames: nat,
    pub edit_source: Option<EditSourceView>,
}

impl View for SavedFile {
    type V = SavedView;

    open spec fn view(&self) -> SavedView {
        SavedView {
            path: self.path@,
            kind: self.kind,
            sample_rate: self.sample_rate as nat,
            bitrate: self.bitrate as nat,
            frames: self.frames as nat,
            edit_source: match self.edit_source {
                Some(source) => Some(source@),
                None => None,
            },
        }
    }
}

impl Clone for SavedFile {
    fn clone(&self) -> (copy: SavedFile)
        ensures
            copy == *self,
    {
        SavedFile {
            path: self.path.clone(),
            kind: self.kind,
            sample_rate: self.sample_rate,
            bitrate: self.bitrate,
            frames: self.frames,
            edit_source: match &self.edit_source {
                Some(source) => Some(source.clone()),
                None => None,
            },
        }
    }
}

impl SavedFile {
    /// Returns the encoded duration of this file.
    #[must_use]
    pub fn duration(&self) -> (duration: Duration)
        requires
            binary64::frames_have_length(self.frames as nat, self.sample_rate as nat),
        ensures
            duration@ == binary64::frame_nanoseconds(self.frames as nat, self.sample_rate as nat),
    {
        match checked_frame_duration(self.frames, self.sample_rate) {
            Some(duration) => duration,
            None => Duration::zero(),
        }
    }
}

/// Reports capture state and bounded visualization samples to the interface.
#[derive(Debug)]
pub enum AudioEvent {
    /// Reports that capture and the first MP3 writer have started.
    Started {
        /// Actual MP3 sample rate in frames per second.
        sample_rate: u32,
        /// Actual MP3 bit rate in bits per second.
        bitrate: u32,
        /// Number of output channels.
        channels: u16,
    },
    /// Provides a small stereo block for the terminal display.
    Samples {
        /// Normalized left-channel samples.
        left: Vec<Sample>,
        /// Normalized right-channel samples.
        right: Vec<Sample>,
        /// Total frames encoded in the process so far.
        encoded_frames: u64,
    },
    /// Reports one MP3 after all file handles are closed.
    Saved(SavedFile),
    /// Provides a short message for the current interface.
    Notice(String),
    /// Reports that capture has stopped and final encoding is in progress.
    Finalizing,
}

/// Summarizes all files that one recorder process created.
#[derive(Debug)]
pub struct RecordingSummary {
    /// File or session directory shown as the main output.
    pub output: FilePath,
    /// Actual MP3 sample rate in frames per second.
    pub sample_rate: u32,
    /// Actual MP3 bit rate in bits per second.
    pub bitrate: u32,
    /// Total number of encoded stereo frames.
    pub frames: u64,
    /// Finalized MP3 files in capture order.
    pub files: Vec<SavedFile>,
}

impl RecordingSummary {
    /// Returns the total encoded duration across all files.
    #[must_use]
    pub fn duration(&self) -> (duration: Duration)
        requires
            binary64::frames_have_length(self.frames as nat, self.sample_rate as nat),
        ensures
            duration@ == binary64::frame_nanoseconds(self.frames as nat, self.sample_rate as nat),
    {
        match checked_frame_duration(self.frames, self.sample_rate) {
            Some(duration) => duration,
            None => Duration::zero(),
        }
    }
}

/// An MP3 output format that the encoder offers.
#[derive(Clone, Copy, Debug, PartialEq, Eq, Structural)]
pub struct Profile {
    /// Sample rate in frames per second.
    pub sample_rate: u32,
    /// Bit rate in bits per second.
    pub bitrate: u32,
}

/// Why this computer cannot record.
#[derive(Clone, Copy, Debug, PartialEq, Eq, Structural)]
pub enum SupportError {
    /// The platform has no capture backend.
    NoBackend,
    /// The encoder selected an output format without a rate.
    InvalidProfile,
}

impl SupportError {
    /// The message for the user.
    pub open spec fn text(self) -> Seq<char> {
        match self {
            SupportError::NoBackend =>
                "record currently captures system audio on Windows 10/11 only; Linux and macOS backends are planned"@,
            SupportError::InvalidProfile =>
                "the Windows MP3 encoder returned an invalid output format"@,
        }
    }

    /// Returns the message for the user.
    pub fn message(&self) -> (message: &'static str)
        ensures
            message@ == self.text(),
    {
        match self {
            SupportError::NoBackend =>
                "record currently captures system audio on Windows 10/11 only; Linux and macOS backends are planned",
            SupportError::InvalidProfile =>
                "the Windows MP3 encoder returned an invalid output format",
        }
    }
}

/// Decides whether this computer can record, from the output format that its
/// encoder selected. A platform without a capture backend selects none.
pub fn check_support(selected: Option<Profile>) -> (result: Result<(), SupportError>)
    ensures
        result is Ok <==> selected is Some && selected->0.sample_rate != 0 && selected->0.bitrate
            != 0,
        result is Err ==> result->Err_0 == (if selected is None {
            SupportError::NoBackend
        } else {
            SupportError::InvalidProfile
        }),
{
    match selected {
        None => Err(SupportError::NoBackend),
        Some(profile) => if profile.sample_rate == 0 || profile.bitrate == 0 {
            Err(SupportError::InvalidProfile)
        } else {
            Ok(())
        },
    }
}

/// The length of a file or of a recording is its frames over its rate, to the
/// nearest nanosecond and up to the rounding of double precision.
pub proof fn law_lengths_are_frames_over_the_rate(
    file: SavedFile,
    summary: RecordingSummary,
    duration: Duration,
    total: Duration,
)
    requires
        binary64::frames_have_length(file.frames as nat, file.sample_rate as nat),
        file.sample_rate > 0,
        summary.frames == file.frames,
        summary.sample_rate == file.sample_rate,
        call_ensures(SavedFile::duration, (&file,), duration),
        call_ensures(RecordingSummary::duration, (&summary,), total),
    ensures
        total@ == duration@,
        2 * (duration@ * file.sample_rate) * binary64::error::parts() <= 2 * (file.frames as nat
            * 1_000_000_000) * (binary64::error::parts() + 5) + file.sample_rate
            * binary64::error::parts(),
        2 * (file.frames as nat * 1_000_000_000) * binary64::error::parts() <= (2 * duration@ + 1)
            * file.sample_rate * (binary64::error::parts() + 5),
{
    binary64::error::lemma_frame_lengths_are_close(file.frames as nat, file.sample_rate as nat);
}

/// A computer can record when its encoder selected a format with two rates.
pub proof fn law_support_needs_a_format(selected: Option<Profile>, result: Result<(), SupportError>)
    requires
        call_ensures(check_support, (selected,), result),
    ensures
        selected is None ==> result == Err::<(), SupportError>(SupportError::NoBackend),
        selected matches Some(profile) ==> (result is Ok <==> profile.sample_rate > 0
            && profile.bitrate > 0),
        selected is Some && result is Err ==> result->Err_0 == SupportError::InvalidProfile,
{
}

} // verus!
