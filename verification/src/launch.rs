//! Start of a recording: destinations and typed options.
//!
//! The process entry point reads the arguments, the clock, and the file system.
//! This module decides what they mean: which file or directory a recording may
//! use, and which settings a screen recording gets. Where a rule depends on
//! what is on disk, the caller hands over a [`Disk`].
use vstd::prelude::*;

use crate::cli::{Cli, VideoOptions};
use crate::disk;
use crate::disk::{CreateError, CreateOutcome, Disk, DiskStep};
use crate::path;
use crate::path::FilePath;
use crate::session;
use crate::session::{
    create_session_directory, mp3_output_path, NameError, NameProblem, OutputTarget,
};
use crate::text;
use crate::time::Duration;
use crate::video;
use crate::video::{
    canvas_presets, CanvasSize, CropRect, FitMode, MonitorInfo, VideoConfig, VideoSource,
};

verus! {

/// A wall-clock time.
#[derive(Clone, Copy, Debug, PartialEq, Eq, Structural)]
pub struct CalendarTime {
    /// Year.
    pub year: u16,
    /// Month, starting at one.
    pub month: u16,
    /// Day of the month, starting at one.
    pub day: u16,
    /// Hour of the day.
    pub hour: u16,
    /// Minute of the hour.
    pub minute: u16,
    /// Second of the minute.
    pub second: u16,
}

impl CalendarTime {
    /// The date and the time of day in digits.
    pub open spec fn digits(self) -> Seq<char> {
        text::padded(self.year as nat, 4) + text::padded(self.month as nat, 2) + text::padded(
            self.day as nat,
            2,
        ) + "-"@ + text::padded(self.hour as nat, 2) + text::padded(self.minute as nat, 2)
            + text::padded(self.second as nat, 2)
    }
}

/// Returns the local timestamp for default names.
pub fn local_timestamp(time: &CalendarTime) -> (timestamp: String)
    ensures
        timestamp@ == time.digits(),
{
    let mut timestamp = String::new();
    text::push_padded(&mut timestamp, time.year as u64, 4);
    text::push_padded(&mut timestamp, time.month as u64, 2);
    text::push_padded(&mut timestamp, time.day as u64, 2);
    timestamp.append("-");
    text::push_padded(&mut timestamp, time.hour as u64, 2);
    text::push_padded(&mut timestamp, time.minute as u64, 2);
    text::push_padded(&mut timestamp, time.second as u64, 2);
    proof {
        assert(timestamp@ =~= time.digits());
    }
    timestamp
}

/// Returns the timestamp of a platform without a local calendar: the seconds
/// since the Unix epoch.
pub fn portable_timestamp(seconds: u64) -> (timestamp: String)
    ensures
        timestamp@ == text::decimal(seconds as nat),
{
    let mut timestamp = String::new();
    text::push_decimal(&mut timestamp, seconds);
    proof {
        assert(timestamp@ =~= text::decimal(seconds as nat));
    }
    timestamp
}

/// Says why a recording cannot have the requested destination.
#[derive(Debug)]
pub enum TargetError {
    /// The name of an audio file is not acceptable.
    InvalidName {
        /// Requested location.
        requested: FilePath,
        /// Rule that the name breaks.
        problem: NameProblem,
    },
    /// A video file has an extension other than `.mp4`.
    OtherExtension,
    /// The destination exists and may not be replaced.
    InUse {
        /// Destination of the recording.
        output: FilePath,
    },
    /// The folder of the destination cannot be created.
    NoFolder {
        /// Destination of the recording.
        output: FilePath,
    },
    /// No session directory can be created.
    NoSession {
        /// Location of the sessions.
        parent: FilePath,
        /// Reason that the attempts ended.
        cause: CreateError,
    },
}

/// The folder of a location as it is shown: without its last separator, unless
/// it is the root of a drive or of the file system.
pub open spec fn folder_text(place: path::PathView) -> Seq<char> {
    let folder = place.folder;
    if folder.len() < 2 || folder.last() != place.separator || folder[folder.len() - 2] == ':' {
        folder
    } else {
        folder.drop_last()
    }
}

/// Returns the folder of a location as it is shown.
fn shown_folder(place: &FilePath) -> (folder: String)
    ensures
        folder@ == folder_text(place@),
{
    let letters = text::characters(place.folder.as_str());
    let length: usize = letters.len();
    if length < 2 || letters[length - 1] != place.separator || letters[length - 2] == ':' {
        return place.folder.clone();
    }
    let front = text::slice(&letters, 0, length - 1);
    proof {
        assert(front@ =~= letters@.drop_last());
    }
    text::string_of(&front)
}

impl TargetError {
    /// The sentence for the user.
    pub open spec fn sentence(self) -> Seq<char> {
        match self {
            TargetError::InvalidName { requested, .. } => "invalid output path "@
                + requested@.text(),
            TargetError::OtherExtension =>
                "the video output file must use the .mp4 extension"@,
            TargetError::InUse { output } => "refusing to overwrite "@ + output@.text()
                + "; choose another path or pass --force"@,
            TargetError::NoFolder { output } => "could not create output directory "@
                + folder_text(output@),
            TargetError::NoSession { parent, .. } => "could not create a recording session in "@
                + parent@.text(),
        }
    }

    /// The reason behind the sentence, where a rule of this library gives it. The
    /// other reasons come from the file system.
    pub open spec fn reason(self) -> Option<Seq<char>> {
        match self {
            TargetError::InvalidName { problem, .. } => Some(session::problem_text(problem)),
            TargetError::NoSession { cause: CreateError::NoFreeName, .. } => Some(
                "could not choose a unique recording directory"@,
            ),
            _ => None,
        }
    }

    /// Returns the reason behind the sentence, where a rule of this library gives
    /// it.
    pub fn cause(&self) -> (cause: Option<&'static str>)
        ensures
            cause is Some == self.reason() is Some,
            cause is Some ==> cause->0@ == self.reason()->0,
    {
        match self {
            TargetError::InvalidName { problem, .. } => Some(NameError::new(*problem).message()),
            TargetError::NoSession { cause: CreateError::NoFreeName, .. } => Some(
                "could not choose a unique recording directory",
            ),
            _ => None,
        }
    }

    /// Returns the sentence for the user.
    pub fn message(&self) -> (message: String)
        ensures
            message@ == self.sentence(),
    {
        match self {
            TargetError::InvalidName { requested, .. } => {
                let mut message = String::from_str("invalid output path ");
                message.append(requested.text().as_str());
                message
            },
            TargetError::OtherExtension => String::from_str(
                "the video output file must use the .mp4 extension",
            ),
            TargetError::InUse { output } => {
                let mut message = String::from_str("refusing to overwrite ");
                message.append(output.text().as_str());
                message.append("; choose another path or pass --force");
                message
            },
            TargetError::NoFolder { output } => {
                let mut message = String::from_str("could not create output directory ");
                message.append(shown_folder(output).as_str());
                message
            },
            TargetError::NoSession { parent, .. } => {
                let mut message = String::from_str("could not create a recording session in ");
                message.append(parent.text().as_str());
                message
            },
        }
    }
}

/// The question whether a file may be replaced. Nobody asks it with `force`.
pub open spec fn unused(output: path::PathView, force: bool) -> Seq<DiskStep> {
    if force {
        Seq::empty()
    } else {
        seq![DiskStep::InUse(output, false)]
    }
}

/// Whether exactly these calls prepare a destination, or find this obstacle.
///
/// An existing file needs `force`, and nothing is created in front of it. A
/// destination below a folder needs the folder.
pub open spec fn is_prepared(
    steps: Seq<DiskStep>,
    output: path::PathView,
    force: bool,
    obstacle: Option<TargetError>,
) -> bool {
    match obstacle {
        Some(TargetError::InUse { output: place }) => {
            &&& !force
            &&& place@ == output
            &&& steps == seq![DiskStep::InUse(output, true)]
        },
        Some(TargetError::NoFolder { output: place }) => {
            &&& place@ == output
            &&& output.folder.len() > 0
            &&& steps == unused(output, force).push(DiskStep::MadeFolder(output, false))
        },
        Some(_) => false,
        None => steps == (if output.folder.len() > 0 {
            unused(output, force).push(DiskStep::MadeFolder(output, true))
        } else {
            unused(output, force)
        }),
    }
}

/// Checks that a file may be created, and creates its folder.
fn prepare<
    E: Fn(&FilePath) -> bool,
    M: Fn(&FilePath) -> bool,
    C: Fn(&FilePath) -> CreateOutcome,
>(output: &FilePath, force: bool, disk: &mut Disk<E, M, C>) -> (obstacle: Option<TargetError>)
    requires
        old(disk).wf(),
    ensures
        final(disk).continues(*old(disk)),
        is_prepared(
            final(disk).since(*old(disk)),
            output@,
            force,
            obstacle,
        ),
{
    let ghost before = disk.steps();
    if !force {
        let exists = disk.in_use(output);
        if exists {
            proof {
                assert(disk.steps().skip(before.len() as int) =~= seq![
                    DiskStep::InUse(output@, true),
                ]);
            }
            return Some(TargetError::InUse { output: output.clone() });
        }
    }
    proof {
        assert(disk.steps() =~= before + unused(output@, force));
        assert(disk.steps().skip(before.len() as int) =~= unused(output@, force));
    }
    if output.folder.as_str().unicode_len() > 0 {
        let made = disk.make_folder(output);
        proof {
            let all = unused(output@, force).push(DiskStep::MadeFolder(output@, made));
            assert(disk.steps() =~= before + all);
            assert(disk.steps().skip(before.len() as int) =~= all);
        }
        if !made {
            return Some(TargetError::NoFolder { output: output.clone() });
        }
    }
    None
}

/// Whether a result is the explicit audio file, or what stands in its way, and
/// exactly these calls lead to it. No session directory is created for it.
pub open spec fn is_file_target(
    steps: Seq<DiskStep>,
    requested: path::PathView,
    force: bool,
    result: Result<OutputTarget, TargetError>,
) -> bool {
    match session::mp3_destination(requested) {
        Err(problem) => {
            &&& steps == Seq::<DiskStep>::empty()
            &&& result is Err
            &&& result->Err_0 is InvalidName
            &&& result->Err_0->requested@ == requested
            &&& result->Err_0->problem == problem
        },
        Ok(output) => match result {
            Ok(OutputTarget::SingleFile { path, replace }) => path@ == output && replace == force
                && is_prepared(steps, output, force, None),
            Ok(_) => false,
            Err(error) => is_prepared(steps, output, force, Some(error)),
        },
    }
}

/// An explicit file creates no session directory, and a refused one leaves the
/// disk as it is.
pub proof fn law_explicit_files_create_no_session(
    steps: Seq<DiskStep>,
    requested: path::PathView,
    force: bool,
    result: Result<OutputTarget, TargetError>,
)
    requires
        is_file_target(steps, requested, force, result),
    ensures
        forall|i: int| 0 <= i < steps.len() ==> !((#[trigger] steps[i]) is Attempted),
        result is Err && (result->Err_0 is InUse || result->Err_0 is InvalidName) ==> forall|i: int|
            0 <= i < steps.len() ==> (#[trigger] steps[i]) is InUse,
{
}

/// Whether a result is a new session directory, or the failed attempt at one,
/// and exactly these calls lead to it.
pub open spec fn is_session_target(
    steps: Seq<DiskStep>,
    segment_duration: Duration,
    parent: path::PathView,
    timestamp: Seq<char>,
    result: Result<OutputTarget, TargetError>,
) -> bool {
    let places = session::session_places(parent, timestamp);
    match result {
        Ok(OutputTarget::Session { directory, segment_duration: length }) => length
            == segment_duration && disk::is_search(
            steps,
            places,
            session::SUFFIX_END as nat,
            Ok(directory@),
        ),
        Ok(_) => false,
        Err(TargetError::NoSession { parent: place, cause }) => place@ == parent
            && disk::is_search(steps, places, session::SUFFIX_END as nat, Err(cause)),
        Err(_) => false,
    }
}

/// Validates one explicit file or creates one unique session directory.
pub fn output_target<
    E: Fn(&FilePath) -> bool,
    M: Fn(&FilePath) -> bool,
    C: Fn(&FilePath) -> CreateOutcome,
>(
    requested: Option<&FilePath>,
    force: bool,
    segment_duration: Duration,
    session_parent: &FilePath,
    timestamp: &str,
    disk: &mut Disk<E, M, C>,
) -> (result: Result<OutputTarget, TargetError>)
    requires
        old(disk).wf(),
    ensures
        final(disk).continues(*old(disk)),
        requested is Some ==> is_file_target(
            final(disk).since(*old(disk)),
            requested->0@,
            force,
            result,
        ),
        requested is None ==> is_session_target(
            final(disk).since(*old(disk)),
            segment_duration,
            session_parent@,
            timestamp@,
            result,
        ),
{
    match requested {
        Some(path) => {
            let output = match mp3_output_path(path) {
                Ok(output) => output,
                Err(error) => {
                    proof {
                        let count = disk.steps().len() as int;
                        assert(disk.steps().skip(count) =~= Seq::<DiskStep>::empty());
                        assert(disk.steps() + Seq::<DiskStep>::empty() =~= disk.steps());
                    }
                    return Err(
                        TargetError::InvalidName {
                            requested: path.clone(),
                            problem: error.problem,
                        },
                    );
                },
            };
            match prepare(&output, force, disk) {
                Some(error) => Err(error),
                None => Ok(OutputTarget::SingleFile { path: output, replace: force }),
            }
        },
        None => match create_session_directory(session_parent, timestamp, disk) {
            Ok(directory) => Ok(OutputTarget::Session { directory, segment_duration }),
            Err(cause) => Err(TargetError::NoSession { parent: session_parent.clone(), cause }),
        },
    }
}

/// The destination for a requested video location. A name without an extension
/// gets `.mp4`, and a location that names no file stays as it is. Another
/// extension is not accepted.
pub open spec fn mp4_destination(requested: path::PathView) -> Option<path::PathView> {
    match path::extension_of(requested.name) {
        None => if path::names_file(requested.name) {
            Some(path::PathView { name: requested.name + ".mp4"@, ..requested })
        } else {
            Some(requested)
        },
        Some(extension) => if text::same_ignoring_case(extension, "mp4"@) {
            Some(requested)
        } else {
            None
        },
    }
}

/// Every accepted video file has the extension `.mp4`, in small or capital
/// letters, and stays in its folder.
pub proof fn law_video_files_are_mp4_files(requested: path::PathView)
    requires
        path::names_file(requested.name),
    ensures
        mp4_destination(requested) matches Some(output) ==> {
            &&& path::extension_of(output.name) is Some
            &&& text::same_ignoring_case(path::extension_of(output.name)->0, "mp4"@)
            &&& output.folder == requested.folder
        },
{
    if path::extension_of(requested.name) is None {
        reveal_strlit(".mp4");
        reveal_strlit("mp4");
        assert(requested.name + ".mp4"@ =~= requested.name.push('.') + "mp4"@);
        path::lemma_added_extension(requested.name, "mp4"@);
    }
}

/// The dated video file in the current directory.
pub open spec fn dated_video(timestamp: Seq<char>, separator: char) -> path::PathView {
    path::PathView {
        folder: Seq::empty(),
        name: "recording-"@ + timestamp + ".mp4"@,
        separator,
    }
}

/// Whether a result is the explicit video file, or what stands in its way, and
/// exactly these calls lead to it.
pub open spec fn is_video_target(
    steps: Seq<DiskStep>,
    requested: path::PathView,
    force: bool,
    result: Result<FilePath, TargetError>,
) -> bool {
    match mp4_destination(requested) {
        None => {
            &&& steps == Seq::<DiskStep>::empty()
            &&& result == Err::<FilePath, TargetError>(TargetError::OtherExtension)
        },
        Some(output) => match result {
            Ok(place) => place@ == output && is_prepared(steps, output, force, None),
            Err(error) => is_prepared(steps, output, force, Some(error)),
        },
    }
}

/// Adds an MP4 extension or rejects a different extension.
fn mp4_output_path(requested: &FilePath) -> (output: Option<FilePath>)
    ensures
        output is Some == mp4_destination(requested@) is Some,
        output is Some ==> output->0@ == mp4_destination(requested@)->0,
{
    match requested.extension() {
        None => {
            let mut output = requested.clone();
            if requested.names_file() {
                output.name.append(".mp4");
            }
            Some(output)
        },
        Some(extension) => {
            let letters = text::characters(extension.as_str());
            if text::spells_ignoring_case(&letters, "mp4") {
                Some(requested.clone())
            } else {
                None
            }
        },
    }
}

/// Validates the explicit video file, or names a dated one.
pub fn video_target<
    E: Fn(&FilePath) -> bool,
    M: Fn(&FilePath) -> bool,
    C: Fn(&FilePath) -> CreateOutcome,
>(
    requested: Option<&FilePath>,
    force: bool,
    timestamp: &str,
    separator: char,
    disk: &mut Disk<E, M, C>,
) -> (result: Result<FilePath, TargetError>)
    requires
        old(disk).wf(),
    ensures
        final(disk).continues(*old(disk)),
        requested is Some ==> is_video_target(
            final(disk).since(*old(disk)),
            requested->0@,
            force,
            result,
        ),
        requested is None ==> result is Ok && result->Ok_0@ == dated_video(timestamp@, separator)
            && final(disk).steps() == old(disk).steps(),
{
    proof {
        let count = disk.steps().len() as int;
        assert(disk.steps().skip(count) =~= Seq::<DiskStep>::empty());
        assert(disk.steps() + Seq::<DiskStep>::empty() =~= disk.steps());
    }
    match requested {
        Some(path) => {
            let output = match mp4_output_path(path) {
                Some(output) => output,
                None => {
                    return Err(TargetError::OtherExtension);
                },
            };
            match prepare(&output, force, disk) {
                Some(error) => Err(error),
                None => Ok(output),
            }
        },
        None => {
            let mut name = String::from_str("recording-");
            name.append(timestamp);
            name.append(".mp4");
            proof {
                reveal_strlit("");
                assert(""@ =~= Seq::<char>::empty());
            }
            Ok(FilePath::new("", name.as_str(), separator))
        },
    }
}

/// Says why a typed option of a screen recording is not usable.
#[derive(Clone, Copy, Debug, PartialEq, Eq, Structural)]
pub enum OptionProblem {
    /// The fit mode does not exist.
    Fit,
    /// The canvas width is not a number.
    CanvasWidth,
    /// The canvas height is not a number.
    CanvasHeight,
    /// The canvas has no area.
    EmptyCanvas,
    /// The canvas is neither a preset nor a size.
    Canvas,
    /// The crop does not have four numbers.
    CropShape,
    /// The left edge of the crop is not a number.
    CropLeft,
    /// The top edge of the crop is not a number.
    CropTop,
    /// The crop width is not a number.
    CropWidth,
    /// The crop height is not a number.
    CropHeight,
    /// The crop has no area.
    EmptyCrop,
    /// No attached monitor is the primary one.
    NoPrimaryMonitor,
    /// The monitor is not a number.
    Monitor,
}

/// Describes a rejected option.
#[derive(Debug)]
pub struct OptionError {
    /// Reason for the rejection.
    pub problem: OptionProblem,
    /// Text of the option as it was typed.
    pub value: String,
}

/// The sentence for a rejected option.
pub open spec fn option_text(problem: OptionProblem, value: Seq<char>) -> Seq<char> {
    match problem {
        OptionProblem::Fit => "invalid fit "@ + value
            + "; use contain, cover, stretch, or native"@,
        OptionProblem::CanvasWidth => "invalid canvas width in "@ + value,
        OptionProblem::CanvasHeight => "invalid canvas height in "@ + value,
        OptionProblem::EmptyCanvas => "canvas dimensions must be greater than zero"@,
        OptionProblem::Canvas => "invalid canvas "@ + value + "; use WxH or a preset name"@,
        OptionProblem::CropShape => "crop must be LEFT,TOP,WIDTH,HEIGHT"@,
        OptionProblem::CropLeft => "invalid crop left in "@ + value,
        OptionProblem::CropTop => "invalid crop top in "@ + value,
        OptionProblem::CropWidth => "invalid crop width in "@ + value,
        OptionProblem::CropHeight => "invalid crop height in "@ + value,
        OptionProblem::EmptyCrop => "crop dimensions must be greater than zero"@,
        OptionProblem::NoPrimaryMonitor => "no primary monitor found"@,
        OptionProblem::Monitor => "invalid monitor "@ + value
            + "; use a monitor index, primary, or list"@,
    }
}

/// Writes one text in front of an option.
fn in_front(front: &str, value: &str) -> (whole: String)
    ensures
        whole@ == front@ + value@,
{
    let mut whole = String::from_str(front);
    whole.append(value);
    whole
}

impl OptionError {
    /// Returns the sentence for the user.
    pub fn message(&self) -> (message: String)
        ensures
            message@ == option_text(self.problem, self.value@),
    {
        let value = self.value.as_str();
        match self.problem {
            OptionProblem::Fit => {
                let mut message = in_front("invalid fit ", value);
                message.append("; use contain, cover, stretch, or native");
                message
            },
            OptionProblem::CanvasWidth => in_front("invalid canvas width in ", value),
            OptionProblem::CanvasHeight => in_front("invalid canvas height in ", value),
            OptionProblem::EmptyCanvas => String::from_str(
                "canvas dimensions must be greater than zero",
            ),
            OptionProblem::Canvas => {
                let mut message = in_front("invalid canvas ", value);
                message.append("; use WxH or a preset name");
                message
            },
            OptionProblem::CropShape => String::from_str("crop must be LEFT,TOP,WIDTH,HEIGHT"),
            OptionProblem::CropLeft => in_front("invalid crop left in ", value),
            OptionProblem::CropTop => in_front("invalid crop top in ", value),
            OptionProblem::CropWidth => in_front("invalid crop width in ", value),
            OptionProblem::CropHeight => in_front("invalid crop height in ", value),
            OptionProblem::EmptyCrop => String::from_str(
                "crop dimensions must be greater than zero",
            ),
            OptionProblem::NoPrimaryMonitor => String::from_str("no primary monitor found"),
            OptionProblem::Monitor => {
                let mut message = in_front("invalid monitor ", value);
                message.append("; use a monitor index, primary, or list");
                message
            },
        }
    }
}

/// Whether a parser result is the expected value, or names the problem and the
/// text of the option.
pub open spec fn is_option<T>(
    result: Result<T, OptionError>,
    expected: Result<T, OptionProblem>,
    value: Seq<char>,
) -> bool {
    match expected {
        Ok(parsed) => result == Ok::<T, OptionError>(parsed),
        Err(problem) => result is Err && result->Err_0.problem == problem
            && result->Err_0.value@ == value,
    }
}

/// Rejects an option.
fn rejected(problem: OptionProblem, value: &str) -> (error: OptionError)
    ensures
        error.problem == problem,
        error.value@ == value@,
{
    OptionError { problem, value: String::from_str(value) }
}

/// The fit mode with this name.
pub open spec fn fit_of(name: Seq<char>) -> Result<FitMode, OptionProblem> {
    if text::same_ignoring_case(name, "contain"@) {
        Ok(FitMode::Contain)
    } else if text::same_ignoring_case(name, "cover"@) {
        Ok(FitMode::Cover)
    } else if text::same_ignoring_case(name, "stretch"@) {
        Ok(FitMode::Stretch)
    } else if text::same_ignoring_case(name, "native"@) {
        Ok(FitMode::Native)
    } else {
        Err(OptionProblem::Fit)
    }
}

/// Parses the name of a fit mode.
pub fn parse_fit(name: &str) -> (result: Result<FitMode, OptionError>)
    ensures
        is_option(result, fit_of(name@), name@),
{
    let letters = text::characters(name);
    if text::spells_ignoring_case(&letters, "contain") {
        Ok(FitMode::Contain)
    } else if text::spells_ignoring_case(&letters, "cover") {
        Ok(FitMode::Cover)
    } else if text::spells_ignoring_case(&letters, "stretch") {
        Ok(FitMode::Stretch)
    } else if text::spells_ignoring_case(&letters, "native") {
        Ok(FitMode::Native)
    } else {
        Err(rejected(OptionProblem::Fit, name))
    }
}

/// The size of the first preset with this name, starting at a position.
pub open spec fn preset_from(name: Seq<char>, position: int) -> Option<CanvasSize>
    decreases video::presets().len() - position,
{
    if position < 0 || position >= video::presets().len() {
        None
    } else if text::same_ignoring_case(name, video::presets()[position].0) {
        Some(video::presets()[position].1)
    } else {
        preset_from(name, position + 1)
    }
}

/// The canvas for an option: a preset, or a width and a height around an `x`.
pub open spec fn canvas_of(value: Seq<char>) -> Result<CanvasSize, OptionProblem> {
    match preset_from(value, 0) {
        Some(size) => Ok(size),
        None => match text::first_position(value, 'x') {
            None => Err(OptionProblem::Canvas),
            Some(middle) => match (
                text::whole_number(value.take(middle as int)),
                text::whole_number(value.skip(middle as int + 1)),
            ) {
                (None, _) => Err(OptionProblem::CanvasWidth),
                (_, None) => Err(OptionProblem::CanvasHeight),
                (Some(width), Some(height)) => if width == 0 || height == 0 {
                    Err(OptionProblem::EmptyCanvas)
                } else {
                    Ok(CanvasSize { width: width as u32, height: height as u32 })
                },
            },
        },
    }
}

/// Finds the preset with this name.
fn find_preset(letters: &Vec<char>) -> (size: Option<CanvasSize>)
    ensures
        size == preset_from(letters@, 0),
{
    let known = canvas_presets();
    let mut position: usize = 0;
    while position < known.len()
        invariant
            position <= known.len(),
            known@.len() == video::presets().len(),
            forall|i: int|
                0 <= i < known@.len() ==> (#[trigger] known@[i]).0@ == video::presets()[i].0
                    && known@[i].1 == video::presets()[i].1,
            preset_from(letters@, 0) == preset_from(letters@, position as int),
        decreases known.len() - position,
    {
        if text::spells_ignoring_case(letters, known[position].0) {
            return Some(known[position].1);
        }
        position += 1;
    }
    None
}

/// Parses a canvas option.
pub fn parse_canvas(value: &str) -> (result: Result<CanvasSize, OptionError>)
    ensures
        is_option(result, canvas_of(value@), value@),
{
    let letters = text::characters(value);
    match find_preset(&letters) {
        Some(size) => {
            return Ok(size);
        },
        None => {},
    }
    let middle: usize = match text::find_first(&letters, 'x') {
        Some(middle) => middle,
        None => {
            return Err(rejected(OptionProblem::Canvas, value));
        },
    };
    let before = text::slice(&letters, 0, middle);
    let after = text::slice(&letters, middle + 1, letters.len());
    proof {
        assert(before@ =~= letters@.take(middle as int));
        assert(after@ =~= letters@.skip(middle + 1));
    }
    let width: u32 = match text::read_whole_number(&before) {
        Some(width) => width,
        None => {
            return Err(rejected(OptionProblem::CanvasWidth, value));
        },
    };
    let height: u32 = match text::read_whole_number(&after) {
        Some(height) => height,
        None => {
            return Err(rejected(OptionProblem::CanvasHeight, value));
        },
    };
    if width == 0 || height == 0 {
        return Err(rejected(OptionProblem::EmptyCanvas, value));
    }
    Ok(CanvasSize { width, height })
}

/// The crop for an option: four numbers between commas, with any white space.
pub open spec fn crop_of(value: Seq<char>) -> Result<CropRect, OptionProblem> {
    let parts = text::pieces(value, ',');
    if parts.len() != 4 {
        Err(OptionProblem::CropShape)
    } else {
        match (
            text::whole_number(text::trim(parts[0])),
            text::whole_number(text::trim(parts[1])),
            text::whole_number(text::trim(parts[2])),
            text::whole_number(text::trim(parts[3])),
        ) {
            (None, _, _, _) => Err(OptionProblem::CropLeft),
            (_, None, _, _) => Err(OptionProblem::CropTop),
            (_, _, None, _) => Err(OptionProblem::CropWidth),
            (_, _, _, None) => Err(OptionProblem::CropHeight),
            (Some(left), Some(top), Some(width), Some(height)) => if width == 0 || height == 0 {
                Err(OptionProblem::EmptyCrop)
            } else {
                Ok(
                    CropRect {
                        left: left as u32,
                        top: top as u32,
                        width: width as u32,
                        height: height as u32,
                    },
                )
            },
        }
    }
}

/// Reads one number of a crop, with any white space around it.
fn read_edge(part: &Vec<char>) -> (number: Option<u32>)
    ensures
        number is Some == text::whole_number(text::trim(part@)) is Some,
        number is Some ==> number->0 == text::whole_number(text::trim(part@))->0,
{
    text::read_whole_number(&text::trimmed(part))
}

/// Parses a crop option.
pub fn parse_crop(value: &str) -> (result: Result<CropRect, OptionError>)
    ensures
        is_option(result, crop_of(value@), value@),
{
    let letters = text::characters(value);
    let parts = text::split(&letters, ',');
    proof {
        assert(text::piece_views(parts@).len() == parts@.len());
    }
    if parts.len() != 4 {
        return Err(rejected(OptionProblem::CropShape, value));
    }
    proof {
        assert(text::piece_views(parts@)[0] == parts@[0]@);
        assert(text::piece_views(parts@)[1] == parts@[1]@);
        assert(text::piece_views(parts@)[2] == parts@[2]@);
        assert(text::piece_views(parts@)[3] == parts@[3]@);
    }
    let left: u32 = match read_edge(&parts[0]) {
        Some(left) => left,
        None => {
            return Err(rejected(OptionProblem::CropLeft, value));
        },
    };
    let top: u32 = match read_edge(&parts[1]) {
        Some(top) => top,
        None => {
            return Err(rejected(OptionProblem::CropTop, value));
        },
    };
    let width: u32 = match read_edge(&parts[2]) {
        Some(width) => width,
        None => {
            return Err(rejected(OptionProblem::CropWidth, value));
        },
    };
    let height: u32 = match read_edge(&parts[3]) {
        Some(height) => height,
        None => {
            return Err(rejected(OptionProblem::CropHeight, value));
        },
    };
    if width == 0 || height == 0 {
        return Err(rejected(OptionProblem::EmptyCrop, value));
    }
    Ok(CropRect { left, top, width, height })
}

/// What the monitor option asks for.
#[derive(Clone, Copy, Debug, PartialEq, Eq, Structural)]
pub enum MonitorChoice {
    /// Record the monitor with this index.
    Index(u32),
    /// Print the attached monitors.
    List,
}

/// The index of the first primary monitor.
pub open spec fn primary_index(monitors: Seq<MonitorInfo>) -> Option<u32>
    decreases monitors.len(),
{
    if monitors.len() == 0 {
        None
    } else {
        match primary_index(monitors.drop_last()) {
            Some(index) => Some(index),
            None => if monitors.last().primary {
                Some(monitors.last().index)
            } else {
                None
            },
        }
    }
}

/// The choice for a monitor option.
pub open spec fn monitor_of(monitors: Seq<MonitorInfo>, value: Seq<char>) -> Result<
    MonitorChoice,
    OptionProblem,
> {
    if text::same_ignoring_case(value, "primary"@) {
        match primary_index(monitors) {
            Some(index) => Ok(MonitorChoice::Index(index)),
            None => Err(OptionProblem::NoPrimaryMonitor),
        }
    } else if text::same_ignoring_case(value, "list"@) {
        Ok(MonitorChoice::List)
    } else {
        match text::whole_number(value) {
            Some(index) => Ok(MonitorChoice::Index(index as u32)),
            None => Err(OptionProblem::Monitor),
        }
    }
}

/// Finds the first primary monitor.
fn find_primary(monitors: &Vec<MonitorInfo>) -> (index: Option<u32>)
    ensures
        index == primary_index(monitors@),
{
    let mut found: Option<u32> = None;
    let mut position: usize = 0;
    proof {
        assert(monitors@.take(0) =~= Seq::<MonitorInfo>::empty());
    }
    while position < monitors.len()
        invariant
            position <= monitors.len(),
            found == primary_index(monitors@.take(position as int)),
        decreases monitors.len() - position,
    {
        proof {
            assert(monitors@.take(position + 1).drop_last() =~= monitors@.take(position as int));
        }
        if found.is_none() && monitors[position].primary {
            found = Some(monitors[position].index);
        }
        position += 1;
    }
    proof {
        assert(monitors@.take(monitors@.len() as int) =~= monitors@);
    }
    found
}

/// Parses a monitor option.
pub fn parse_monitor(monitors: &Vec<MonitorInfo>, value: &str) -> (result: Result<
    MonitorChoice,
    OptionError,
>)
    ensures
        is_option(result, monitor_of(monitors@, value@), value@),
{
    let letters = text::characters(value);
    if text::spells_ignoring_case(&letters, "primary") {
        match find_primary(monitors) {
            Some(index) => Ok(MonitorChoice::Index(index)),
            None => Err(rejected(OptionProblem::NoPrimaryMonitor, value)),
        }
    } else if text::spells_ignoring_case(&letters, "list") {
        Ok(MonitorChoice::List)
    } else {
        match text::read_whole_number(&letters) {
            Some(index) => Ok(MonitorChoice::Index(index)),
            None => Err(rejected(OptionProblem::Monitor, value)),
        }
    }
}

/// The line for one attached monitor.
pub open spec fn monitor_text(monitor: MonitorInfo) -> Seq<char> {
    "  "@ + text::decimal(monitor.index as nat) + " "@ + monitor.name@ + " "@ + text::decimal(
        monitor.width as nat,
    ) + "x"@ + text::decimal(monitor.height as nat) + if monitor.primary {
        " (primary)"@
    } else {
        ""@
    }
}

/// Writes the line for one attached monitor.
pub fn monitor_line(monitor: &MonitorInfo) -> (line: String)
    ensures
        line@ == monitor_text(*monitor),
{
    let mut line = String::from_str("  ");
    text::push_decimal(&mut line, monitor.index as u64);
    line.append(" ");
    line.append(monitor.name.as_str());
    line.append(" ");
    text::push_decimal(&mut line, monitor.width as u64);
    line.append("x");
    text::push_decimal(&mut line, monitor.height as u64);
    if monitor.primary {
        line.append(" (primary)");
    } else {
        line.append("");
    }
    line
}

/// The picture settings of a screen recording.
#[derive(Clone, Copy, Debug, PartialEq, Eq, Structural)]
pub struct PictureSettings {
    /// Fit mode for the encoded canvas.
    pub fit: FitMode,
    /// Encoded canvas. A zero size uses the size of the source.
    pub canvas: CanvasSize,
    /// Crop rectangle. A zero size uses the full source.
    pub crop: CropRect,
}

/// The canvas of an optional option.
pub open spec fn canvas_setting(value: Option<String>) -> Result<CanvasSize, OptionProblem> {
    match value {
        Some(value) => canvas_of(value@),
        None => Ok(CanvasSize { width: 0, height: 0 }),
    }
}

/// The crop of an optional option.
pub open spec fn crop_setting(value: Option<String>) -> Result<CropRect, OptionProblem> {
    match value {
        Some(value) => crop_of(value@),
        None => Ok(CropRect { left: 0, top: 0, width: 0, height: 0 }),
    }
}

/// Whether a result holds the picture settings, or the problem of the first
/// option that is not usable: the fit mode, then the canvas, then the crop.
pub open spec fn are_settings(
    options: VideoOptions,
    result: Result<PictureSettings, OptionError>,
) -> bool {
    match (fit_of(options.fit@), canvas_setting(options.canvas), crop_setting(options.crop)) {
        (Err(problem), _, _) => is_option(result, Err(problem), options.fit@),
        (_, Err(problem), _) => is_option(result, Err(problem), options.canvas->0@),
        (_, _, Err(problem)) => is_option(result, Err(problem), options.crop->0@),
        (Ok(fit), Ok(canvas), Ok(crop)) => result == Ok::<PictureSettings, OptionError>(
            (PictureSettings { fit, canvas, crop }),
        ),
    }
}

/// Parses the fit mode, the canvas, and the crop.
pub fn picture_settings(options: &VideoOptions) -> (result: Result<PictureSettings, OptionError>)
    ensures
        are_settings(*options, result),
{
    let fit = match parse_fit(options.fit.as_str()) {
        Ok(fit) => fit,
        Err(error) => {
            return Err(error);
        },
    };
    let canvas = match &options.canvas {
        None => CanvasSize { width: 0, height: 0 },
        Some(value) => match parse_canvas(value.as_str()) {
            Ok(canvas) => canvas,
            Err(error) => {
                return Err(error);
            },
        },
    };
    let crop = match &options.crop {
        None => CropRect { left: 0, top: 0, width: 0, height: 0 },
        Some(value) => match parse_crop(value.as_str()) {
            Ok(crop) => crop,
            Err(error) => {
                return Err(error);
            },
        },
    };
    Ok(PictureSettings { fit, canvas, crop })
}

/// A frame rate within the supported range.
pub open spec fn supported_fps(fps: int) -> int {
    if fps < 1 {
        1
    } else if fps > 60 {
        60
    } else {
        fps
    }
}

/// Builds the settings of the video thread. The first monitor is the primary
/// source of the capture device.
pub fn video_config(
    options: &VideoOptions,
    settings: &PictureSettings,
    monitor_index: u32,
    output: FilePath,
) -> (config: VideoConfig)
    requires
        options.video_bitrate * 1_000_000 <= u32::MAX,
        options.audio_bitrate * 1_000 <= u32::MAX,
    ensures
        config.source == (if monitor_index == 0 {
            VideoSource::Primary
        } else {
            VideoSource::Index(monitor_index)
        }),
        config.crop == settings.crop,
        config.fit == settings.fit,
        config.canvas_width == settings.canvas.width,
        config.canvas_height == settings.canvas.height,
        config.video_bitrate == options.video_bitrate * 1_000_000,
        config.audio_bitrate == options.audio_bitrate * 1_000,
        config.fps == supported_fps(options.fps as int),
        config.duration == options.duration,
        config.output == output,
        config.replace == options.force,
{
    VideoConfig {
        source: if monitor_index == 0 {
            VideoSource::Primary
        } else {
            VideoSource::Index(monitor_index)
        },
        crop: settings.crop,
        fit: settings.fit,
        canvas_width: settings.canvas.width,
        canvas_height: settings.canvas.height,
        video_bitrate: options.video_bitrate * 1_000_000,
        audio_bitrate: options.audio_bitrate * 1_000,
        fps: if options.fps < 1 {
            1
        } else if options.fps > 60 {
            60
        } else {
            options.fps
        },
        duration: options.duration,
        output,
        replace: options.force,
    }
}

/// The text of each line.
pub open spec fn texts(lines: Seq<String>) -> Seq<Seq<char>> {
    lines.map_values(|line: String| line@)
}

/// Adds one line.
fn add_line(lines: &mut Vec<String>, line: String)
    ensures
        texts(final(lines)@) == texts(old(lines)@).push(line@),
{
    lines.push(line);
    proof {
        assert(texts(lines@) =~= texts(old(lines)@).push(line@));
    }
}

/// A crop rectangle in numbers. One that starts in the upper left corner is not
/// told apart from the full frame.
pub open spec fn crop_text(crop: CropRect) -> Seq<char> {
    if crop.left > 0 || crop.top > 0 {
        text::decimal(crop.left as nat) + ","@ + text::decimal(crop.top as nat) + ","@
            + text::decimal(crop.width as nat) + ","@ + text::decimal(crop.height as nat)
    } else {
        "full frame"@
    }
}

/// A canvas in numbers.
pub open spec fn canvas_text(canvas: CanvasSize) -> Seq<char> {
    if canvas.width > 0 {
        text::decimal(canvas.width as nat) + "x"@ + text::decimal(canvas.height as nat)
    } else {
        "native source size"@
    }
}

/// The settings that a screen recording shows before it starts.
pub open spec fn setup_texts(options: VideoOptions, settings: PictureSettings) -> Seq<Seq<char>> {
    seq![
        "record video setup"@,
        "  monitor: "@ + options.monitor@,
        "  fit: "@ + settings.fit.name(),
        "  canvas: "@ + canvas_text(settings.canvas),
        "  crop: "@ + crop_text(settings.crop),
        "  fps: "@ + text::decimal(options.fps as nat),
        ""@,
        "Press Enter to start capture."@,
    ]
}

/// Writes the settings that a screen recording shows before it starts.
pub fn setup_lines(options: &VideoOptions, settings: &PictureSettings) -> (lines: Vec<String>)
    ensures
        texts(lines@) == setup_texts(*options, *settings),
{
    let mut lines: Vec<String> = Vec::new();
    let ghost empty = texts(lines@);
    add_line(&mut lines, String::from_str("record video setup"));
    add_line(&mut lines, in_front("  monitor: ", options.monitor.as_str()));
    add_line(&mut lines, in_front("  fit: ", settings.fit.label()));
    let mut canvas = String::from_str("  canvas: ");
    if settings.canvas.width > 0 {
        text::push_decimal(&mut canvas, settings.canvas.width as u64);
        canvas.append("x");
        text::push_decimal(&mut canvas, settings.canvas.height as u64);
    } else {
        canvas.append("native source size");
    }
    proof {
        assert(canvas@ =~= "  canvas: "@ + canvas_text(settings.canvas));
    }
    add_line(&mut lines, canvas);
    let crop = &settings.crop;
    let mut area = String::from_str("  crop: ");
    if crop.left > 0 || crop.top > 0 {
        text::push_decimal(&mut area, crop.left as u64);
        area.append(",");
        text::push_decimal(&mut area, crop.top as u64);
        area.append(",");
        text::push_decimal(&mut area, crop.width as u64);
        area.append(",");
        text::push_decimal(&mut area, crop.height as u64);
    } else {
        area.append("full frame");
    }
    proof {
        assert(area@ =~= "  crop: "@ + crop_text(settings.crop));
    }
    add_line(&mut lines, area);
    let mut rate = String::from_str("  fps: ");
    text::push_decimal(&mut rate, options.fps as u64);
    add_line(&mut lines, rate);
    add_line(&mut lines, String::from_str(""));
    add_line(&mut lines, String::from_str("Press Enter to start capture."));
    proof {
        assert(empty =~= Seq::<Seq<char>>::empty());
        assert(texts(lines@) =~= setup_texts(*options, *settings));
    }
    lines
}

/// Returns the settings of a command without arguments. The startup benchmark
/// asks for a probe, which runs without the interface.
pub fn bare_command(probe: bool) -> (cli: Cli)
    ensures
        cli.output is None,
        cli.bitrate == crate::cli::Bitrate::K320,
        cli.duration is None,
        cli.segment_duration@ == 600_000_000_000,
        cli.no_tui == probe,
        !cli.force,
        cli.startup_probe == probe,
        cli.command is None,
{
    let mut cli = Cli::default();
    if probe {
        cli.startup_probe = true;
        cli.no_tui = true;
    }
    cli
}

/// Reports whether a recording opens the full-screen interface. It needs a
/// terminal on both ends.
pub fn opens_interface(
    no_tui: bool,
    startup_probe: bool,
    output_is_terminal: bool,
    input_is_terminal: bool,
) -> (opens: bool)
    ensures
        opens == (!no_tui && !startup_probe && output_is_terminal && input_is_terminal),
{
    !no_tui && !startup_probe && output_is_terminal && input_is_terminal
}

/// Every fit mode is found under the name that it shows.
pub proof fn law_fit_names_are_accepted(mode: FitMode)
    ensures
        fit_of(mode.name()) == Ok::<FitMode, OptionProblem>(mode),
{
    reveal_strlit("contain");
    reveal_strlit("cover");
    reveal_strlit("stretch");
    reveal_strlit("native");
    assert(text::upper("contain"@).len() == 7);
    assert(text::upper("cover"@).len() == 5);
    assert(text::upper("stretch"@).len() == 7);
    assert(text::upper("native"@).len() == 6);
    assert(text::upper("contain"@)[0] == 'C');
    assert(text::upper("stretch"@)[0] == 'S');
}

/// No preset has a letter `x` in its name.
proof fn lemma_presets_have_no_x(value: Seq<char>, middle: int, position: int)
    requires
        0 <= middle < value.len(),
        value[middle] == 'x',
        0 <= position,
    ensures
        preset_from(value, position) is None,
    decreases video::presets().len() - position,
{
    if position < video::presets().len() {
        reveal_strlit("native");
        reveal_strlit("1080p");
        reveal_strlit("1440p");
        reveal_strlit("4k");
        reveal_strlit("720p");
        reveal_strlit("square");
        let name = video::presets()[position].0;
        assert(text::upper(value)[middle] == 'X');
        assert forall|i: int| 0 <= i < name.len() implies text::upper(name)[i] != 'X' by {
            assert(name[i] != 'x' && name[i] != 'X');
        }
        if text::upper(value) == text::upper(name) {
            assert(text::upper(value).len() == value.len());
            assert(text::upper(name).len() == name.len());
            assert(text::upper(name)[middle] != 'X');
        }
        lemma_presets_have_no_x(value, middle, position + 1);
    }
}

/// Every canvas size is accepted in the form in which it is shown.
pub proof fn law_canvas_sizes_are_accepted(canvas: CanvasSize)
    requires
        canvas.width > 0,
        canvas.height > 0,
    ensures
        canvas_of(canvas_text(canvas)) == Ok::<CanvasSize, OptionProblem>(canvas),
{
    reveal_strlit("x");
    let width = text::decimal(canvas.width as nat);
    let height = text::decimal(canvas.height as nat);
    let value = canvas_text(canvas);
    text::lemma_decimal_is_read(canvas.width as nat);
    text::lemma_decimal_is_read(canvas.height as nat);
    text::lemma_first_position(value, 'x');
    let middle = width.len() as int;
    assert(value[middle] == 'x');
    assert forall|i: int| 0 <= i < middle implies value[i] != 'x' by {
        assert(value[i] == width[i]);
    }
    lemma_presets_have_no_x(value, middle, 0);
    assert(value.take(middle) =~= width);
    assert(value.skip(middle + 1) =~= height);
}

/// A crop with an area is accepted in the form in which it is shown, unless it
/// starts in the upper left corner and is shown as the full frame.
pub proof fn law_crops_are_accepted(crop: CropRect)
    requires
        crop.left > 0 || crop.top > 0,
        crop.width > 0,
        crop.height > 0,
    ensures
        crop_of(crop_text(crop)) == Ok::<CropRect, OptionProblem>(crop),
{
    reveal_strlit(",");
    let left = text::decimal(crop.left as nat);
    let top = text::decimal(crop.top as nat);
    let width = text::decimal(crop.width as nat);
    let height = text::decimal(crop.height as nat);
    text::lemma_decimal_is_read(crop.left as nat);
    text::lemma_decimal_is_read(crop.top as nat);
    text::lemma_decimal_is_read(crop.width as nat);
    text::lemma_decimal_is_read(crop.height as nat);
    assert forall|i: int| 0 <= i < left.len() implies left[i] != ',' by {}
    assert forall|i: int| 0 <= i < top.len() implies top[i] != ',' by {}
    assert forall|i: int| 0 <= i < width.len() implies width[i] != ',' by {}
    assert forall|i: int| 0 <= i < height.len() implies height[i] != ',' by {}
    let two = left.push(',') + top;
    let three = two.push(',') + width;
    let four = three.push(',') + height;
    text::lemma_single_piece(left, ',');
    text::lemma_last_piece(left, ',', top);
    text::lemma_last_piece(two, ',', width);
    text::lemma_last_piece(three, ',', height);
    assert(crop_text(crop) =~= four);
    assert(text::pieces(four, ',') =~= seq![left, top, width, height]);
}

/// A timestamp has eight digits of the date, a hyphen, and six digits of the time
/// of day, from the year down to the second.
pub proof fn law_timestamps_run_from_year_to_second(time: CalendarTime, timestamp: String)
    requires
        call_ensures(local_timestamp, (&time,), timestamp),
        1_000 <= time.year <= 9_999,
        time.month <= 99 && time.day <= 99,
        time.hour <= 99 && time.minute <= 99 && time.second <= 99,
    ensures
        timestamp@.len() == 15,
        text::number_of(timestamp@.subrange(0, 4)) == time.year,
        text::number_of(timestamp@.subrange(4, 6)) == time.month,
        text::number_of(timestamp@.subrange(6, 8)) == time.day,
        timestamp@[8] == '-',
        text::number_of(timestamp@.subrange(9, 11)) == time.hour,
        text::number_of(timestamp@.subrange(11, 13)) == time.minute,
        text::number_of(timestamp@.subrange(13, 15)) == time.second,
{
    reveal_strlit("-");
    lemma_four_digits(time.year as nat);
    lemma_two_digits(time.month as nat);
    lemma_two_digits(time.day as nat);
    lemma_two_digits(time.hour as nat);
    lemma_two_digits(time.minute as nat);
    lemma_two_digits(time.second as nat);
    let stamp = timestamp@;
    assert(stamp.subrange(0, 4) =~= text::padded(time.year as nat, 4));
    assert(stamp.subrange(4, 6) =~= text::padded(time.month as nat, 2));
    assert(stamp.subrange(6, 8) =~= text::padded(time.day as nat, 2));
    assert(stamp.subrange(9, 11) =~= text::padded(time.hour as nat, 2));
    assert(stamp.subrange(11, 13) =~= text::padded(time.minute as nat, 2));
    assert(stamp.subrange(13, 15) =~= text::padded(time.second as nat, 2));
}

/// A number below a hundred has two digits when it is padded.
proof fn lemma_two_digits(number: nat)
    requires
        number <= 99,
    ensures
        text::padded(number, 2).len() == 2,
        text::number_of(text::padded(number, 2)) == number,
{
    reveal_with_fuel(text::decimal, 3);
    text::law_padded_numbers_have_their_width(number, 2);
}

/// A number of four digits has four when it is padded.
proof fn lemma_four_digits(number: nat)
    requires
        1_000 <= number <= 9_999,
    ensures
        text::padded(number, 4).len() == 4,
        text::number_of(text::padded(number, 4)) == number,
{
    reveal_with_fuel(text::decimal, 5);
    text::law_padded_numbers_have_their_width(number, 4);
}

/// Without a calendar the timestamp is the number of seconds.
pub proof fn law_portable_timestamps_count_seconds(seconds: u64, timestamp: String)
    requires
        call_ensures(portable_timestamp, (seconds,), timestamp),
    ensures
        text::all_digits(timestamp@),
        text::number_of(timestamp@) == seconds,
        seconds > 0 ==> timestamp@[0] != '0',
{
    text::lemma_decimal_spells(seconds as nat);
    text::law_decimals_have_no_leading_zero(seconds as nat);
}

/// A folder is shown without its last separator, but a root keeps it.
pub proof fn law_folders_are_shown_without_the_separator(place: path::PathView)
    ensures
        folder_text(place) == place.folder || folder_text(place).push(place.separator)
            == place.folder,
        place.folder == seq![place.separator] ==> folder_text(place) == place.folder,
        place.folder.len() >= 2 && place.folder.last() == place.separator && place.folder[
            place.folder.len() - 2] != ':' ==> folder_text(place).len() == place.folder.len() - 1,
        place.folder.len() >= 2 && place.folder[place.folder.len() - 2] == ':' ==> folder_text(place)
            == place.folder,
{
    if folder_text(place) != place.folder {
        assert(folder_text(place).push(place.separator) =~= place.folder);
    }
}

/// The reasons that come from a rule of the library are told, and no others.
pub proof fn law_causes_come_from_rules(error: TargetError, cause: Option<&'static str>)
    requires
        call_ensures(TargetError::cause, (&error,), cause),
    ensures
        cause is Some <==> error is InvalidName || (error is NoSession && error->cause
            == CreateError::NoFreeName),
{
}

/// With `force` nobody asks whether a file exists. Without it that is the first
/// question, and a file that exists ends everything. A destination in a folder
/// needs the folder, and one without needs nothing.
pub proof fn law_existing_files_need_force(
    steps: Seq<DiskStep>,
    output: path::PathView,
    force: bool,
    obstacle: Option<TargetError>,
)
    requires
        is_prepared(steps, output, force, obstacle),
    ensures
        force ==> forall|i: int| 0 <= i < steps.len() ==> !((#[trigger] steps[i]) is InUse),
        !force ==> steps.len() > 0 && steps[0] is InUse && steps[0]->InUse_0 == output,
        !force ==> (steps[0]->InUse_1 <==> obstacle is Some && obstacle->0 is InUse),
        !force && steps[0]->InUse_1 ==> steps.len() == 1,
        obstacle is None && output.folder.len() > 0 ==> steps.last() == DiskStep::MadeFolder(
            output,
            true,
        ),
        output.folder.len() == 0 ==> forall|i: int|
            0 <= i < steps.len() ==> !((#[trigger] steps[i]) is MadeFolder),
        obstacle is Some && obstacle->0 is NoFolder ==> steps.last() == DiskStep::MadeFolder(
            output,
            false,
        ),
{
}

/// An explicit file is an audio file, and nothing else becomes the target. Without
/// one the target is a new directory for the session, with the length of its parts.
pub proof fn law_targets_follow_the_request<
    E: Fn(&FilePath) -> bool,
    M: Fn(&FilePath) -> bool,
    C: Fn(&FilePath) -> CreateOutcome,
>(
    requested: Option<&FilePath>,
    force: bool,
    length: Duration,
    parent: &FilePath,
    timestamp: &str,
    disk: &mut Disk<E, M, C>,
    result: Result<OutputTarget, TargetError>,
)
    requires
        call_ensures(
            output_target::<E, M, C>,
            (requested, force, length, parent, timestamp, disk),
            result,
        ),
        result is Ok,
    ensures
        requested is Some <==> result->Ok_0 is SingleFile,
        requested is Some ==> {
            &&& session::mp3_destination(requested->0@) == Ok::<path::PathView, NameProblem>(
                result->Ok_0->path@,
            )
            &&& result->Ok_0->replace == force
        },
        requested is None ==> {
            let directory = result->Ok_0->directory@;
            let plain = parent@.child("recording-"@ + timestamp@);
            let steps = final(disk).since(*old(disk));
            &&& result->Ok_0->segment_duration == length
            &&& steps.last() == DiskStep::Attempted(directory, CreateOutcome::Created)
            &&& directory == plain || exists|number: nat|
                2 <= number < 10_000 && directory == parent@.child(
                    "recording-"@ + timestamp@ + "-"@ + #[trigger] text::decimal(number),
                )
        },
{
    if requested is None {
        let steps = final(disk).since(*old(disk));
        let last = (steps.len() - 1) as nat;
        let spelled = text::decimal(last);
        assert(result->Ok_0->directory@ == session::session_places(parent@, timestamp@)(last));
    }
}

/// A requested video file keeps its name, or gets `.mp4` where it has no dot. A
/// request for none gives a dated file in the current folder and touches nothing.
pub proof fn law_video_targets_follow_the_request<
    E: Fn(&FilePath) -> bool,
    M: Fn(&FilePath) -> bool,
    C: Fn(&FilePath) -> CreateOutcome,
>(
    requested: Option<&FilePath>,
    force: bool,
    timestamp: &str,
    separator: char,
    disk: &mut Disk<E, M, C>,
    result: Result<FilePath, TargetError>,
)
    requires
        call_ensures(
            video_target::<E, M, C>,
            (requested, force, timestamp, separator, disk),
            result,
        ),
    ensures
        requested is None ==> result is Ok && result->Ok_0@.text() == "recording-"@ + timestamp@
            + ".mp4"@ && final(disk).steps() == old(disk).steps(),
        requested is Some && result is Ok ==> {
            let name = requested->0.name@;
            &&& result->Ok_0.folder@ == requested->0.folder@
            &&& name.len() > 0 && !name.contains('.') ==> result->Ok_0.name@ == name + ".mp4"@
            &&& name.contains('.') && name[0] != '.' ==> result->Ok_0.name@ == name
        },
{
    if requested is None {
        let name = "recording-"@ + timestamp@ + ".mp4"@;
        assert(Seq::<char>::empty() + name =~= name);
    } else {
        let name = requested->0.name@;
        text::law_the_last_position_is_the_last(name, '.');
        if name.len() > 0 && !name.contains('.') {
            assert(name[0] != '.');
            assert(seq!['.'][0] == '.' && seq!['.', '.'][0] == '.');
        }
        if name.contains('.') && name[0] != '.' {
            assert(seq!['.', '.'][0] == '.');
            let dot = text::last_position(name, '.')->0;
            assert(dot > 0);
        }
    }
}

/// A video file with an extension is accepted exactly when the extension is `mp4`
/// in small or capital letters.
pub proof fn law_other_video_extensions_are_refused(
    requested: path::PathView,
    stem: Seq<char>,
    extension: Seq<char>,
)
    requires
        requested.name == stem.push('.') + extension,
        stem.len() > 0,
        extension.len() > 0,
        forall|i: int| 0 <= i < extension.len() ==> #[trigger] extension[i] != '.',
    ensures
        mp4_destination(requested) is Some <==> extension.len() == 3 && (extension[0] == 'm'
            || extension[0] == 'M') && (extension[1] == 'p' || extension[1] == 'P') && extension[2]
            == '4',
        mp4_destination(requested) is Some ==> mp4_destination(requested)->0 == requested,
{
    path::lemma_added_extension(stem, extension);
    reveal_strlit("mp4");
    text::law_case_is_the_only_difference(extension, "mp4"@);
    if extension.len() == 3 {
        assert(text::same_ignoring_case(extension, "mp4"@) ==> text::ascii_upper(extension[0])
            == text::ascii_upper("mp4"@[0]) && text::ascii_upper(extension[1])
            == text::ascii_upper("mp4"@[1]) && text::ascii_upper(extension[2])
            == text::ascii_upper("mp4"@[2]));
    }
}

/// The four fit modes are found under their names in small and capital letters,
/// and no other name is a fit mode.
pub proof fn law_fit_modes_have_four_names(name: &str, result: Result<FitMode, OptionError>)
    requires
        call_ensures(parse_fit, (name,), result),
    ensures
        name@ == "contain"@ || name@ == "CONTAIN"@ ==> result == Ok::<FitMode, OptionError>(
            FitMode::Contain,
        ),
        name@ == "cover"@ || name@ == "COVER"@ ==> result == Ok::<FitMode, OptionError>(
            FitMode::Cover,
        ),
        name@ == "stretch"@ || name@ == "STRETCH"@ ==> result == Ok::<FitMode, OptionError>(
            FitMode::Stretch,
        ),
        name@ == "native"@ || name@ == "NATIVE"@ ==> result == Ok::<FitMode, OptionError>(
            FitMode::Native,
        ),
        result is Ok ==> text::same_ignoring_case(name@, result->Ok_0.name()),
        result is Err ==> result->Err_0.problem == OptionProblem::Fit && result->Err_0.value@
            == name@,
{
    law_fit_names_are_accepted(FitMode::Contain);
    law_fit_names_are_accepted(FitMode::Cover);
    law_fit_names_are_accepted(FitMode::Stretch);
    law_fit_names_are_accepted(FitMode::Native);
    reveal_strlit("contain");
    reveal_strlit("CONTAIN");
    reveal_strlit("cover");
    reveal_strlit("COVER");
    reveal_strlit("stretch");
    reveal_strlit("STRETCH");
    reveal_strlit("native");
    reveal_strlit("NATIVE");
    assert(text::upper("CONTAIN"@) =~= text::upper("contain"@));
    assert(text::upper("COVER"@) =~= text::upper("cover"@));
    assert(text::upper("STRETCH"@) =~= text::upper("stretch"@));
    assert(text::upper("NATIVE"@) =~= text::upper("native"@));
}

/// A canvas of two numbers around an `x` is accepted exactly when both are above
/// zero; the width stands in front.
pub proof fn law_canvases_need_an_area(
    value: &str,
    width: u32,
    height: u32,
    result: Result<CanvasSize, OptionError>,
)
    requires
        call_ensures(parse_canvas, (value,), result),
        value@ == text::decimal(width as nat) + "x"@ + text::decimal(height as nat),
    ensures
        result is Ok <==> width > 0 && height > 0,
        result is Ok ==> result->Ok_0.width == width && result->Ok_0.height == height,
        result is Err ==> result->Err_0.problem == OptionProblem::EmptyCanvas,
{
    reveal_strlit("x");
    let before = text::decimal(width as nat);
    let after = text::decimal(height as nat);
    text::lemma_decimal_is_read(width as nat);
    text::lemma_decimal_is_read(height as nat);
    text::lemma_first_position(value@, 'x');
    let middle = before.len() as int;
    assert(value@[middle] == 'x');
    assert forall|i: int| 0 <= i < middle implies value@[i] != 'x' by {
        assert(value@[i] == before[i]);
    }
    lemma_presets_have_no_x(value@, middle, 0);
    assert(value@.take(middle) =~= before);
    assert(value@.skip(middle + 1) =~= after);
}

/// Every preset is found under its name.
pub proof fn law_presets_are_found(
    value: &str,
    position: int,
    result: Result<CanvasSize, OptionError>,
)
    requires
        call_ensures(parse_canvas, (value,), result),
        0 <= position < video::presets().len(),
        value@ == video::presets()[position].0,
    ensures
        result == Ok::<CanvasSize, OptionError>(video::presets()[position].1),
{
    reveal_strlit("native");
    reveal_strlit("1080p");
    reveal_strlit("1440p");
    reveal_strlit("4k");
    reveal_strlit("720p");
    reveal_strlit("square");
    reveal_with_fuel(preset_from, 7);
    assert(text::upper("native"@).len() == 6 && text::upper("native"@)[0] == 'N');
    assert(text::upper("square"@).len() == 6 && text::upper("square"@)[0] == 'S');
    assert(text::upper("1080p"@).len() == 5 && text::upper("1080p"@)[1] == '0');
    assert(text::upper("1440p"@).len() == 5 && text::upper("1440p"@)[1] == '4');
    assert(text::upper("4k"@).len() == 2);
    assert(text::upper("720p"@).len() == 4);
    assert(position == 0 || position == 1 || position == 2 || position == 3 || position == 4
        || position == 5);
}

/// A crop of four numbers is accepted exactly when its size is above zero. The
/// numbers are the left and the top edge, the width, and the height.
pub proof fn law_crops_need_an_area(
    value: &str,
    crop: CropRect,
    result: Result<CropRect, OptionError>,
)
    requires
        call_ensures(parse_crop, (value,), result),
        value@ == text::decimal(crop.left as nat) + ","@ + text::decimal(crop.top as nat) + ","@
            + text::decimal(crop.width as nat) + ","@ + text::decimal(crop.height as nat),
    ensures
        result is Ok <==> crop.width > 0 && crop.height > 0,
        result is Ok ==> result->Ok_0 == crop,
        result is Err ==> result->Err_0.problem == OptionProblem::EmptyCrop,
{
    reveal_strlit(",");
    let left = text::decimal(crop.left as nat);
    let top = text::decimal(crop.top as nat);
    let width = text::decimal(crop.width as nat);
    let height = text::decimal(crop.height as nat);
    text::lemma_decimal_is_read(crop.left as nat);
    text::lemma_decimal_is_read(crop.top as nat);
    text::lemma_decimal_is_read(crop.width as nat);
    text::lemma_decimal_is_read(crop.height as nat);
    assert forall|i: int| 0 <= i < left.len() implies left[i] != ',' by {}
    assert forall|i: int| 0 <= i < top.len() implies top[i] != ',' by {}
    assert forall|i: int| 0 <= i < width.len() implies width[i] != ',' by {}
    assert forall|i: int| 0 <= i < height.len() implies height[i] != ',' by {}
    let two = left.push(',') + top;
    let three = two.push(',') + width;
    let four = three.push(',') + height;
    text::lemma_single_piece(left, ',');
    text::lemma_last_piece(left, ',', top);
    text::lemma_last_piece(two, ',', width);
    text::lemma_last_piece(three, ',', height);
    assert(value@ =~= four);
    assert(text::pieces(four, ',') =~= seq![left, top, width, height]);
}

/// The primary monitor is the first one that says so.
pub proof fn law_the_first_primary_monitor_is_used(monitors: Seq<MonitorInfo>)
    ensures
        primary_index(monitors) is None <==> forall|i: int|
            0 <= i < monitors.len() ==> !(#[trigger] monitors[i]).primary,
        primary_index(monitors) matches Some(index) ==> exists|i: int|
            0 <= i < monitors.len() && (#[trigger] monitors[i]).primary && monitors[i].index
                == index && forall|j: int| 0 <= j < i ==> !(#[trigger] monitors[j]).primary,
    decreases monitors.len(),
{
    if monitors.len() > 0 {
        let front = monitors.drop_last();
        law_the_first_primary_monitor_is_used(front);
        let last = monitors.len() - 1;
        match primary_index(front) {
            Some(index) => {
                let i = choose|i: int|
                    0 <= i < front.len() && (#[trigger] front[i]).primary && front[i].index == index
                        && forall|j: int| 0 <= j < i ==> !(#[trigger] front[j]).primary;
                assert(monitors[i] == front[i]);
                assert forall|j: int| 0 <= j < i implies !(#[trigger] monitors[j]).primary by {
                    assert(monitors[j] == front[j]);
                }
            },
            None => {
                assert forall|j: int| 0 <= j < last implies !(#[trigger] monitors[j]).primary by {
                    assert(monitors[j] == front[j]);
                }
                if monitors.last().primary {
                    assert(monitors[last].primary);
                } else {
                    assert forall|j: int| 0 <= j < monitors.len() implies !(
                    #[trigger] monitors[j]).primary by {
                        if j == last {
                            assert(monitors[j] == monitors.last());
                        }
                    }
                }
            },
        }
    }
}

/// A number chooses the monitor with that index, `list` prints the monitors, and
/// `primary` chooses the primary one.
pub proof fn law_monitors_are_chosen(
    monitors: Vec<MonitorInfo>,
    value: &str,
    index: u32,
    result: Result<MonitorChoice, OptionError>,
)
    requires
        call_ensures(parse_monitor, (&monitors, value), result),
    ensures
        value@ == text::decimal(index as nat) ==> result == Ok::<MonitorChoice, OptionError>(
            MonitorChoice::Index(index),
        ),
        value@ == "list"@ ==> result == Ok::<MonitorChoice, OptionError>(MonitorChoice::List),
        value@ == "primary"@ && primary_index(monitors@) is Some ==> result == Ok::<
            MonitorChoice,
            OptionError,
        >(MonitorChoice::Index(primary_index(monitors@)->0)),
        value@ == "primary"@ && primary_index(monitors@) is None ==> result is Err
            && result->Err_0.problem == OptionProblem::NoPrimaryMonitor,
        value@.len() == 0 ==> result is Err && result->Err_0.problem == OptionProblem::Monitor,
{
    reveal_strlit("primary");
    reveal_strlit("list");
    let digits = text::decimal(index as nat);
    text::lemma_decimal_is_read(index as nat);
    text::lemma_decimal_spells(index as nat);
    assert('0' <= digits[0] <= '9');
    assert(text::upper(digits)[0] == digits[0]);
    assert(text::upper("primary"@)[0] == 'P' && text::upper("primary"@).len() == 7);
    assert(text::upper("list"@)[0] == 'L' && text::upper("list"@).len() == 4);
    assert(text::upper(value@).len() == value@.len());
}

/// The line of a monitor tells its index, its name, and its size, and marks the
/// primary one.
pub proof fn law_monitor_lines_mark_the_primary(monitor: MonitorInfo, line: String)
    requires
        call_ensures(monitor_line, (&monitor,), line),
    ensures
        ({
            let front = "  "@ + text::decimal(monitor.index as nat) + " "@ + monitor.name@ + " "@
                + text::decimal(monitor.width as nat) + "x"@ + text::decimal(monitor.height as nat);
            &&& monitor.primary ==> line@ == front + " (primary)"@
            &&& !monitor.primary ==> line@ == front
        }),
{
    reveal_strlit("");
    let front = "  "@ + text::decimal(monitor.index as nat) + " "@ + monitor.name@ + " "@
        + text::decimal(monitor.width as nat) + "x"@ + text::decimal(monitor.height as nat);
    assert(front + ""@ =~= front);
}

/// Options that were not typed leave the size of the source and the full frame.
pub proof fn law_missing_options_use_the_source(
    options: VideoOptions,
    result: Result<PictureSettings, OptionError>,
)
    requires
        call_ensures(picture_settings, (&options,), result),
    ensures
        result is Ok && options.canvas is None ==> result->Ok_0.canvas.width == 0
            && result->Ok_0.canvas.height == 0,
        result is Ok && options.crop is None ==> result->Ok_0.crop.width == 0
            && result->Ok_0.crop.height == 0 && result->Ok_0.crop.left == 0
            && result->Ok_0.crop.top == 0,
        result is Ok ==> text::same_ignoring_case(options.fit@, result->Ok_0.fit.name()),
        result is Ok && options.canvas is Some ==> canvas_of(options.canvas->0@) == Ok::<
            CanvasSize,
            OptionProblem,
        >(result->Ok_0.canvas),
        result is Ok && options.crop is Some ==> crop_of(options.crop->0@) == Ok::<
            CropRect,
            OptionProblem,
        >(result->Ok_0.crop),
        fit_of(options.fit@) is Err ==> result is Err && result->Err_0.value@ == options.fit@,
{
}

/// The video thread gets every option: rates in bits per second, and a frame rate
/// between one and sixty that is the typed one where that is in range.
pub proof fn law_video_settings_are_handed_over(
    options: VideoOptions,
    settings: PictureSettings,
    monitor: u32,
    output: FilePath,
    config: VideoConfig,
)
    requires
        call_ensures(video_config, (&options, &settings, monitor, output), config),
    ensures
        1 <= config.fps <= 60,
        1 <= options.fps <= 60 ==> config.fps == options.fps,
        options.fps > 60 ==> config.fps == 60,
        config.video_bitrate == 1_000_000 * options.video_bitrate,
        config.audio_bitrate == 1_000 * options.audio_bitrate,
        config.crop == settings.crop && config.fit == settings.fit,
        config.canvas_width == settings.canvas.width && config.canvas_height
            == settings.canvas.height,
        config.duration == options.duration && config.output == output && config.replace
            == options.force,
        config.source == VideoSource::Primary <==> monitor == 0,
        monitor > 0 ==> config.source == VideoSource::Index(monitor),
{
}

/// The settings that are shown before the start are those that were typed.
pub proof fn law_setups_show_the_settings(
    options: VideoOptions,
    settings: PictureSettings,
    lines: Vec<String>,
)
    requires
        call_ensures(setup_lines, (&options, &settings), lines),
    ensures
        lines@.len() == 8,
        lines@[1]@ == "  monitor: "@ + options.monitor@,
        lines@[2]@ == "  fit: "@ + settings.fit.name(),
        settings.canvas.width > 0 ==> lines@[3]@ == "  canvas: "@ + (text::decimal(
            settings.canvas.width as nat,
        ) + "x"@ + text::decimal(settings.canvas.height as nat)),
        settings.canvas.width == 0 ==> lines@[3]@ == "  canvas: native source size"@,
        settings.crop.left == 0 && settings.crop.top == 0 ==> lines@[4]@ == "  crop: full frame"@,
        lines@[5]@ == "  fps: "@ + text::decimal(options.fps as nat),
        lines@[7]@ == "Press Enter to start capture."@,
{
    reveal_strlit("  canvas: ");
    reveal_strlit("native source size");
    reveal_strlit("  canvas: native source size");
    reveal_strlit("  crop: ");
    reveal_strlit("full frame");
    reveal_strlit("  crop: full frame");
    assert("  canvas: "@ + "native source size"@ =~= "  canvas: native source size"@);
    assert("  crop: "@ + "full frame"@ =~= "  crop: full frame"@);
    assert(texts(lines@).len() == lines@.len());
    assert(texts(lines@)[1] == lines@[1]@);
    assert(texts(lines@)[2] == lines@[2]@);
    assert(texts(lines@)[3] == lines@[3]@);
    assert(texts(lines@)[4] == lines@[4]@);
    assert(texts(lines@)[5] == lines@[5]@);
    assert(texts(lines@)[7] == lines@[7]@);
}

/// A bare command is a default recording; a probe only takes the interface away.
pub proof fn law_probes_run_without_the_interface(probe: bool, cli: Cli, default: Cli, opens: bool)
    requires
        call_ensures(bare_command, (probe,), cli),
        call_ensures(Cli::default, (), default),
        call_ensures(opens_interface, (cli.no_tui, cli.startup_probe, true, true), opens),
    ensures
        opens <==> !probe,
        cli.startup_probe == probe,
        cli.bitrate == default.bitrate,
        cli.segment_duration@ == default.segment_duration@,
        cli.output is None && cli.duration is None && cli.command is None && !cli.force,
{
}

/// The interface needs a terminal on both ends, and nobody who asked it away.
pub proof fn law_the_interface_needs_two_terminals(
    no_tui: bool,
    probe: bool,
    output: bool,
    input: bool,
    opens: bool,
)
    requires
        call_ensures(opens_interface, (no_tui, probe, output, input), opens),
    ensures
        opens ==> output && input,
        opens ==> !no_tui && !probe,
        !no_tui && !probe && output && input ==> opens,
{
}

/// Every obstacle is told with the place that it concerns.
pub proof fn law_obstacles_name_their_place(error: TargetError, message: String)
    requires
        call_ensures(TargetError::message, (&error,), message),
    ensures
        error matches TargetError::InvalidName { requested, .. } ==> message@
            == "invalid output path "@ + requested@.text(),
        error is OtherExtension ==> message@ == "the video output file must use the .mp4 extension"@,
        error matches TargetError::InUse { output } ==> message@ == "refusing to overwrite "@
            + output@.text() + "; choose another path or pass --force"@,
        error matches TargetError::NoFolder { output } ==> message@
            == "could not create output directory "@ + folder_text(output@),
        error matches TargetError::NoSession { parent, .. } ==> message@
            == "could not create a recording session in "@ + parent@.text(),
{
}

/// A rejected option is told with the text that was typed, and with what may be
/// typed in its place.
pub proof fn law_rejected_options_are_told(error: OptionError, message: String)
    requires
        call_ensures(OptionError::message, (&error,), message),
    ensures
        error.problem == OptionProblem::Fit ==> message@ == "invalid fit "@ + error.value@
            + "; use contain, cover, stretch, or native"@,
        error.problem == OptionProblem::Canvas ==> message@ == "invalid canvas "@ + error.value@
            + "; use WxH or a preset name"@,
        error.problem == OptionProblem::CanvasWidth ==> message@ == "invalid canvas width in "@
            + error.value@,
        error.problem == OptionProblem::CanvasHeight ==> message@ == "invalid canvas height in "@
            + error.value@,
        error.problem == OptionProblem::EmptyCanvas ==> message@
            == "canvas dimensions must be greater than zero"@,
        error.problem == OptionProblem::CropShape ==> message@
            == "crop must be LEFT,TOP,WIDTH,HEIGHT"@,
        error.problem == OptionProblem::CropLeft ==> message@ == "invalid crop left in "@
            + error.value@,
        error.problem == OptionProblem::CropTop ==> message@ == "invalid crop top in "@
            + error.value@,
        error.problem == OptionProblem::CropWidth ==> message@ == "invalid crop width in "@
            + error.value@,
        error.problem == OptionProblem::CropHeight ==> message@ == "invalid crop height in "@
            + error.value@,
        error.problem == OptionProblem::EmptyCrop ==> message@
            == "crop dimensions must be greater than zero"@,
        error.problem == OptionProblem::NoPrimaryMonitor ==> message@ == "no primary monitor found"@,
        error.problem == OptionProblem::Monitor ==> message@ == "invalid monitor "@ + error.value@
            + "; use a monitor index, primary, or list"@,
{
}

/// A crop has four numbers between three commas, and the missing left edge of one
/// is named.
pub proof fn law_crops_have_four_numbers(value: &str, result: Result<CropRect, OptionError>)
    requires
        call_ensures(parse_crop, (value,), result),
    ensures
        text::pieces(value@, ',').len() != 4 ==> result is Err && result->Err_0.problem
            == OptionProblem::CropShape,
        result is Err ==> result->Err_0.value@ == value@,
        text::pieces(value@, ',').len() == 4 && text::trim(text::pieces(value@, ',')[0]).len() == 0
            ==> result is Err && result->Err_0.problem == OptionProblem::CropLeft,
{
}

} // verus!
