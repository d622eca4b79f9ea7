//! Screen recording settings, geometry, and media time.
//!
//! The video thread duplicates one monitor, converts desktop frames to NV12,
//! and encodes H.264 video plus AAC audio into one MP4 file. This module
//! decides the crop, the canvas, and the scale. [`frame`] lays out NV12
//! frames, and [`timeline`] keeps both streams on one media clock.
pub mod frame;
pub mod timeline;

use vstd::prelude::*;

use crate::audio::wave;
use crate::binary64;
use crate::binary64::error;
use crate::binary64::order;
use crate::binary64::{checked_frame_duration, nearest_binary64, Binary64};
use crate::natural::Natural;
use crate::path::FilePath;
use crate::time::Duration;

verus! {

/// The default capture frame rate in frames per second.
pub const DEFAULT_FPS: u32 = 60;

/// The default encoded video bit rate in bits per second.
pub const DEFAULT_VIDEO_BITRATE: u32 = 20_000_000;

/// The default encoded audio bit rate in bits per second.
pub const DEFAULT_AUDIO_BITRATE: u32 = 192_000;

/// Selects the monitor that the recorder captures.
#[derive(Clone, Copy, Debug, PartialEq, Eq, Structural)]
pub enum VideoSource {
    /// Capture the primary monitor output of the capture device.
    Primary,
    /// Capture the monitor at this output index.
    Index(u32),
}

/// Selects how the source maps into the encoded canvas.
#[derive(Clone, Copy, Debug, PartialEq, Eq, Structural)]
pub enum FitMode {
    /// Preserve aspect ratio and add letterbox or pillarbox bars.
    Contain,
    /// Preserve aspect ratio and crop overflow beyond the canvas.
    Cover,
    /// Fill the canvas without preserving aspect ratio.
    Stretch,
    /// Use one source pixel per output pixel when possible.
    Native,
}

impl Default for FitMode {
    fn default() -> (mode: FitMode)
        ensures
            mode == FitMode::Contain,
    {
        FitMode::Contain
    }
}

impl FitMode {
    /// The next fit mode in display order.
    pub open spec fn following(self) -> FitMode {
        match self {
            FitMode::Contain => FitMode::Cover,
            FitMode::Cover => FitMode::Stretch,
            FitMode::Stretch => FitMode::Native,
            FitMode::Native => FitMode::Contain,
        }
    }

    /// The command-line name of this fit mode.
    pub open spec fn name(self) -> Seq<char> {
        match self {
            FitMode::Contain => "contain"@,
            FitMode::Cover => "cover"@,
            FitMode::Stretch => "stretch"@,
            FitMode::Native => "native"@,
        }
    }

    /// Returns the next fit mode in display order.
    #[must_use]
    pub fn next(self) -> (mode: FitMode)
        ensures
            mode == self.following(),
    {
        match self {
            FitMode::Contain => FitMode::Cover,
            FitMode::Cover => FitMode::Stretch,
            FitMode::Stretch => FitMode::Native,
            FitMode::Native => FitMode::Contain,
        }
    }

    /// Returns the command-line name of this fit mode.
    #[must_use]
    pub fn label(self) -> (label: &'static str)
        ensures
            label@ == self.name(),
    {
        match self {
            FitMode::Contain => "contain",
            FitMode::Cover => "cover",
            FitMode::Stretch => "stretch",
            FitMode::Native => "native",
        }
    }
}

/// Four steps through the fit modes come back to the first one, and no fewer do.
pub proof fn law_fit_modes_cycle(mode: FitMode)
    ensures
        mode.following().following().following().following() == mode,
        mode.following() != mode,
        mode.following().following() != mode,
        mode.following().following().following() != mode,
{
}

/// Describes a crop rectangle in source pixel coordinates.
///
/// The default value has a zero size, which [`effective_crop`] resolves to the
/// full source frame.
#[derive(Clone, Copy, Debug, PartialEq, Eq, Structural)]
pub struct CropRect {
    /// Left edge in source pixels.
    pub left: u32,
    /// Top edge in source pixels.
    pub top: u32,
    /// Crop width in source pixels; zero selects the full width.
    pub width: u32,
    /// Crop height in source pixels; zero selects the full height.
    pub height: u32,
}

impl Default for CropRect {
    fn default() -> (crop: CropRect)
        ensures
            crop == (CropRect { left: 0, top: 0, width: 0, height: 0 }),
    {
        CropRect { left: 0, top: 0, width: 0, height: 0 }
    }
}

/// The smaller of two sizes.
pub open spec fn smaller(left: int, right: int) -> int {
    if left < right {
        left
    } else {
        right
    }
}

/// A size without its last odd pixel, and at least two pixels.
pub open spec fn even_size(size: int) -> int {
    if size < 2 {
        2
    } else {
        size - size % 2
    }
}

/// An edge that leaves two pixels of the source, where it has them.
pub open spec fn inner_edge(edge: int, source: int) -> int {
    if source < 2 {
        0
    } else {
        smaller(edge, source - 2)
    }
}

impl CropRect {
    /// The rectangle inside a source, with an even size.
    pub open spec fn inside(self, width: u32, height: u32) -> CropRect {
        let left = inner_edge(self.left as int, width as int);
        let top = inner_edge(self.top as int, height as int);
        CropRect {
            left: left as u32,
            top: top as u32,
            width: even_size(smaller(self.width as int, width - left)) as u32,
            height: even_size(smaller(self.height as int, height - top)) as u32,
        }
    }

    /// Clamps this rectangle to the source bounds with an even size.
    #[must_use]
    pub fn clamp_to(&self, source_width: u32, source_height: u32) -> (crop: CropRect)
        ensures
            crop == self.inside(source_width, source_height),
    {
        let left: u32 = edge_inside(self.left, source_width);
        let top: u32 = edge_inside(self.top, source_height);
        CropRect {
            left,
            top,
            width: even(lesser(self.width, source_width - left)),
            height: even(lesser(self.height, source_height - top)),
        }
    }

    /// Reports whether this rectangle covers the full source.
    #[must_use]
    pub fn is_full(&self, source_width: u32, source_height: u32) -> (full: bool)
        ensures
            full == (self.left == 0 && self.top == 0 && self.width >= source_width && self.height
                >= source_height),
    {
        self.left == 0 && self.top == 0 && self.width >= source_width && self.height
            >= source_height
    }
}

/// Returns the smaller of two sizes.
fn lesser(left: u32, right: u32) -> (result: u32)
    ensures
        result == smaller(left as int, right as int),
{
    if left < right {
        left
    } else {
        right
    }
}

/// Returns a size without its last odd pixel, and at least two pixels.
fn even(size: u32) -> (result: u32)
    ensures
        result == even_size(size as int),
{
    if size < 2 {
        2
    } else {
        size - size % 2
    }
}

/// Returns an edge that leaves two pixels of the source, where it has them.
fn edge_inside(edge: u32, source: u32) -> (result: u32)
    ensures
        result == inner_edge(edge as int, source as int),
        result <= source,
{
    if source < 2 {
        0
    } else {
        lesser(edge, source - 2)
    }
}

/// A clamped rectangle has an even size, lies inside a source of at least two
/// by two pixels, and stays as it is when it is clamped again.
pub proof fn law_clamped_crops_lie_inside(crop: CropRect, width: u32, height: u32)
    requires
        width >= 2,
        height >= 2,
    ensures
        ({
            let inside = crop.inside(width, height);
            &&& inside.width >= 2 && inside.height >= 2
            &&& inside.width % 2 == 0 && inside.height % 2 == 0
            &&& inside.left + inside.width <= width
            &&& inside.top + inside.height <= height
            &&& inside.inside(width, height) == inside
        }),
{
}

/// Contains a named canvas preset size.
#[derive(Clone, Copy, Debug, PartialEq, Eq, Structural)]
pub struct CanvasSize {
    /// Encoded frame width in pixels.
    pub width: u32,
    /// Encoded frame height in pixels.
    pub height: u32,
}

/// The names and sizes of the built-in canvas presets.
pub open spec fn presets() -> Seq<(Seq<char>, CanvasSize)> {
    seq![
        ("native"@, CanvasSize { width: 0, height: 0 }),
        ("1080p"@, CanvasSize { width: 1920, height: 1080 }),
        ("1440p"@, CanvasSize { width: 2560, height: 1440 }),
        ("4k"@, CanvasSize { width: 3840, height: 2160 }),
        ("720p"@, CanvasSize { width: 1280, height: 720 }),
        ("square"@, CanvasSize { width: 1080, height: 1080 }),
    ]
}

/// Returns the built-in canvas presets.
#[must_use]
pub fn canvas_presets() -> (result: Vec<(&'static str, CanvasSize)>)
    ensures
        result@.len() == presets().len(),
        forall|i: int|
            0 <= i < result@.len() ==> (#[trigger] result@[i]).0@ == presets()[i].0 && result@[i].1
                == presets()[i].1,
{
    let mut result: Vec<(&'static str, CanvasSize)> = Vec::new();
    result.push(("native", CanvasSize { width: 0, height: 0 }));
    result.push(("1080p", CanvasSize { width: 1920, height: 1080 }));
    result.push(("1440p", CanvasSize { width: 2560, height: 1440 }));
    result.push(("4k", CanvasSize { width: 3840, height: 2160 }));
    result.push(("720p", CanvasSize { width: 1280, height: 720 }));
    result.push(("square", CanvasSize { width: 1080, height: 1080 }));
    result
}

/// Resolves the effective crop for one source size.
///
/// A zero width or height means that no crop was requested, which captures the
/// full frame. Every other rectangle clamps to the source bounds.
#[must_use]
pub fn effective_crop(crop: &CropRect, source_width: u32, source_height: u32) -> (result: CropRect)
    ensures
        result == (if crop.width == 0 || crop.height == 0 {
            (CropRect { left: 0, top: 0, width: source_width, height: source_height }).inside(
                source_width,
                source_height,
            )
        } else {
            crop.inside(source_width, source_height)
        }),
{
    if crop.width == 0 || crop.height == 0 {
        let full = CropRect { left: 0, top: 0, width: source_width, height: source_height };
        return full.clamp_to(source_width, source_height);
    }
    crop.clamp_to(source_width, source_height)
}

/// A crop size limited to the source, and at least two pixels. The floor keeps
/// degenerate crops from dividing the scale by zero.
pub open spec fn scaled_size(crop: int, source: int) -> int {
    let size = smaller(crop, source);
    if size < 2 {
        2
    } else {
        size
    }
}

/// One side of the encoded canvas for that side of the crop. A side without a
/// size is that of the crop.
pub open spec fn canvas_side(crop: int, requested: int) -> int {
    if requested == 0 {
        even_size(crop)
    } else {
        requested - requested % 2
    }
}

/// The encoded canvas for a crop size. Each side stands on its own.
pub open spec fn encoded_canvas(crop_width: int, crop_height: int, width: int, height: int) -> (
    int,
    int,
) {
    (canvas_side(crop_width, width), canvas_side(crop_height, height))
}

/// Returns one side of the encoded canvas for that side of the crop.
fn encoded_side(crop: u32, requested: u32) -> (side: u32)
    ensures
        side == canvas_side(crop as int, requested as int),
{
    if requested == 0 {
        even(crop)
    } else {
        requested - requested % 2
    }
}

/// The crop width that a canvas height shows with the aspect ratio of the crop,
/// in double precision.
pub open spec fn fitting_width(
    crop_width: nat,
    crop_height: nat,
    canvas_height: nat,
) -> binary64::Rounded {
    binary64::nearest(canvas_height * crop_width, 1).over(crop_height)
}

/// The horizontal and vertical scale of a crop on a canvas, in double precision.
pub open spec fn fit_scale(
    fit: FitMode,
    crop_width: nat,
    crop_height: nat,
    canvas_width: nat,
    canvas_height: nat,
) -> (binary64::Rounded, binary64::Rounded) {
    let fitting = fitting_width(crop_width, crop_height, canvas_height);
    let narrow = fitting.numerator() < canvas_width * fitting.denominator();
    let by_width = binary64::nearest(canvas_width, crop_width);
    let by_height = fitting.over(crop_width);
    match fit {
        FitMode::Stretch => (by_width, binary64::nearest(canvas_height, crop_height)),
        FitMode::Contain => if narrow {
            (by_height, by_height)
        } else {
            (by_width, by_width)
        },
        FitMode::Cover => if narrow {
            (by_width, by_width)
        } else {
            (by_height, by_height)
        },
        FitMode::Native => (binary64::nearest(1, 1), binary64::nearest(1, 1)),
    }
}

/// Returns a quotient of two sizes in double precision.
fn size_ratio(numerator: u32, denominator: u32) -> (ratio: Binary64)
    requires
        denominator > 0,
    ensures
        ratio@ == binary64::nearest(numerator as nat, denominator as nat),
        ratio.wf(),
{
    proof {
        let limit = vstd::arithmetic::power2::pow2(32);
        vstd::arithmetic::power2::lemma2_to64();
        assert(numerator as nat <= denominator as nat * limit) by (nonlinear_arith)
            requires
                numerator <= limit,
                denominator >= 1,
        ;
        binary64::lemma_rounding_keeps_limit(numerator as nat, denominator as nat, 32);
    }
    match nearest_binary64(
        &Natural::from_word(numerator as u64),
        &Natural::from_word(denominator as u64),
    ) {
        Some(ratio) => ratio,
        None => Binary64 { significand: 0, exponent: 0 },
    }
}

/// Returns the crop width that a canvas height shows, and its share of the crop.
fn height_ratio(crop_width: u32, crop_height: u32, canvas_height: u32) -> (result: (
    Binary64,
    Binary64,
))
    requires
        crop_width > 0,
        crop_height > 0,
    ensures
        result.0@ == fitting_width(crop_width as nat, crop_height as nat, canvas_height as nat),
        result.1@ == fitting_width(
            crop_width as nat,
            crop_height as nat,
            canvas_height as nat,
        ).over(crop_width as nat),
        result.0.wf(),
        result.1.wf(),
{
    let mut product = Natural::from_word(canvas_height as u64);
    product.multiply_and_add(crop_width, 0);
    let one = Natural::from_word(1);
    proof {
        let limit = vstd::arithmetic::power2::pow2(64);
        vstd::arithmetic::power2::lemma2_to64();
        vstd::arithmetic::power2::lemma2_to64_rest();
        let area = canvas_height as nat * crop_width as nat;
        assert(area <= 1 * limit) by (nonlinear_arith)
            requires
                area == canvas_height as nat * crop_width as nat,
                canvas_height <= 0xFFFF_FFFF,
                crop_width <= 0xFFFF_FFFF,
                limit == 0x1_0000_0000_0000_0000,
        ;
        binary64::lemma_rounding_keeps_limit(area, 1, 64);
        let whole = binary64::nearest(area, 1);
        binary64::lemma_quotient_keeps_limit(whole, crop_height as nat, 64);
        binary64::lemma_quotient_keeps_limit(whole.over(crop_height as nat), crop_width as nat, 64);
    }
    let zero = Binary64 { significand: 0, exponent: 0 };
    let area = match nearest_binary64(&product, &one) {
        Some(area) => area,
        None => zero,
    };
    let fitting = match area.over(crop_height) {
        Some(fitting) => fitting,
        None => zero,
    };
    let ratio = match fitting.over(crop_width) {
        Some(ratio) => ratio,
        None => zero,
    };
    (fitting, ratio)
}

/// Computes the encoded geometry for one source, crop, canvas, and fit mode:
/// the canvas size and the horizontal and vertical scale.
#[must_use]
pub fn transform_geometry(
    source_width: u32,
    source_height: u32,
    crop: &CropRect,
    fit: FitMode,
    canvas_width: u32,
    canvas_height: u32,
) -> (geometry: (u32, u32, Binary64, Binary64))
    ensures
        ({
            let width = scaled_size(crop.width as int, source_width as int);
            let height = scaled_size(crop.height as int, source_height as int);
            let canvas = encoded_canvas(
                width,
                height,
                canvas_width as int,
                canvas_height as int,
            );
            let scale = fit_scale(
                fit,
                width as nat,
                height as nat,
                canvas.0 as nat,
                canvas.1 as nat,
            );
            &&& geometry.0 == canvas.0
            &&& geometry.1 == canvas.1
            &&& geometry.2@ == scale.0
            &&& geometry.3@ == scale.1
        }),
        geometry.2.wf(),
        geometry.3.wf(),
{
    let mut crop_width: u32 = lesser(crop.width, source_width);
    if crop_width < 2 {
        crop_width = 2;
    }
    let mut crop_height: u32 = lesser(crop.height, source_height);
    if crop_height < 2 {
        crop_height = 2;
    }
    let width: u32 = encoded_side(crop_width, canvas_width);
    let height: u32 = encoded_side(crop_height, canvas_height);
    let (scale_x, scale_y) = match fit {
        FitMode::Stretch => (size_ratio(width, crop_width), size_ratio(height, crop_height)),
        FitMode::Contain => {
            let (fitting, by_height) = height_ratio(crop_width, crop_height, height);
            let scale = if fitting.is_below_whole(width) {
                by_height
            } else {
                size_ratio(width, crop_width)
            };
            (scale, scale)
        },
        FitMode::Cover => {
            let (fitting, by_height) = height_ratio(crop_width, crop_height, height);
            let scale = if fitting.is_below_whole(width) {
                size_ratio(width, crop_width)
            } else {
                by_height
            };
            (scale, scale)
        },
        FitMode::Native => (size_ratio(1, 1), size_ratio(1, 1)),
    };
    (width, height, scale_x, scale_y)
}

/// The encoded canvas always has an even size.
pub proof fn law_canvas_sizes_are_even(
    crop_width: int,
    crop_height: int,
    width: int,
    height: int,
)
    requires
        width >= 0,
        height >= 0,
    ensures
        encoded_canvas(crop_width, crop_height, width, height).0 % 2 == 0,
        encoded_canvas(crop_width, crop_height, width, height).1 % 2 == 0,
{
}

/// Contains all settings for one video recording process.
#[derive(Debug)]
pub struct VideoConfig {
    /// Selects the captured monitor.
    pub source: VideoSource,
    /// Crop rectangle in source pixels.
    pub crop: CropRect,
    /// Fit mode for the encoded canvas.
    pub fit: FitMode,
    /// Encoded canvas width; zero uses the source width.
    pub canvas_width: u32,
    /// Encoded canvas height; zero uses the source height.
    pub canvas_height: u32,
    /// Requests an H.264 bit rate in bits per second.
    pub video_bitrate: u32,
    /// Requests an AAC bit rate in bits per second.
    pub audio_bitrate: u32,
    /// Requests the capture frame rate.
    pub fps: u32,
    /// Stops capture after this encoded duration when set.
    pub duration: Option<Duration>,
    /// Destination MP4 path.
    pub output: FilePath,
    /// Replaces the file when it already exists.
    pub replace: bool,
}

/// Reports capture state to the interface.
#[derive(Debug)]
pub enum VideoEvent {
    /// Reports that the capture and encoder pipelines have started.
    Started {
        /// Actual encoded frame width in pixels.
        width: u32,
        /// Actual encoded frame height in pixels.
        height: u32,
        /// Actual encoded frame rate.
        fps: u32,
        /// Selected audio sample rate in frames per second.
        sample_rate: u32,
        /// Milliseconds from process start to capture readiness.
        capture_ready_ms: Binary64,
    },
    /// Reports that the recorder finalized the MP4 file.
    Saved(VideoSummary),
    /// Provides a short message for the interface.
    Notice(String),
    /// Reports that capture has stopped and the MP4 is finalizing.
    Finalizing,
}

/// Summarizes one complete MP4 recording.
#[derive(Debug)]
pub struct VideoSummary {
    /// Final path of the MP4 file.
    pub output: FilePath,
    /// Encoded video width in pixels.
    pub width: u32,
    /// Encoded video height in pixels.
    pub height: u32,
    /// Encoded frame rate in frames per second.
    pub fps: u32,
    /// Total video frames written to the file.
    pub frames: u64,
    /// Selected audio sample rate.
    pub sample_rate: u32,
    /// Selected H.264 bit rate.
    pub video_bitrate: u32,
    /// Selected AAC bit rate.
    pub audio_bitrate: u32,
    /// Milliseconds from start to the first real video sample entering the MP4.
    pub recording_ready_ms: Option<Binary64>,
    /// Milliseconds from stop request to the finalized playable file.
    pub finalize_ms: Binary64,
}

impl Clone for VideoSummary {
    fn clone(&self) -> (copy: VideoSummary)
        ensures
            copy == *self,
    {
        VideoSummary {
            output: self.output.clone(),
            width: self.width,
            height: self.height,
            fps: self.fps,
            frames: self.frames,
            sample_rate: self.sample_rate,
            video_bitrate: self.video_bitrate,
            audio_bitrate: self.audio_bitrate,
            recording_ready_ms: self.recording_ready_ms,
            finalize_ms: self.finalize_ms,
        }
    }
}

impl VideoSummary {
    /// Returns the encoded duration of this recording.
    #[must_use]
    pub fn duration(&self) -> (duration: Duration)
        requires
            binary64::frames_have_length(self.frames as nat, self.fps as nat),
        ensures
            duration@ == binary64::frame_nanoseconds(self.frames as nat, self.fps as nat),
    {
        match checked_frame_duration(self.frames, self.fps) {
            Some(duration) => duration,
            None => Duration::zero(),
        }
    }
}

/// Describes one attached monitor for the selection interface.
#[derive(Debug)]
pub struct MonitorInfo {
    /// Stable session index starting at zero.
    pub index: u32,
    /// System display name such as `\\.\DISPLAY1`.
    pub name: String,
    /// Reports whether this is the primary monitor.
    pub primary: bool,
    /// Current resolution width in pixels.
    pub width: u32,
    /// Current resolution height in pixels.
    pub height: u32,
    /// Desktop position left coordinate.
    pub left: i32,
    /// Desktop position top coordinate.
    pub top: i32,
}

/// Describes a monitor from its desktop rectangle.
///
/// An output without an area is not a monitor. The primary monitor starts at
/// the origin of the desktop.
pub fn monitor_at(index: u32, name: String, left: i32, top: i32, right: i32, bottom: i32) -> (
    monitor: Option<MonitorInfo>)
    ensures
        monitor is Some <==> left < right && top < bottom,
        monitor is Some ==> {
            let found = monitor->0;
            &&& found.index == index
            &&& found.name == name
            &&& found.primary == (left == 0 && top == 0)
            &&& found.width == right - left
            &&& found.height == bottom - top
            &&& found.left == left
            &&& found.top == top
        },
{
    if left >= right || top >= bottom {
        return None;
    }
    Some(
        MonitorInfo {
            index,
            name,
            primary: left == 0 && top == 0,
            width: (right as i64 - left as i64) as u32,
            height: (bottom as i64 - top as i64) as u32,
            left,
            top,
        },
    )
}

/// Selects the closest AAC-native sample rate to the device rate.
pub fn nearest_aac_rate(source_rate: u32) -> (rate: u32)
    ensures
        rate == wave::suitable_rate(source_rate as nat),
{
    wave::desired_rate(source_rate)
}

/// Packs a frame size into the attribute of a media type.
pub fn packed_size(width: u32, height: u32) -> (packed: u64)
    ensures
        packed == width * 0x1_0000_0000 + height,
{
    width as u64 * 0x1_0000_0000 + height as u64
}

/// Whether a scaled side of the crop fits a side of the canvas, up to rounding:
/// sixteen parts in 2^53.
pub open spec fn fits_side(crop: u32, scale: Binary64, canvas: u32) -> bool {
    error::about_at_most(
        crop as nat * scale@.numerator(),
        scale@.denominator(),
        canvas as nat,
        1,
        16,
    )
}

/// Whether a scaled side of the crop covers a side of the canvas, up to rounding:
/// sixteen parts in 2^53.
pub open spec fn covers_side(crop: u32, scale: Binary64, canvas: u32) -> bool {
    error::about_at_most(
        canvas as nat,
        1,
        crop as nat * scale@.numerator(),
        scale@.denominator(),
        16,
    )
}

/// Without a requested canvas, the canvas is the crop: its size without an odd
/// last pixel, whatever the size of the source around it.
pub proof fn law_the_canvas_is_the_crop(
    source_width: u32,
    source_height: u32,
    crop: CropRect,
    fit: FitMode,
    geometry: (u32, u32, Binary64, Binary64),
)
    requires
        2 <= crop.width <= source_width,
        2 <= crop.height <= source_height,
        call_ensures(
            transform_geometry,
            (source_width, source_height, &crop, fit, 0, 0),
            geometry,
        ),
    ensures
        geometry.0 % 2 == 0 && geometry.1 % 2 == 0,
        geometry.0 <= crop.width < geometry.0 + 2,
        geometry.1 <= crop.height < geometry.1 + 2,
        crop.width % 2 == 0 && crop.height % 2 == 0 ==> geometry.0 == crop.width && geometry.1
            == crop.height,
{
}

/// A requested canvas is used side by side, without an odd last pixel, whatever
/// the crop, the source, and the fit.
pub proof fn law_requested_canvases_are_used(
    source_width: u32,
    source_height: u32,
    crop: CropRect,
    fit: FitMode,
    width: u32,
    height: u32,
    geometry: (u32, u32, Binary64, Binary64),
)
    requires
        call_ensures(
            transform_geometry,
            (source_width, source_height, &crop, fit, width, height),
            geometry,
        ),
    ensures
        geometry.0 % 2 == 0 && geometry.1 % 2 == 0,
        width > 0 ==> geometry.0 <= width < geometry.0 + 2,
        height > 0 ==> geometry.1 <= height < geometry.1 + 2,
{
}

/// A crop that reaches beyond the source counts as far as the source goes, and
/// a side below two pixels counts as two.
pub proof fn law_crops_end_at_the_source(
    source_width: u32,
    source_height: u32,
    crop: CropRect,
    ended: CropRect,
    fit: FitMode,
    width: u32,
    height: u32,
    first: (u32, u32, Binary64, Binary64),
    second: (u32, u32, Binary64, Binary64),
)
    requires
        source_width >= 2 && source_height >= 2,
        ended.width == crop.width || (crop.width > source_width && ended.width == source_width)
            || (crop.width < 2 && ended.width == 2),
        ended.height == crop.height || (crop.height > source_height && ended.height
            == source_height) || (crop.height < 2 && ended.height == 2),
        call_ensures(
            transform_geometry,
            (source_width, source_height, &crop, fit, width, height),
            first,
        ),
        call_ensures(
            transform_geometry,
            (source_width, source_height, &ended, fit, width, height),
            second,
        ),
    ensures
        first.0 == second.0 && first.1 == second.1,
        first.2@ == second.2@ && first.3@ == second.3@,
{
}

/// What a crop becomes on its canvas. Contain keeps the aspect ratio, fits both
/// sides, and touches one of them. Cover keeps the aspect ratio, covers both
/// sides, and touches one of them. Stretch touches both sides. Native leaves the
/// size as it is.
pub proof fn law_fit_modes_fill_the_canvas(
    source_width: u32,
    source_height: u32,
    crop: CropRect,
    fit: FitMode,
    width: u32,
    height: u32,
    geometry: (u32, u32, Binary64, Binary64),
)
    requires
        2 <= crop.width <= source_width,
        2 <= crop.height <= source_height,
        call_ensures(
            transform_geometry,
            (source_width, source_height, &crop, fit, width, height),
            geometry,
        ),
    ensures
        fit == FitMode::Contain ==> {
            &&& geometry.2@ == geometry.3@
            &&& fits_side(crop.width, geometry.2, geometry.0)
            &&& fits_side(crop.height, geometry.2, geometry.1)
            &&& covers_side(crop.width, geometry.2, geometry.0) || covers_side(
                crop.height,
                geometry.2,
                geometry.1,
            )
        },
        fit == FitMode::Cover ==> {
            &&& geometry.2@ == geometry.3@
            &&& covers_side(crop.width, geometry.2, geometry.0)
            &&& covers_side(crop.height, geometry.2, geometry.1)
            &&& fits_side(crop.width, geometry.2, geometry.0) || fits_side(
                crop.height,
                geometry.2,
                geometry.1,
            )
        },
        fit == FitMode::Stretch ==> {
            &&& fits_side(crop.width, geometry.2, geometry.0) && covers_side(
                crop.width,
                geometry.2,
                geometry.0,
            )
            &&& fits_side(crop.height, geometry.3, geometry.1) && covers_side(
                crop.height,
                geometry.3,
                geometry.1,
            )
        },
        fit == FitMode::Native ==> order::is_whole(geometry.2@, 1) && order::is_whole(
            geometry.3@,
            1,
        ),
{
    let (w, h) = (crop.width as nat, crop.height as nat);
    let (cw, ch) = (geometry.0 as nat, geometry.1 as nat);
    let scale = geometry.2@;
    match fit {
        FitMode::Native => {
            order::lemma_whole_fractions_are_exact(1, 1);
        },
        FitMode::Stretch => {
            lemma_side_ratio(w, cw);
            lemma_side_ratio(h, ch);
            lemma_sides_meet(geometry.2, crop.width, geometry.0, w, cw, 2);
            lemma_sides_meet(geometry.3, crop.height, geometry.1, h, ch, 2);
        },
        _ => {
            let fitting = fitting_width(w, h, ch);
            lemma_fitting_width(w, h, ch);
            lemma_side_ratio(w, cw);
            binary64::lemma_denominator_is_positive(fitting);
            let narrow = fitting.numerator() < cw * fitting.denominator();
            if narrow == (fit == FitMode::Contain) {
                lemma_sides_meet(geometry.2, crop.height, geometry.1, h, ch, 8);
                lemma_other_side_by_height(scale, fitting, w, cw, narrow);
            } else {
                lemma_sides_meet(geometry.2, crop.width, geometry.0, w, cw, 2);
                lemma_other_side_by_width(scale, fitting, w, h, cw, ch, narrow);
            }
        },
    }
}

/// The scale of one side is the quotient of its sizes, up to rounding.
proof fn lemma_side_ratio(crop: nat, canvas: nat)
    requires
        1 <= crop <= u32::MAX,
        canvas <= u32::MAX,
    ensures
        error::is_about(binary64::nearest(canvas, crop), canvas, crop, 2),
{
    error::lemma_ordinary_size(canvas, crop);
    error::lemma_nearest_is_about(canvas, crop);
}

/// A scale that is the quotient of a side meets that side.
proof fn lemma_sides_meet(
    scale: Binary64,
    crop: u32,
    canvas: u32,
    side: nat,
    target: nat,
    slack: nat,
)
    requires
        side == crop,
        target == canvas,
        slack <= 16,
        error::is_about(scale@, target, side, slack),
    ensures
        fits_side(crop, scale, canvas),
        covers_side(crop, scale, canvas),
{
    let (n, d) = (scale@.numerator(), scale@.denominator());
    assert(side * n * 1 == n * side) by (nonlinear_arith);
    assert(target * d == target * d * 1) by (nonlinear_arith);
    error::lemma_more_slack(side * n, d, target, 1, slack, 16);
    assert(n * side * 1 == side * n * 1) by (nonlinear_arith);
    error::lemma_more_slack(target, 1, side * n, d, slack, 16);
}

/// The fitting width is that of the aspect ratio, and its share of the crop is
/// the quotient of the heights, up to rounding.
proof fn lemma_fitting_width(w: nat, h: nat, ch: nat)
    requires
        1 <= w <= u32::MAX,
        1 <= h <= u32::MAX,
        ch <= u32::MAX,
    ensures
        error::is_about(fitting_width(w, h, ch), ch * w, h, 5),
        error::is_about(fitting_width(w, h, ch).over(w), ch, h, 8),
        error::is_about(
            fitting_width(w, h, ch).over(w),
            fitting_width(w, h, ch).numerator(),
            fitting_width(w, h, ch).denominator() * w,
            2,
        ),
{
    let exact = ch * w;
    let area = binary64::nearest(exact, 1);
    let (an, ad) = (area.numerator(), area.denominator());
    error::lemma_ordinary_size(exact, 1);
    error::lemma_nearest_is_about(exact, 1);
    error::lemma_quotient_is_about(area, exact, 1, h, 2);
    let fitting = area.over(h);
    assert(1 * h == h);
    assert(exact <= u32::MAX * u32::MAX) by (nonlinear_arith)
        requires
            exact == ch * w,
            ch <= u32::MAX,
            w <= u32::MAX,
    ;
    error::lemma_quotient_is_about(fitting, exact, h, w, 5);
    let ratio = fitting.over(w);
    let (n, d) = (ratio.numerator(), ratio.denominator());
    let p = error::parts();
    assert(n * h * p <= ch * d * (p + 8)) by (nonlinear_arith)
        requires
            n * (h * w) * p <= (ch * w) * d * (p + 8),
            w > 0,
    ;
    assert(ch * d * p <= n * h * (p + 8)) by (nonlinear_arith)
        requires
            (ch * w) * d * p <= n * (h * w) * (p + 8),
            w > 0,
    ;
}

/// A scale by the height, seen from the width.
proof fn lemma_other_side_by_height(
    scale: binary64::Rounded,
    fitting: binary64::Rounded,
    w: nat,
    cw: nat,
    narrow: bool,
)
    requires
        fitting.denominator() > 0,
        narrow == (fitting.numerator() < cw * fitting.denominator()),
        error::is_about(scale, fitting.numerator(), fitting.denominator() * w, 2),
    ensures
        narrow ==> error::about_at_most(
            w * scale.numerator(),
            scale.denominator(),
            cw,
            1,
            16,
        ),
        !narrow ==> error::about_at_most(
            cw,
            1,
            w * scale.numerator(),
            scale.denominator(),
            16,
        ),
{
    let (n, d) = (scale.numerator(), scale.denominator());
    let (a, b) = (fitting.numerator(), fitting.denominator());
    let p = error::parts();
    if narrow {
        assert(n * (b * w) * p <= (cw * b) * d * (p + 2)) by (nonlinear_arith)
            requires
                n * (b * w) * p <= a * d * (p + 2),
                a <= cw * b,
                d * (p + 2) >= 0,
        ;
        assert(w * n * 1 * p <= cw * d * (p + 2)) by (nonlinear_arith)
            requires
                n * (b * w) * p <= (cw * b) * d * (p + 2),
                b > 0,
        ;
        error::lemma_more_slack(w * n, d, cw, 1, 2, 16);
    } else {
        assert((cw * b) * d * p <= n * (b * w) * (p + 2)) by (nonlinear_arith)
            requires
                a * d * p <= n * (b * w) * (p + 2),
                cw * b <= a,
                d * p >= 0,
        ;
        assert(cw * d * p <= w * n * 1 * (p + 2)) by (nonlinear_arith)
            requires
                (cw * b) * d * p <= n * (b * w) * (p + 2),
                b > 0,
        ;
        error::lemma_more_slack(cw, 1, w * n, d, 2, 16);
    }
}

/// A scale by the width, seen from the height.
proof fn lemma_other_side_by_width(
    scale: binary64::Rounded,
    fitting: binary64::Rounded,
    w: nat,
    h: nat,
    cw: nat,
    ch: nat,
    narrow: bool,
)
    requires
        w > 0,
        h > 0,
        fitting.denominator() > 0,
        narrow == (fitting.numerator() < cw * fitting.denominator()),
        error::is_about(fitting, ch * w, h, 5),
        error::is_about(scale, cw, w, 2),
    ensures
        !narrow ==> error::about_at_most(
            h * scale.numerator(),
            scale.denominator(),
            ch,
            1,
            16,
        ),
        narrow ==> error::about_at_most(
            ch,
            1,
            h * scale.numerator(),
            scale.denominator(),
            16,
        ),
{
    let (n, d) = (scale.numerator(), scale.denominator());
    let (a, b) = (fitting.numerator(), fitting.denominator());
    let p = error::parts();
    if !narrow {
        assert((cw * b) * h * p <= (ch * w) * b * (p + 5)) by (nonlinear_arith)
            requires
                a * h * p <= (ch * w) * b * (p + 5),
                cw * b <= a,
                h * p >= 0,
        ;
        assert(cw * h * p <= ch * w * (p + 5)) by (nonlinear_arith)
            requires
                (cw * b) * h * p <= (ch * w) * b * (p + 5),
                b > 0,
        ;
        error::lemma_slacks_add_up(n, d, cw, w, ch, h, 2, 5);
        assert(h * n * 1 * p == n * h * p) by (nonlinear_arith);
        error::lemma_more_slack(h * n, d, ch, 1, 8, 16);
    } else {
        assert((ch * w) * b * p <= (cw * b) * h * (p + 5)) by (nonlinear_arith)
            requires
                (ch * w) * b * p <= a * h * (p + 5),
                a <= cw * b,
                h * (p + 5) >= 0,
        ;
        assert(ch * w * p <= cw * h * (p + 5)) by (nonlinear_arith)
            requires
                (ch * w) * b * p <= (cw * b) * h * (p + 5),
                b > 0,
        ;
        error::lemma_slacks_add_up(ch, h, cw, w, n, d, 5, 2);
        assert(h * n * 1 * (p + 8) == n * h * (p + 8)) by (nonlinear_arith);
        error::lemma_more_slack(ch, 1, h * n, d, 8, 16);
    }
}

/// A rectangle with an even size inside the source stays as it is, and so does
/// the size of one that only starts too far to the right or too far down.
pub proof fn law_fitting_crops_stay(crop: CropRect, width: u32, height: u32, clamped: CropRect)
    requires
        crop.width >= 2 && crop.width % 2 == 0 && crop.left + crop.width <= width,
        crop.height >= 2 && crop.height % 2 == 0 && crop.top + crop.height <= height,
        call_ensures(CropRect::clamp_to, (&crop, width, height), clamped),
    ensures
        clamped == crop,
{
}

/// A clamped rectangle starts where it was asked to, unless no two pixels are
/// left there, and it is as large as it was asked to be and as the source allows.
pub proof fn law_clamped_crops_are_the_largest(
    crop: CropRect,
    width: u32,
    height: u32,
    clamped: CropRect,
)
    requires
        width >= 2 && height >= 2,
        call_ensures(CropRect::clamp_to, (&crop, width, height), clamped),
    ensures
        clamped.left == crop.left || (crop.left + 2 > width && clamped.left + 2 == width),
        clamped.top == crop.top || (crop.top + 2 > height && clamped.top + 2 == height),
        clamped.width <= crop.width || clamped.width == 2,
        clamped.height <= crop.height || clamped.height == 2,
        clamped.width + 1 >= crop.width || clamped.left + clamped.width + 1 >= width,
        clamped.height + 1 >= crop.height || clamped.top + clamped.height + 1 >= height,
{
}

/// A crop without a size takes the whole source, and every other crop is clamped
/// to it.
pub proof fn law_crops_without_a_size_take_everything(
    crop: CropRect,
    width: u32,
    height: u32,
    effective: CropRect,
    clamped: CropRect,
)
    requires
        width >= 2 && height >= 2,
        call_ensures(effective_crop, (&crop, width, height), effective),
        call_ensures(CropRect::clamp_to, (&crop, width, height), clamped),
    ensures
        crop.width == 0 || crop.height == 0 ==> effective.left == 0 && effective.top == 0
            && effective.width <= width < effective.width + 2 && effective.height <= height
            < effective.height + 2,
        crop.width > 0 && crop.height > 0 ==> effective == clamped,
{
}

/// A rectangle is full exactly when it holds every pixel of the source.
pub proof fn law_full_crops_hold_every_pixel(crop: CropRect, width: u32, height: u32, full: bool)
    requires
        width > 0 && height > 0,
        call_ensures(CropRect::is_full, (&crop, width, height), full),
    ensures
        full <==> forall|x: int, y: int|
            #![trigger crop_has(crop, x, y)]
            0 <= x < width && 0 <= y < height ==> crop_has(crop, x, y),
{
    if crop.left == 0 && crop.top == 0 && crop.width >= width && crop.height >= height {
    } else {
        assert(!crop_has(crop, 0, 0) || !crop_has(crop, width - 1, height - 1));
    }
}

/// Whether a rectangle holds a pixel.
pub open spec fn crop_has(crop: CropRect, x: int, y: int) -> bool {
    crop.left <= x < crop.left + crop.width && crop.top <= y < crop.top + crop.height
}

/// The fit modes follow each other from the default one on: contain, cover,
/// stretch, native.
pub proof fn law_fit_modes_have_an_order(first: FitMode, second: FitMode, third: FitMode)
    requires
        call_ensures(FitMode::next, (FitMode::Contain,), first),
        call_ensures(FitMode::next, (first,), second),
        call_ensures(FitMode::next, (second,), third),
    ensures
        first == FitMode::Cover,
        second == FitMode::Stretch,
        third == FitMode::Native,
{
}

/// The presets with a number of lines have that many lines and the shape of a
/// wide screen, `4k` has twice the sides of `1080p`, and `square` is one.
pub proof fn law_presets_have_their_shape(index: int)
    requires
        0 <= index < presets().len(),
    ensures
        ({
            let (name, size) = presets()[index];
            &&& name == "1080p"@ ==> size.height == 1080
            &&& name == "1440p"@ ==> size.height == 1440
            &&& name == "720p"@ ==> size.height == 720
            &&& name == "4k"@ ==> size.height == 2 * 1080
            &&& name == "square"@ ==> size.width == size.height && size.height == 1080
            &&& name == "native"@ ==> size.width == 0 && size.height == 0
            &&& name != "square"@ ==> size.width * 9 == size.height * 16
        }),
        presets().len() == 6,
{
    reveal_strlit("native");
    reveal_strlit("1080p");
    reveal_strlit("1440p");
    reveal_strlit("4k");
    reveal_strlit("720p");
    reveal_strlit("square");
    assert("native"@[0] == 'n' && "square"@[0] == 's' && "4k"@[0] == '4');
    assert("1080p"@[1] == '0' && "1440p"@[1] == '4' && "720p"@[0] == '7');
    assert("1080p"@[0] == '1' && "1440p"@[0] == '1');
}

/// A packed frame size holds both sides.
pub proof fn law_packed_sizes_hold_both_sides(width: u32, height: u32, packed: u64)
    requires
        call_ensures(packed_size, (width, height), packed),
    ensures
        packed / 0x1_0000_0000 == width,
        packed % 0x1_0000_0000 == height,
{
}

/// A monitor has the size of its rectangle, and only the one at the origin of
/// the desktop is the primary one.
pub proof fn law_monitors_have_their_rectangle(
    index: u32,
    name: String,
    left: i32,
    top: i32,
    right: i32,
    bottom: i32,
    monitor: Option<MonitorInfo>,
)
    requires
        call_ensures(monitor_at, (index, name, left, top, right, bottom), monitor),
    ensures
        monitor is None <==> right <= left || bottom <= top,
        monitor is Some ==> {
            let found = monitor->0;
            &&& found.index == index && found.name == name
            &&& found.left == left && found.left + found.width == right
            &&& found.top == top && found.top + found.height == bottom
            &&& found.primary <==> found.left == 0 && found.top == 0
        },
{
}

/// Video without options shows the whole screen inside its canvas, and its audio
/// has the same rate as an audio recording of the device.
pub proof fn law_video_defaults_keep_the_screen(
    mode: FitMode,
    crop: CropRect,
    source_rate: u32,
    rate: u32,
    other: u32,
)
    requires
        call_ensures(FitMode::default, (), mode),
        call_ensures(CropRect::default, (), crop),
        call_ensures(nearest_aac_rate, (source_rate,), rate),
        call_ensures(wave::desired_rate, (source_rate,), other),
    ensures
        mode == FitMode::Contain,
        crop.left == 0 && crop.top == 0 && crop.width == 0 && crop.height == 0,
        rate == other,
{
}

/// The length of a screen recording is its frames over its frame rate, to the
/// nearest nanosecond and up to the rounding of double precision.
pub proof fn law_video_lengths_are_close(summary: VideoSummary, duration: Duration)
    requires
        summary.fps > 0,
        call_ensures(VideoSummary::duration, (&summary,), duration),
    ensures
        ({
            let frames = summary.frames as nat;
            let rate = summary.fps as nat;
            &&& 2 * (duration@ * rate) * error::parts() <= 2 * (frames * 1_000_000_000) * (
            error::parts() + 5) + rate * error::parts()
            &&& 2 * (frames * 1_000_000_000) * error::parts() <= (2 * duration@ + 1) * rate * (
            error::parts() + 5)
        }),
{
    error::lemma_frame_lengths_are_close(summary.frames as nat, summary.fps as nat);
}

} // verus!
