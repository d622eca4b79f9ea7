//! Device formats, the stereo mix, and the encoder format.
//!
//! The playback device describes its samples in a wave format. This module
//! validates that description, assigns every source channel a place in the
//! stereo mix, decodes source samples, and selects the MP3 format that the
//! encoder uses. Gains are classes. The mixer turns a class into a number.
use vstd::arithmetic::power2;
use vstd::prelude::*;

use crate::audio::Profile;
use crate::sample::Sample;
use crate::text;

verus! {

/// The format tag of a description with an extension.
pub const TAG_EXTENSIBLE: u16 = 0xFFFE;

/// The format tag of floating-point samples.
pub const TAG_FLOAT: u16 = 3;

/// The format tag of integer samples.
pub const TAG_PCM: u16 = 1;

/// The size of a complete format extension in bytes.
pub const EXTENSION_BYTES: u16 = 22;

/// The largest number of source channels.
pub const MAX_CHANNELS: u16 = 32;

/// The sample type that a format extension names.
#[derive(Clone, Copy, Debug, PartialEq, Eq, Structural)]
pub enum SubFormat {
    /// Integer samples.
    Pcm,
    /// Floating-point samples.
    Float,
    /// Any other type.
    Other,
}

/// The extension of a wave format.
#[derive(Clone, Copy, Debug, PartialEq, Eq, Structural)]
pub struct WaveExtension {
    /// Meaningful bits in each sample, or zero for all of them.
    pub valid_bits: u16,
    /// Speaker positions of the channels.
    pub channel_mask: u32,
    /// Sample type.
    pub sub_format: SubFormat,
}

/// The wave format that a playback device reports.
#[derive(Clone, Copy, Debug, PartialEq, Eq, Structural)]
pub struct WaveFormat {
    /// Format tag.
    pub tag: u16,
    /// Number of interleaved channels.
    pub channels: u16,
    /// Frames per second.
    pub sample_rate: u32,
    /// Bytes between adjacent frames.
    pub block_align: u16,
    /// Bits reserved for each sample.
    pub bits_per_sample: u16,
    /// Bytes of the extension.
    pub extension_bytes: u16,
    /// The extension, when the tag calls for one and it is complete.
    pub extension: Option<WaveExtension>,
}

impl WaveFormat {
    /// Whether a complete extension was read.
    pub open spec fn wf(self) -> bool {
        self.tag == TAG_EXTENSIBLE && self.extension_bytes >= EXTENSION_BYTES
            ==> self.extension is Some
    }
}

/// Why a playback format cannot be recorded.
#[derive(Clone, Copy, Debug, PartialEq, Eq, Structural)]
pub enum FormatError {
    /// A basic property is zero or out of range.
    Invalid,
    /// The extension is too short.
    Truncated,
    /// The extension names an unknown sample type.
    UnsupportedSubtype,
    /// The format tag is unknown.
    UnsupportedTag(u16),
    /// The meaningful bits do not fit the reserved bits.
    InvalidDepth,
    /// Floating-point samples have an unknown width.
    UnsupportedFloatWidth(u16),
    /// Integer samples have an unknown width.
    UnsupportedPcmWidth(u16),
    /// A frame is shorter than its samples.
    InvalidAlignment,
}

/// The text of one hexadecimal digit.
pub open spec fn hex_digit(value: nat) -> char {
    if value < 10 {
        (48 + value) as char
    } else {
        (55 + value) as char
    }
}

/// The text of a tag with four hexadecimal digits.
pub open spec fn hex_text(tag: nat) -> Seq<char> {
    seq![
        hex_digit(tag / 4096 % 16),
        hex_digit(tag / 256 % 16),
        hex_digit(tag / 16 % 16),
        hex_digit(tag % 16),
    ]
}

/// Returns one hexadecimal digit.
fn hex_character(value: u16) -> (digit: char)
    requires
        value < 16,
    ensures
        digit == hex_digit(value as nat),
{
    let code: u8 = if value < 10 {
        48 + value as u8
    } else {
        55 + value as u8
    };
    code as char
}

impl FormatError {
    /// The message for the user.
    pub open spec fn text(self) -> Seq<char> {
        match self {
            FormatError::Invalid =>
                "the default playback device returned an invalid audio format"@,
            FormatError::Truncated =>
                "the playback device returned a truncated extensible audio format"@,
            FormatError::UnsupportedSubtype =>
                "the playback device uses an unsupported audio subtype"@,
            FormatError::UnsupportedTag(tag) => "unsupported Windows playback format tag: 0x"@
                + hex_text(tag as nat),
            FormatError::InvalidDepth =>
                "the playback device returned invalid sample bit depth"@,
            FormatError::UnsupportedFloatWidth(bits) =>
                "unsupported floating-point sample width: "@ + text::decimal(bits as nat),
            FormatError::UnsupportedPcmWidth(bits) => "unsupported PCM sample width: "@
                + text::decimal(bits as nat),
            FormatError::InvalidAlignment =>
                "the playback device returned an invalid frame alignment"@,
        }
    }

    /// Returns the message for the user.
    pub fn message(&self) -> (message: String)
        ensures
            message@ == self.text(),
    {
        match self {
            FormatError::Invalid => String::from_str(
                "the default playback device returned an invalid audio format",
            ),
            FormatError::Truncated => String::from_str(
                "the playback device returned a truncated extensible audio format",
            ),
            FormatError::UnsupportedSubtype => String::from_str(
                "the playback device uses an unsupported audio subtype",
            ),
            FormatError::UnsupportedTag(tag) => {
                let mut message = String::from_str("unsupported Windows playback format tag: 0x");
                message.push(hex_character(*tag / 4096 % 16));
                message.push(hex_character(*tag / 256 % 16));
                message.push(hex_character(*tag / 16 % 16));
                message.push(hex_character(*tag % 16));
                proof {
                    assert(message@ =~= self.text());
                }
                message
            },
            FormatError::InvalidDepth => String::from_str(
                "the playback device returned invalid sample bit depth",
            ),
            FormatError::UnsupportedFloatWidth(bits) => {
                let mut message = String::from_str("unsupported floating-point sample width: ");
                text::push_decimal(&mut message, *bits as u64);
                message
            },
            FormatError::UnsupportedPcmWidth(bits) => {
                let mut message = String::from_str("unsupported PCM sample width: ");
                text::push_decimal(&mut message, *bits as u64);
                message
            },
            FormatError::InvalidAlignment => String::from_str(
                "the playback device returned an invalid frame alignment",
            ),
        }
    }
}

/// The share of a source channel in one output channel.
#[derive(Clone, Copy, Debug, PartialEq, Eq, Structural)]
pub enum Gain {
    /// Nothing.
    Silent,
    /// The whole signal.
    Full,
    /// The signal divided by the square root of two.
    Surround,
    /// One half of the signal.
    Half,
    /// Three tenths of the signal.
    Low,
    /// Thirty-five hundredths of the signal.
    Other,
}

/// The left and right gains for one speaker position.
pub open spec fn speaker_gains(speaker: nat, channel: nat) -> (Gain, Gain) {
    if speaker == 0x1 {
        (Gain::Full, Gain::Silent)
    } else if speaker == 0x2 {
        (Gain::Silent, Gain::Full)
    } else if speaker == 0x4 {
        (Gain::Surround, Gain::Surround)
    } else if speaker == 0x8 {
        (Gain::Low, Gain::Low)
    } else if speaker == 0x10 || speaker == 0x200 || speaker == 0x40 || speaker == 0x1000
        || speaker == 0x8000 {
        (Gain::Surround, Gain::Silent)
    } else if speaker == 0x20 || speaker == 0x400 || speaker == 0x80 || speaker == 0x4000
        || speaker == 0x2_0000 {
        (Gain::Silent, Gain::Surround)
    } else if speaker == 0x100 || speaker == 0x800 || speaker == 0x2000 || speaker == 0x1_0000 {
        (Gain::Half, Gain::Half)
    } else if speaker == 0 && channel % 2 == 0 {
        (Gain::Half, Gain::Silent)
    } else if speaker == 0 {
        (Gain::Silent, Gain::Half)
    } else {
        (Gain::Other, Gain::Other)
    }
}

/// Returns left and right gains for one speaker position.
///
/// A channel without a speaker position goes to the side of its number.
pub fn speaker_coefficients(speaker: u32, channel: usize) -> (gains: (Gain, Gain))
    ensures
        gains == speaker_gains(speaker as nat, channel as nat),
{
    match speaker {
        0x1 => (Gain::Full, Gain::Silent),
        0x2 => (Gain::Silent, Gain::Full),
        0x4 => (Gain::Surround, Gain::Surround),
        0x8 => (Gain::Low, Gain::Low),
        0x10 | 0x200 | 0x40 | 0x1000 | 0x8000 => (Gain::Surround, Gain::Silent),
        0x20 | 0x400 | 0x80 | 0x4000 | 0x2_0000 => (Gain::Silent, Gain::Surround),
        0x100 | 0x800 | 0x2000 | 0x1_0000 => (Gain::Half, Gain::Half),
        0 => if channel % 2 == 0 {
            (Gain::Half, Gain::Silent)
        } else {
            (Gain::Silent, Gain::Half)
        },
        _ => (Gain::Other, Gain::Other),
    }
}

/// The lowest speaker position in a mask, and zero for an empty mask.
pub open spec fn lowest_speaker(mask: nat) -> nat
    decreases mask,
{
    if mask == 0 {
        0
    } else if mask % 2 == 1 {
        1
    } else {
        2 * lowest_speaker(mask / 2)
    }
}

/// The speaker position of a channel: channels take positions from the lowest.
pub open spec fn speaker_at(mask: nat, channel: nat) -> nat
    decreases channel,
{
    if channel == 0 {
        lowest_speaker(mask)
    } else {
        speaker_at((mask - lowest_speaker(mask)) as nat, (channel - 1) as nat)
    }
}

/// The gains of one channel.
pub open spec fn channel_gains(channels: nat, mask: nat, channel: nat) -> (Gain, Gain) {
    if channels == 1 {
        (Gain::Full, Gain::Full)
    } else if mask != 0 {
        speaker_gains(speaker_at(mask, channel), channel)
    } else if channel == 0 {
        (Gain::Full, Gain::Silent)
    } else if channel == 1 {
        (Gain::Silent, Gain::Full)
    } else {
        speaker_gains(0, channel)
    }
}

/// Returns the lowest speaker position in a mask.
fn find_lowest_speaker(mask: u32) -> (speaker: u32)
    ensures
        speaker == lowest_speaker(mask as nat),
        speaker <= mask,
    decreases mask,
{
    if mask == 0 {
        0
    } else if mask % 2 == 1 {
        1
    } else {
        2 * find_lowest_speaker(mask / 2)
    }
}

/// Builds the left and right gains of every channel from a speaker mask.
pub fn build_mix_matrix(channels: usize, channel_mask: u32) -> (gains: Vec<(Gain, Gain)>)
    ensures
        gains@.len() == channels,
        forall|c: int|
            0 <= c < channels ==> #[trigger] gains@[c] == channel_gains(
                channels as nat,
                channel_mask as nat,
                c as nat,
            ),
{
    let mut gains: Vec<(Gain, Gain)> = Vec::new();
    let mut remaining: u32 = channel_mask;
    let mut channel: usize = 0;
    proof {
        assert forall|c: nat| #[trigger]
            speaker_at(channel_mask as nat, c) == speaker_at(remaining as nat, (c - 0) as nat) by {}
    }
    while channel < channels
        invariant
            channel <= channels,
            gains@.len() == channel,
            forall|c: nat|
                c >= channel ==> #[trigger] speaker_at(channel_mask as nat, c) == speaker_at(
                    remaining as nat,
                    (c - channel) as nat,
                ),
            forall|c: int|
                0 <= c < channel ==> #[trigger] gains@[c] == channel_gains(
                    channels as nat,
                    channel_mask as nat,
                    c as nat,
                ),
        decreases channels - channel,
    {
        let speaker: u32 = find_lowest_speaker(remaining);
        proof {
            assert(speaker_at(channel_mask as nat, channel as nat) == speaker_at(
                remaining as nat,
                0,
            ));
        }
        if channels == 1 {
            gains.push((Gain::Full, Gain::Full));
        } else if channel_mask != 0 {
            gains.push(speaker_coefficients(speaker, channel));
        } else if channel == 0 {
            gains.push((Gain::Full, Gain::Silent));
        } else if channel == 1 {
            gains.push((Gain::Silent, Gain::Full));
        } else {
            gains.push(speaker_coefficients(0, channel));
        }
        let ghost before = remaining;
        remaining = remaining - speaker;
        proof {
            assert forall|c: nat| c >= channel + 1 implies #[trigger] speaker_at(
                channel_mask as nat,
                c,
            ) == speaker_at(remaining as nat, (c - (channel + 1)) as nat) by {
                assert(speaker_at(channel_mask as nat, c) == speaker_at(
                    before as nat,
                    (c - channel) as nat,
                ));
                assert(((c - channel) as nat - 1) as nat == (c - (channel + 1)) as nat);
            }
        }
        channel += 1;
    }
    gains
}

/// Describes the device sample layout and its stereo mix.
#[derive(Debug)]
pub struct SourceFormat {
    /// Number of interleaved source channels.
    pub channels: usize,
    /// Source frames per second.
    pub sample_rate: u32,
    /// Bytes between adjacent source frames.
    pub block_align: usize,
    /// Bits reserved for each source sample.
    pub container_bits: u16,
    /// Meaningful bits in each integer sample.
    pub valid_bits: u16,
    /// Whether samples are floating-point numbers.
    pub float: bool,
    /// Left and right gains of every source channel.
    pub gains: Vec<(Gain, Gain)>,
}

impl SourceFormat {
    /// Every property is in range, and a frame holds all of its samples.
    pub open spec fn wf(self) -> bool {
        &&& 1 <= self.channels <= MAX_CHANNELS
        &&& self.sample_rate > 0
        &&& self.float ==> self.container_bits == 32 || self.container_bits == 64
        &&& !self.float ==> self.container_bits == 8 || self.container_bits == 16
            || self.container_bits == 24 || self.container_bits == 32
        &&& 1 <= self.valid_bits <= self.container_bits
        &&& self.channels * (self.container_bits / 8) <= self.block_align <= u16::MAX
        &&& self.gains@.len() == self.channels
    }
}

/// The meaningful bits that a wave format names.
pub open spec fn named_valid_bits(wave: WaveFormat) -> nat {
    if wave.tag == TAG_EXTENSIBLE && wave.extension->0.valid_bits != 0 {
        wave.extension->0.valid_bits as nat
    } else {
        wave.bits_per_sample as nat
    }
}

/// Whether a wave format names floating-point samples.
pub open spec fn names_float(wave: WaveFormat) -> bool {
    ||| wave.tag == TAG_FLOAT
    ||| wave.tag == TAG_EXTENSIBLE && wave.extension->0.sub_format == SubFormat::Float
}

/// The first problem of a wave format, in the order of the checks.
pub open spec fn format_problem(wave: WaveFormat) -> Option<FormatError> {
    let bits = wave.bits_per_sample;
    if wave.channels == 0 || wave.channels > MAX_CHANNELS || wave.sample_rate == 0
        || wave.block_align == 0 || bits == 0 {
        Some(FormatError::Invalid)
    } else if wave.tag == TAG_EXTENSIBLE && wave.extension_bytes < EXTENSION_BYTES {
        Some(FormatError::Truncated)
    } else if wave.tag == TAG_EXTENSIBLE && wave.extension->0.sub_format == SubFormat::Other {
        Some(FormatError::UnsupportedSubtype)
    } else if wave.tag != TAG_EXTENSIBLE && wave.tag != TAG_FLOAT && wave.tag != TAG_PCM {
        Some(FormatError::UnsupportedTag(wave.tag))
    } else if named_valid_bits(wave) > bits {
        Some(FormatError::InvalidDepth)
    } else if names_float(wave) && bits != 32 && bits != 64 {
        Some(FormatError::UnsupportedFloatWidth(bits))
    } else if !names_float(wave) && bits != 8 && bits != 16 && bits != 24 && bits != 32 {
        Some(FormatError::UnsupportedPcmWidth(bits))
    } else if wave.block_align < wave.channels * (bits / 8) {
        Some(FormatError::InvalidAlignment)
    } else {
        None
    }
}

/// The speaker mask that a wave format names.
pub open spec fn named_mask(wave: WaveFormat) -> nat {
    if wave.tag == TAG_EXTENSIBLE {
        wave.extension->0.channel_mask as nat
    } else {
        0
    }
}

impl SourceFormat {
    /// Validates a wave format and creates its stereo mix.
    pub fn from_wave(wave: &WaveFormat) -> (result: Result<SourceFormat, FormatError>)
        requires
            wave.wf(),
        ensures
            result is Err <==> format_problem(*wave) is Some,
            result is Err ==> result->Err_0 == format_problem(*wave)->0,
            result is Ok ==> {
                let format = result->Ok_0;
                &&& format.wf()
                &&& format.channels == wave.channels
                &&& format.sample_rate == wave.sample_rate
                &&& format.block_align == wave.block_align
                &&& format.container_bits == wave.bits_per_sample
                &&& format.valid_bits == named_valid_bits(*wave)
                &&& format.float == names_float(*wave)
                &&& forall|c: int|
                    0 <= c < wave.channels ==> #[trigger] format.gains@[c] == channel_gains(
                        wave.channels as nat,
                        named_mask(*wave),
                        c as nat,
                    )
            },
    {
        let bits: u16 = wave.bits_per_sample;
        if wave.channels == 0 || wave.channels > MAX_CHANNELS || wave.sample_rate == 0
            || wave.block_align == 0 || bits == 0 {
            return Err(FormatError::Invalid);
        }
        let mut valid_bits: u16 = bits;
        let mut float = false;
        let mut channel_mask: u32 = 0;
        if wave.tag == TAG_EXTENSIBLE {
            if wave.extension_bytes < EXTENSION_BYTES {
                return Err(FormatError::Truncated);
            }
            match wave.extension {
                None => {},
                Some(extension) => {
                    if extension.valid_bits != 0 {
                        valid_bits = extension.valid_bits;
                    }
                    channel_mask = extension.channel_mask;
                    match extension.sub_format {
                        SubFormat::Float => {
                            float = true;
                        },
                        SubFormat::Pcm => {},
                        SubFormat::Other => {
                            return Err(FormatError::UnsupportedSubtype);
                        },
                    }
                },
            }
        } else if wave.tag == TAG_FLOAT {
            float = true;
        } else if wave.tag != TAG_PCM {
            return Err(FormatError::UnsupportedTag(wave.tag));
        }
        if valid_bits > bits {
            return Err(FormatError::InvalidDepth);
        }
        if float && bits != 32 && bits != 64 {
            return Err(FormatError::UnsupportedFloatWidth(bits));
        }
        if !float && bits != 8 && bits != 16 && bits != 24 && bits != 32 {
            return Err(FormatError::UnsupportedPcmWidth(bits));
        }
        proof {
            assert(wave.channels * (bits / 8) <= 32 * 8) by (nonlinear_arith)
                requires
                    wave.channels <= 32,
                    bits <= 64,
            ;
        }
        if wave.block_align < wave.channels * (bits / 8) {
            return Err(FormatError::InvalidAlignment);
        }
        let gains = build_mix_matrix(wave.channels as usize, channel_mask);
        Ok(
            SourceFormat {
                channels: wave.channels as usize,
                sample_rate: wave.sample_rate,
                block_align: wave.block_align as usize,
                container_bits: bits,
                valid_bits,
                float,
                gains,
            },
        )
    }
}

/// One decoded source sample.
#[derive(Clone, Copy, Debug, PartialEq, Eq, Structural)]
pub enum RawSample {
    /// A whole number, in units where a full-scale signal has so many bits.
    Integer {
        /// Signed value.
        value: i32,
        /// Power of two of full scale.
        scale_bits: u16,
    },
    /// A single-precision number, limited to full scale.
    Single(Sample),
    /// The bit pattern of a double-precision number.
    Double(u64),
}

/// The number that bytes spell, least significant byte first.
pub open spec fn little_endian(bytes: Seq<u8>) -> nat
    decreases bytes.len(),
{
    if bytes.len() == 0 {
        0
    } else {
        bytes.first() as nat + 256 * little_endian(bytes.drop_first())
    }
}

/// The signed number that bytes spell in two's complement.
pub open spec fn signed_little_endian(bytes: Seq<u8>) -> int {
    let number = little_endian(bytes);
    let span = power2::pow2((8 * bytes.len()) as nat);
    if 2 * number >= span {
        number - span
    } else {
        number as int
    }
}

impl SourceFormat {
    /// The sample that bytes hold in this format.
    pub open spec fn decoded(self, bytes: Seq<u8>) -> RawSample {
        if self.float && self.container_bits == 32 {
            RawSample::Single((Sample { bits: little_endian(bytes) as u32 }).clamped())
        } else if self.float {
            RawSample::Double(little_endian(bytes) as u64)
        } else if self.container_bits == 8 {
            RawSample::Integer { value: (bytes[0] - 128) as i32, scale_bits: 7 }
        } else {
            RawSample::Integer {
                value: (signed_little_endian(bytes) / power2::pow2(
                    (self.container_bits - self.valid_bits) as nat,
                ) as int) as i32,
                scale_bits: (self.valid_bits - 1) as u16,
            }
        }
    }

    /// The bytes of one sample in a packet.
    pub open spec fn sample_bytes(self, bytes: Seq<u8>, frame: nat, channel: nat) -> Seq<u8> {
        let width = (self.container_bits / 8) as nat;
        let start = frame * self.block_align as nat + channel * width;
        bytes.subrange(start as int, (start + width) as int)
    }
}

/// Divides by a power of two and rounds toward the lower number.
fn halved_repeatedly(value: i64, places: u32) -> (result: i64)
    requires
        -0x8000_0000 <= value < 0x8000_0000,
        places <= 31,
    ensures
        result == value as int / power2::pow2(places as nat) as int,
        -0x8000_0000 <= result < 0x8000_0000,
{
    let biased: u64 = (value + 0x8000_0000) as u64;
    let mut quotient: u64 = biased;
    let mut offset: u64 = 0x8000_0000;
    let mut done: u32 = 0;
    proof {
        power2::lemma2_to64();
        assert(biased as int / 1 == biased);
    }
    while done < places
        invariant
            done <= places <= 31,
            quotient == biased as int / power2::pow2(done as nat) as int,
            quotient <= biased < 0x1_0000_0000,
            offset == power2::pow2((31 - done) as nat),
            offset <= 0x8000_0000,
        decreases places - done,
    {
        proof {
            power2::lemma_pow2_unfold((done + 1) as nat);
            power2::lemma_pow2_unfold((31 - done) as nat);
            power2::lemma_pow2_pos(done as nat);
            let scale = power2::pow2(done as nat) as int;
            vstd::arithmetic::div_mod::lemma_div_denominator(biased as int, scale, 2);
            assert(scale * 2 == 2 * scale);
        }
        quotient = quotient / 2;
        offset = offset / 2;
        done += 1;
    }
    proof {
        let scale = power2::pow2(places as nat);
        power2::lemma_pow2_pos(places as nat);
        power2::lemma_pow2_adds((31 - places) as nat, places as nat);
        power2::lemma2_to64();
        vstd::arithmetic::div_mod::lemma_hoist_over_denominator(
            value as int,
            offset as int,
            scale,
        );
        assert(-0x8000_0000 <= value as int / scale as int) by (nonlinear_arith)
            requires
                -0x8000_0000 <= value,
                scale >= 1,
        ;
        assert(value as int / (scale as int) < 0x8000_0000) by (nonlinear_arith)
            requires
                value < 0x8000_0000,
                scale >= 1,
        ;
    }
    quotient as i64 - offset as i64
}

/// Reads a signed number from up to four bytes.
fn read_signed(bytes: &[u8], start: usize, width: usize) -> (value: i64)
    requires
        1 <= width <= 4,
        start + width <= bytes@.len(),
    ensures
        value == signed_little_endian(bytes@.subrange(start as int, start + width)),
        -0x8000_0000 <= value < 0x8000_0000,
{
    let number: u64 = read_unsigned(bytes, start, width);
    let ghost piece = bytes@.subrange(start as int, start + width);
    proof {
        power2::lemma2_to64();
    }
    let span: u64 = match width {
        1 => 0x100,
        2 => 0x1_0000,
        3 => 0x100_0000,
        _ => 0x1_0000_0000,
    };
    proof {
        assert(span == power2::pow2((8 * piece.len()) as nat));
    }
    if number >= span / 2 {
        number as i64 - span as i64
    } else {
        number as i64
    }
}

/// The number that bytes spell stays below its span.
proof fn lemma_little_endian_is_below(bytes: Seq<u8>)
    ensures
        little_endian(bytes) < power2::pow2((8 * bytes.len()) as nat),
    decreases bytes.len(),
{
    power2::lemma2_to64();
    if bytes.len() > 0 {
        let rest = bytes.drop_first();
        lemma_little_endian_is_below(rest);
        power2::lemma_pow2_adds(8, (8 * rest.len()) as nat);
    }
}

/// Reads an unsigned number from up to eight bytes.
fn read_unsigned(bytes: &[u8], start: usize, width: usize) -> (value: u64)
    requires
        width <= 8,
        start + width <= bytes@.len(),
    ensures
        value == little_endian(bytes@.subrange(start as int, start + width)),
        value < power2::pow2((8 * width) as nat),
    decreases width,
{
    let ghost piece = bytes@.subrange(start as int, start + width);
    proof {
        lemma_little_endian_is_below(piece);
        power2::lemma2_to64();
    }
    let length: usize = bytes.len();
    if width == 0 || start >= length {
        return 0;
    }
    let rest: u64 = read_unsigned(bytes, start + 1, width - 1);
    proof {
        assert(piece.drop_first() =~= bytes@.subrange(start + 1, start + width));
        power2::lemma_pow2_adds(8, (8 * (width - 1)) as nat);
        if width < 8 {
            power2::lemma_pow2_strictly_increases((8 * width) as nat, 64);
        }
        assert(256 * rest < power2::pow2(64));
    }
    bytes[start] as u64 + 256 * rest
}

impl SourceFormat {
    /// Decodes one integer or floating-point source sample.
    pub fn read_sample(&self, bytes: &[u8], start: usize) -> (sample: RawSample)
        requires
            self.wf(),
            start + self.container_bits / 8 <= bytes@.len(),
        ensures
            sample == self.decoded(
                bytes@.subrange(start as int, start + self.container_bits / 8),
            ),
    {
        let width: usize = (self.container_bits / 8) as usize;
        proof {
            power2::lemma2_to64();
        }
        if self.float {
            let bits: u64 = read_unsigned(bytes, start, width);
            if width == 4 {
                RawSample::Single((Sample { bits: bits as u32 }).finite_sample())
            } else {
                RawSample::Double(bits)
            }
        } else if self.container_bits == 8 {
            RawSample::Integer { value: bytes[start] as i32 - 128, scale_bits: 7 }
        } else {
            let number: i64 = read_signed(bytes, start, width);
            let value: i64 = halved_repeatedly(
                number,
                (self.container_bits - self.valid_bits) as u32,
            );
            RawSample::Integer { value: value as i32, scale_bits: self.valid_bits - 1 }
        }
    }

    /// Decodes every sample of one source frame, or nothing for a silent packet.
    pub fn frame_samples(&self, bytes: Option<&[u8]>, frame: usize, silent: bool) -> (samples:
        Option<Vec<RawSample>>)
        requires
            self.wf(),
            !silent && bytes is Some ==> (frame + 1) * self.block_align <= bytes->0@.len(),
        ensures
            samples is Some <==> !silent && bytes is Some,
            samples is Some ==> samples->0@.len() == self.channels && forall|c: int|
                0 <= c < self.channels ==> #[trigger] samples->0@[c] == self.decoded(
                    self.sample_bytes(bytes->0@, frame as nat, c as nat),
                ),
    {
        if silent {
            return None;
        }
        let bytes = match bytes {
            None => {
                return None;
            },
            Some(bytes) => bytes,
        };
        let width: usize = (self.container_bits / 8) as usize;
        let length: usize = bytes.len();
        proof {
            assert(length == bytes@.len());
            assert((frame + 1) * self.block_align == frame * self.block_align + self.block_align)
                by (nonlinear_arith);
            assert(0 <= frame * self.block_align) by (nonlinear_arith);
        }
        let frame_start: usize = frame * self.block_align;
        let mut samples: Vec<RawSample> = Vec::new();
        let mut channel: usize = 0;
        while channel < self.channels
            invariant
                self.wf(),
                channel <= self.channels,
                width == self.container_bits / 8,
                frame_start == frame * self.block_align,
                frame_start + self.block_align <= length,
                length == bytes@.len(),
                samples@.len() == channel,
                forall|c: int|
                    0 <= c < channel ==> #[trigger] samples@[c] == self.decoded(
                        self.sample_bytes(bytes@, frame as nat, c as nat),
                    ),
            decreases self.channels - channel,
        {
            proof {
                assert(channel * width + width <= self.channels * width) by (nonlinear_arith)
                    requires
                        channel + 1 <= self.channels,
                ;
                assert(0 <= channel * width) by (nonlinear_arith);
            }
            samples.push(self.read_sample(bytes, frame_start + channel * width));
            channel += 1;
        }
        Some(samples)
    }
}

/// An integer sample never exceeds full scale: its value has no more
/// meaningful bits than its scale.
pub proof fn law_integer_samples_stay_within_full_scale(format: SourceFormat, bytes: Seq<u8>)
    requires
        format.wf(),
        !format.float,
        bytes.len() == format.container_bits / 8,
    ensures
        ({
            let sample = format.decoded(bytes);
            &&& sample is Integer
            &&& -(power2::pow2(sample->scale_bits as nat) as int) <= sample->value
            &&& sample->value < power2::pow2(sample->scale_bits as nat)
        }),
{
    power2::lemma2_to64();
    lemma_little_endian_is_below(bytes);
    if format.container_bits > 8 {
        let bits = format.container_bits as nat;
        let valid = format.valid_bits as nat;
        let number = signed_little_endian(bytes);
        let half = power2::pow2((bits - 1) as nat) as int;
        let scale = power2::pow2((bits - valid) as nat) as int;
        let limit = power2::pow2((valid - 1) as nat) as int;
        power2::lemma_pow2_unfold(bits);
        power2::lemma_pow2_adds((bits - valid) as nat, (valid - 1) as nat);
        power2::lemma_pow2_pos((bits - valid) as nat);
        power2::lemma_pow2_pos((valid - 1) as nat);
        assert((bits - valid) as nat + (valid - 1) as nat == (bits - 1) as nat);
        assert(8 * bytes.len() == bits);
        assert(-half <= number < half);
        assert(-limit <= number / scale && number / scale < limit) by (nonlinear_arith)
            requires
                -half <= number < half,
                half == scale * limit,
                scale > 0,
        ;
        if bits - 1 < 31 {
            power2::lemma_pow2_strictly_increases((bits - 1) as nat, 31);
        }
        if valid - 1 < 31 {
            power2::lemma_pow2_strictly_increases((valid - 1) as nat, 31);
        }
    }
}

/// An output format that the MP3 encoder lists.
#[derive(Clone, Copy, Debug, PartialEq, Eq, Structural)]
pub struct EncoderOffer {
    /// Number of channels.
    pub channels: u32,
    /// Frames per second.
    pub sample_rate: u32,
    /// Average bytes per second.
    pub bytes_per_second: u32,
}

/// The distance between two rates.
pub open spec fn rate_distance(left: nat, right: nat) -> nat {
    if left < right {
        (right - left) as nat
    } else {
        (left - right) as nat
    }
}

/// The MP3 rate that suits a source rate.
pub open spec fn suitable_rate(source_rate: nat) -> nat {
    if rate_distance(source_rate, 44_100) < rate_distance(source_rate, 48_000) {
        44_100
    } else {
        48_000
    }
}

impl EncoderOffer {
    /// The bit rate of the offer in bits per second.
    pub open spec fn bitrate(self) -> nat {
        if self.bytes_per_second * 8 > u32::MAX {
            u32::MAX as nat
        } else {
            (self.bytes_per_second * 8) as nat
        }
    }

    /// Whether the offer is stereo, in the MP3 rate range, and within the request.
    pub open spec fn is_eligible(self, requested: nat) -> bool {
        &&& self.channels == 2
        &&& 32_000 <= self.sample_rate <= 48_000
        &&& self.bitrate() <= requested
    }

    /// The rank of the offer: first the bit rate, then the fit of the rate.
    pub open spec fn score(self, desired_rate: nat) -> int {
        let preference: int = if self.sample_rate == desired_rate {
            10_000
        } else if self.sample_rate == 48_000 {
            5_000
        } else {
            0
        };
        self.bitrate() * 100_000 + preference - rate_distance(
            self.sample_rate as nat,
            desired_rate,
        )
    }

    /// Returns the bit rate of the offer in bits per second.
    pub fn bits_per_second(&self) -> (bitrate: u32)
        ensures
            bitrate == self.bitrate(),
    {
        if self.bytes_per_second > u32::MAX / 8 {
            u32::MAX
        } else {
            self.bytes_per_second * 8
        }
    }

    /// Returns the rank of the offer.
    fn rank(&self, desired_rate: u32) -> (score: i64)
        requires
            desired_rate <= 48_000,
        ensures
            score == self.score(desired_rate as nat),
    {
        let preference: i64 = if self.sample_rate == desired_rate {
            10_000
        } else if self.sample_rate == 48_000 {
            5_000
        } else {
            0
        };
        let distance: u32 = if self.sample_rate < desired_rate {
            desired_rate - self.sample_rate
        } else {
            self.sample_rate - desired_rate
        };
        self.bits_per_second() as i64 * 100_000 + preference - distance as i64
    }
}

/// Whether an offer is the one to use: eligible, ranked at least as high as
/// every eligible offer, and higher than every eligible offer in front of it.
pub open spec fn is_best_offer(
    offers: Seq<EncoderOffer>,
    source_rate: nat,
    requested: nat,
    index: int,
) -> bool {
    let desired = suitable_rate(source_rate);
    &&& 0 <= index < offers.len()
    &&& offers[index].is_eligible(requested)
    &&& forall|i: int|
        0 <= i < offers.len() && (#[trigger] offers[i]).is_eligible(requested)
            ==> offers[i].score(desired) <= offers[index].score(desired)
    &&& forall|i: int|
        0 <= i < index && (#[trigger] offers[i]).is_eligible(requested) ==> offers[i].score(
            desired,
        ) < offers[index].score(desired)
}

/// Whether no offer is eligible.
pub open spec fn none_is_eligible(offers: Seq<EncoderOffer>, requested: nat) -> bool {
    forall|i: int|
        0 <= i < offers.len() ==> !(#[trigger] offers[i]).is_eligible(requested)
}

/// Returns the encoder rate that suits a source rate.
pub fn desired_rate(source_rate: u32) -> (rate: u32)
    ensures
        rate == suitable_rate(source_rate as nat),
{
    let near_low: u32 = if source_rate < 44_100 {
        44_100 - source_rate
    } else {
        source_rate - 44_100
    };
    let near_high: u32 = if source_rate < 48_000 {
        48_000 - source_rate
    } else {
        source_rate - 48_000
    };
    if near_low < near_high {
        44_100
    } else {
        48_000
    }
}

/// Selects the closest stereo MP3 format at or below the requested bit rate.
pub fn select_mp3_type(
    offers: &Vec<EncoderOffer>,
    source_rate: u32,
    requested_bitrate: u32,
) -> (selected: Option<(usize, Profile)>)
    ensures
        selected is None <==> forall|i: int|
            0 <= i < offers@.len() ==> !(#[trigger] offers@[i]).is_eligible(
                requested_bitrate as nat,
            ),
        selected is None <==> none_is_eligible(offers@, requested_bitrate as nat),
        selected is Some ==> {
            let (index, profile) = selected->0;
            &&& is_best_offer(
                offers@,
                source_rate as nat,
                requested_bitrate as nat,
                index as int,
            )
            &&& profile.sample_rate == offers@[index as int].sample_rate
            &&& profile.bitrate == offers@[index as int].bitrate()
        },
{
    let desired_rate: u32 = desired_rate(source_rate);
    let ghost desired = suitable_rate(source_rate as nat);
    let ghost requested = requested_bitrate as nat;
    let mut best: Option<(usize, i64)> = None;
    let mut index: usize = 0;
    while index < offers.len()
        invariant
            index <= offers.len(),
            desired_rate == desired,
            desired_rate <= 48_000,
            requested == requested_bitrate,
            best is None ==> forall|i: int|
                0 <= i < index ==> !(#[trigger] offers@[i]).is_eligible(requested),
            best is Some ==> {
                let chosen = (best->0).0 as int;
                &&& 0 <= chosen < index
                &&& offers@[chosen].is_eligible(requested)
                &&& (best->0).1 == offers@[chosen].score(desired)
                &&& forall|i: int|
                    0 <= i < index && (#[trigger] offers@[i]).is_eligible(requested)
                        ==> offers@[i].score(desired) <= (best->0).1
                &&& forall|i: int|
                    0 <= i < chosen && (#[trigger] offers@[i]).is_eligible(requested)
                        ==> offers@[i].score(desired) < (best->0).1
            },
        decreases offers.len() - index,
    {
        let offer = &offers[index];
        let bitrate: u32 = offer.bits_per_second();
        if offer.channels == 2 && 32_000 <= offer.sample_rate && offer.sample_rate <= 48_000
            && bitrate <= requested_bitrate {
            let score: i64 = offer.rank(desired_rate);
            let better = match best {
                None => true,
                Some((_, best_score)) => score > best_score,
            };
            if better {
                best = Some((index, score));
            }
        }
        index += 1;
    }
    match best {
        None => None,
        Some((chosen, _)) => {
            let offer = &offers[chosen];
            Some(
                (
                    chosen,
                    Profile { sample_rate: offer.sample_rate, bitrate: offer.bits_per_second() },
                ),
            )
        },
    }
}

/// The message for a request that no offer meets.
pub open spec fn no_profile_text(requested: nat) -> Seq<char> {
    "Windows has no stereo MP3 profile at or below "@ + text::decimal(requested) + " bps"@
}

/// Returns the message for a request that no offer meets.
pub fn no_profile_message(requested_bitrate: u32) -> (message: String)
    ensures
        message@ == no_profile_text(requested_bitrate as nat),
{
    let mut message = String::from_str("Windows has no stereo MP3 profile at or below ");
    text::push_decimal(&mut message, requested_bitrate as u64);
    message.append(" bps");
    message
}

/// A selected format never exceeds the requested bit rate, and no other format
/// within the request has a higher bit rate.
pub proof fn law_selected_bitrate_is_the_highest_within_the_request(
    offers: Seq<EncoderOffer>,
    source_rate: nat,
    requested: nat,
    index: int,
    other: int,
)
    requires
        is_best_offer(offers, source_rate, requested, index),
        0 <= other < offers.len(),
        offers[other].is_eligible(requested),
    ensures
        offers[other].bitrate() <= offers[index].bitrate() <= requested,
{
}

/// The encoder time of a frame count, in units of 100 nanoseconds.
pub open spec fn encoder_time(frames: nat, sample_rate: nat) -> nat {
    frames * 10_000_000 / sample_rate
}

/// A time as the encoder takes it: the lowest 64 bits, with a sign.
pub open spec fn wrapped_time(units: nat) -> int {
    let low = units % 0x1_0000_0000_0000_0000;
    if low <= i64::MAX {
        low as int
    } else {
        low - 0x1_0000_0000_0000_0000
    }
}

/// Returns a time as the encoder takes it.
pub fn wrap_time(units: u128) -> (time: i64)
    ensures
        time == wrapped_time(units as nat),
{
    let low: u64 = (units % 0x1_0000_0000_0000_0000) as u64;
    if low <= 0x7FFF_FFFF_FFFF_FFFF {
        low as i64
    } else {
        (low - 0x8000_0000_0000_0000) as i64 + i64::MIN
    }
}

/// Converts frames to encoder time units of 100 nanoseconds.
///
/// A time beyond the signed range wraps around.
pub fn media_time(frames: u64, sample_rate: u32) -> (time: i64)
    requires
        sample_rate > 0,
        frames * 10_000_000 <= u64::MAX,
    ensures
        time == wrapped_time(encoder_time(frames as nat, sample_rate as nat)),
{
    let units: u64 = frames * 10_000_000 / sample_rate as u64;
    wrap_time(units as u128)
}

/// Encoder times are contiguous: the time behind a block is the time in front
/// of the next one, and it never runs backward.
pub proof fn law_media_times_never_run_backward(frames: nat, more: nat, sample_rate: nat)
    requires
        sample_rate > 0,
    ensures
        encoder_time(frames, sample_rate) <= encoder_time(frames + more, sample_rate),
{
    vstd::arithmetic::div_mod::lemma_div_is_ordered(
        (frames * 10_000_000) as int,
        ((frames + more) * 10_000_000) as int,
        sample_rate as int,
    );
}

/// A whole number of seconds of frames takes exactly that time.
pub proof fn law_whole_seconds_have_exact_media_time(seconds: nat, sample_rate: nat)
    requires
        sample_rate > 0,
    ensures
        encoder_time(seconds * sample_rate, sample_rate) == seconds * 10_000_000,
{
    assert(seconds * sample_rate * 10_000_000 == (seconds * 10_000_000) * sample_rate)
        by (nonlinear_arith);
    vstd::arithmetic::div_mod::lemma_div_multiples_vanish(
        (seconds * 10_000_000) as int,
        sample_rate as int,
    );
}

/// Whether two speaker positions mirror each other, the first one on the left:
/// front, back, front of center, side, top front, and top back.
pub open spec fn are_partners(left: u32, right: u32) -> bool {
    ||| left == 0x1 && right == 0x2
    ||| left == 0x10 && right == 0x20
    ||| left == 0x40 && right == 0x80
    ||| left == 0x200 && right == 0x400
    ||| left == 0x1000 && right == 0x4000
    ||| left == 0x8000 && right == 0x2_0000
}

/// Whether a speaker stands in the middle: front center, low frequency, back
/// center, top center, top front center, and top back center.
pub open spec fn is_central(speaker: u32) -> bool {
    ||| speaker == 0x4
    ||| speaker == 0x8
    ||| speaker == 0x100
    ||| speaker == 0x800
    ||| speaker == 0x2000
    ||| speaker == 0x1_0000
}

/// The share of the power of a signal that a gain passes, in parts of 400. It
/// is the square of the gain.
pub open spec fn power_share(gain: Gain) -> nat {
    match gain {
        Gain::Silent => 0,
        Gain::Full => 400,
        Gain::Surround => 200,
        Gain::Half => 100,
        Gain::Low => 36,
        Gain::Other => 49,
    }
}

/// The power that reaches both outputs.
pub open spec fn total_power(gains: (Gain, Gain)) -> nat {
    power_share(gains.0) + power_share(gains.1)
}

/// A speaker on the left is heard in the left output alone, and its partner on
/// the right is its mirror image.
pub proof fn law_speakers_play_on_their_side(
    left: u32,
    right: u32,
    one: usize,
    other: usize,
    left_gains: (Gain, Gain),
    right_gains: (Gain, Gain),
)
    requires
        are_partners(left, right),
        call_ensures(speaker_coefficients, (left, one), left_gains),
        call_ensures(speaker_coefficients, (right, other), right_gains),
    ensures
        left_gains.0 != Gain::Silent,
        left_gains.1 == Gain::Silent,
        right_gains.1 == left_gains.0,
        right_gains.0 == Gain::Silent,
{
}

/// A central speaker, and one whose place is unknown, is heard equally in both
/// outputs.
pub proof fn law_central_speakers_play_on_both_sides(
    speaker: u32,
    channel: usize,
    gains: (Gain, Gain),
)
    requires
        speaker != 0,
        forall|partner: u32| !are_partners(speaker, partner) && !are_partners(partner, speaker),
        call_ensures(speaker_coefficients, (speaker, channel), gains),
    ensures
        gains.0 == gains.1,
        gains.0 != Gain::Silent,
{
    assert(!are_partners(speaker, 0x2) && !are_partners(0x1, speaker));
    assert(!are_partners(speaker, 0x20) && !are_partners(0x10, speaker));
    assert(!are_partners(speaker, 0x80) && !are_partners(0x40, speaker));
    assert(!are_partners(speaker, 0x400) && !are_partners(0x200, speaker));
    assert(!are_partners(speaker, 0x4000) && !are_partners(0x1000, speaker));
    assert(!are_partners(speaker, 0x2_0000) && !are_partners(0x8000, speaker));
}

/// The front speakers pass with their whole power, and so does the front
/// center. Every other speaker with a known place passes half of it, except for
/// the low frequencies, which are weaker than anything else. A speaker whose
/// place is unknown is in between.
pub proof fn law_speaker_powers_are_graded(speaker: u32, channel: usize, gains: (Gain, Gain))
    requires
        speaker != 0,
        call_ensures(speaker_coefficients, (speaker, channel), gains),
    ensures
        speaker == 0x1 || speaker == 0x2 || speaker == 0x4 <==> total_power(gains) == 400,
        speaker == 0x8 <==> total_power(gains) < 80,
        (exists|partner: u32|
            #![trigger are_partners(speaker, partner)]
            #![trigger are_partners(partner, speaker)]
            are_partners(speaker, partner) || are_partners(partner, speaker)) || is_central(speaker)
            ==> total_power(gains) == 400 || total_power(gains) == 200 || speaker == 0x8,
        !(exists|partner: u32|
            #![trigger are_partners(speaker, partner)]
            #![trigger are_partners(partner, speaker)]
            are_partners(speaker, partner) || are_partners(partner, speaker)) && !is_central(
            speaker,
        ) ==> 80 <= total_power(gains) < 200,
{
    assert(are_partners(0x1, 0x2) && are_partners(0x10, 0x20) && are_partners(0x40, 0x80));
    assert(are_partners(0x200, 0x400) && are_partners(0x1000, 0x4000));
    assert(are_partners(0x8000, 0x2_0000));
}

/// Channels without a speaker position alternate between the sides, and each of
/// them passes a quarter of its power.
pub proof fn law_channels_without_a_place_alternate(
    channel: usize,
    next: usize,
    gains: (Gain, Gain),
    next_gains: (Gain, Gain),
)
    requires
        next == channel + 1,
        call_ensures(speaker_coefficients, (0, channel), gains),
        call_ensures(speaker_coefficients, (0, next), next_gains),
    ensures
        next_gains == (gains.1, gains.0),
        total_power(gains) == 100,
        channel % 2 == 0 ==> gains.1 == Gain::Silent,
        channel % 2 == 1 ==> gains.0 == Gain::Silent,
{
}

/// The number of speakers in a mask below a place.
pub open spec fn speakers_below(mask: nat, place: nat) -> nat
    decreases place,
{
    if place == 0 {
        0
    } else {
        mask % 2 + speakers_below(mask / 2, (place - 1) as nat)
    }
}

/// The lowest speaker is part of its mask.
proof fn lemma_lowest_speaker_is_in_the_mask(mask: nat)
    ensures
        lowest_speaker(mask) <= mask,
    decreases mask,
{
    if mask != 0 && mask % 2 == 0 {
        lemma_lowest_speaker_is_in_the_mask(mask / 2);
    }
}

/// Moving every speaker up by one place moves the speaker of every channel.
proof fn lemma_speakers_move_together(mask: nat, channel: nat)
    ensures
        speaker_at(2 * mask, channel) == 2 * speaker_at(mask, channel),
    decreases channel,
{
    lemma_lowest_speaker_is_in_the_mask(mask);
    lemma_lowest_speaker_is_in_the_mask(2 * mask);
    assert(2 * mask / 2 == mask);
    assert(lowest_speaker(2 * mask) == 2 * lowest_speaker(mask));
    if channel > 0 {
        let rest = (mask - lowest_speaker(mask)) as nat;
        lemma_speakers_move_together(rest, (channel - 1) as nat);
        assert((2 * mask - lowest_speaker(2 * mask)) as nat == 2 * rest);
    }
}

/// Behind the lowest place, the channels take the speakers of the other places.
proof fn lemma_speaker_behind_the_lowest(mask: nat, channel: nat)
    requires
        mask % 2 == 1,
    ensures
        speaker_at(mask, channel + 1) == 2 * speaker_at(mask / 2, channel),
{
    assert(lowest_speaker(mask) == 1);
    assert((mask - 1) as nat == 2 * (mask / 2));
    lemma_speakers_move_together(mask / 2, channel);
    assert((channel + 1 - 1) as nat == channel);
}

/// The channels take the speakers of the mask in order: the channel of a
/// speaker is the number of speakers below it.
pub proof fn law_channels_take_the_speakers_in_order(mask: nat, place: nat)
    requires
        (mask / power2::pow2(place)) % 2 == 1,
    ensures
        speaker_at(mask, speakers_below(mask, place)) == power2::pow2(place),
    decreases place,
{
    power2::lemma2_to64();
    if place == 0 {
        assert(mask / 1 == mask);
        assert(lowest_speaker(mask) == 1);
    } else {
        power2::lemma_pow2_unfold(place);
        let half = power2::pow2((place - 1) as nat);
        power2::lemma_pow2_pos((place - 1) as nat);
        vstd::arithmetic::div_mod::lemma_div_denominator(mask as int, 2, half as int);
        law_channels_take_the_speakers_in_order(mask / 2, (place - 1) as nat);
        let channel = speakers_below(mask / 2, (place - 1) as nat);
        if mask % 2 == 1 {
            lemma_speaker_behind_the_lowest(mask, channel);
        } else {
            assert(mask == 2 * (mask / 2));
            lemma_speakers_move_together(mask / 2, channel);
        }
    }
}

/// A channel behind the last speaker of the mask has no speaker position.
pub proof fn law_channels_behind_the_mask_have_no_place(mask: nat, place: nat, channel: nat)
    requires
        mask < power2::pow2(place),
        channel >= speakers_below(mask, place),
    ensures
        speaker_at(mask, channel) == 0,
    decreases place + channel,
{
    power2::lemma2_to64();
    if place == 0 {
        assert(mask == 0);
        if channel > 0 {
            law_channels_behind_the_mask_have_no_place(0, 0, (channel - 1) as nat);
        }
    } else {
        power2::lemma_pow2_unfold(place);
        if mask % 2 == 1 {
            law_channels_behind_the_mask_have_no_place(
                mask / 2,
                (place - 1) as nat,
                (channel - 1) as nat,
            );
            lemma_speaker_behind_the_lowest(mask, (channel - 1) as nat);
        } else {
            law_channels_behind_the_mask_have_no_place(mask / 2, (place - 1) as nat, channel);
            assert(mask == 2 * (mask / 2));
            lemma_speakers_move_together(mask / 2, channel);
        }
    }
}

/// The first two speakers of a mask with both front speakers are those.
proof fn lemma_front_speakers_come_first(mask: nat)
    requires
        mask % 4 == 3,
    ensures
        speaker_at(mask, 0) == 1,
        speaker_at(mask, 1) == 2,
{
    assert(lowest_speaker(mask) == 1);
    lemma_speaker_behind_the_lowest(mask, 0);
    assert((mask / 2) % 2 == 1);
    assert(lowest_speaker(mask / 2) == 1);
}

/// A stereo mix keeps its sides: the front left channel is the left output and
/// the front right channel is the right one. Naming the front speakers changes
/// nothing of that.
pub proof fn law_stereo_keeps_its_sides(
    channels: usize,
    mask: u32,
    named: Vec<(Gain, Gain)>,
    plain: Vec<(Gain, Gain)>,
)
    requires
        channels >= 2,
        mask % 4 == 3,
        call_ensures(build_mix_matrix, (channels, mask), named),
        call_ensures(build_mix_matrix, (channels, 0), plain),
    ensures
        named@.len() == channels && plain@.len() == channels,
        named@[0] == (Gain::Full, Gain::Silent),
        named@[1] == (Gain::Silent, Gain::Full),
        plain@[0] == named@[0],
        plain@[1] == named@[1],
        forall|c: int|
            2 <= c < channels ==> total_power(#[trigger] plain@[c]) == 100 && (if c % 2 == 0 {
                plain@[c].1 == Gain::Silent
            } else {
                plain@[c].0 == Gain::Silent
            }),
{
    lemma_front_speakers_come_first(mask as nat);
}

/// One channel is heard in full in both outputs, whatever its speaker.
pub proof fn law_mono_fills_both_outputs(mask: u32, gains: Vec<(Gain, Gain)>)
    requires
        call_ensures(build_mix_matrix, (1, mask), gains),
    ensures
        gains@ == seq![(Gain::Full, Gain::Full)],
{
    assert(gains@[0] == channel_gains(1, mask as nat, 0));
    assert(gains@ =~= seq![(Gain::Full, Gain::Full)]);
}

/// Each speaker of a mask gets the gains of its position, at the channel that
/// counts the speakers below it.
pub proof fn law_every_speaker_gets_its_gains(
    channels: usize,
    mask: u32,
    place: nat,
    gains: Vec<(Gain, Gain)>,
    expected: (Gain, Gain),
)
    requires
        channels >= 2,
        place < 32,
        (mask as nat / power2::pow2(place)) % 2 == 1,
        speakers_below(mask as nat, place) < channels,
        call_ensures(build_mix_matrix, (channels, mask), gains),
        call_ensures(
            speaker_coefficients,
            (power2::pow2(place) as u32, speakers_below(mask as nat, place) as usize),
            expected,
        ),
    ensures
        gains@[speakers_below(mask as nat, place) as int] == expected,
{
    law_channels_take_the_speakers_in_order(mask as nat, place);
    power2::lemma2_to64();
    power2::lemma_pow2_strictly_increases(place, 32);
    if mask == 0 {
        power2::lemma_pow2_pos(place);
        vstd::arithmetic::div_mod::lemma_div_basics(power2::pow2(place) as int);
    }
    assert(gains@[speakers_below(mask as nat, place) as int] == channel_gains(
        channels as nat,
        mask as nat,
        speakers_below(mask as nat, place),
    ));
}

/// The usual device format, stereo with both front speakers, is recorded with
/// its sides, whether the mask names them or not.
pub proof fn law_recorded_stereo_keeps_its_sides(wave: WaveFormat, format: SourceFormat)
    requires
        wave.wf(),
        wave.channels >= 2,
        wave.tag == 0xFFFE ==> wave.extension->0.channel_mask % 4 == 3
            || wave.extension->0.channel_mask == 0,
        call_ensures(
            SourceFormat::from_wave,
            (&wave,),
            Ok::<SourceFormat, FormatError>(format),
        ),
    ensures
        format.gains@[0] == (Gain::Full, Gain::Silent),
        format.gains@[1] == (Gain::Silent, Gain::Full),
{
    if wave.tag == TAG_EXTENSIBLE && wave.extension->0.channel_mask != 0 {
        lemma_front_speakers_come_first(wave.extension->0.channel_mask as nat);
    }
}

/// A format is recorded exactly when it has between one and thirty-two channels,
/// a rate, integer samples of one to four whole bytes or floating-point samples
/// of four or eight, no more meaningful bits than those, and room for all
/// samples in a frame.
pub proof fn law_recordable_formats(wave: WaveFormat, result: Result<SourceFormat, FormatError>)
    requires
        wave.wf(),
        call_ensures(SourceFormat::from_wave, (&wave,), result),
    ensures
        result is Ok <==> {
            let plain = wave.tag != 0xFFFE;
            let float = wave.tag == 3 || (!plain && wave.extension->0.sub_format
                == SubFormat::Float);
            let bits = wave.bits_per_sample;
            &&& 1 <= wave.channels <= 32
            &&& wave.sample_rate >= 1
            &&& wave.tag == 1 || wave.tag == 3 || (!plain && wave.extension_bytes >= 22
                && wave.extension->0.sub_format != SubFormat::Other)
            &&& bits == 32 || (if float {
                bits == 64
            } else {
                bits == 8 || bits == 16 || bits == 24
            })
            &&& plain || wave.extension->0.valid_bits <= bits
            &&& wave.block_align * 8 >= wave.channels * bits
        },
{
    let bits = wave.bits_per_sample;
    let channels = wave.channels as int;
    if bits == 8 || bits == 16 || bits == 24 || bits == 32 || bits == 64 {
        assert(channels * (bits as int) == 8 * (channels * (bits as int / 8))) by (nonlinear_arith)
            requires
                bits == 8 || bits == 16 || bits == 24 || bits == 32 || bits == 64,
        ;
        assert(channels >= 1 ==> channels * (bits as int) >= 1) by (nonlinear_arith)
            requires
                bits >= 8,
        ;
    }
}

/// A recorded format is described as the device reports it.
pub proof fn law_formats_are_taken_over(wave: WaveFormat, format: SourceFormat)
    requires
        wave.wf(),
        call_ensures(
            SourceFormat::from_wave,
            (&wave,),
            Ok::<SourceFormat, FormatError>(format),
        ),
    ensures
        format.channels == wave.channels,
        format.sample_rate == wave.sample_rate,
        format.block_align == wave.block_align,
        format.container_bits == wave.bits_per_sample,
        format.float <==> wave.tag == 3 || (wave.tag == 0xFFFE && wave.extension->0.sub_format
            == SubFormat::Float),
        wave.tag == 0xFFFE && wave.extension->0.valid_bits > 0 ==> format.valid_bits
            == wave.extension->0.valid_bits,
        wave.tag != 0xFFFE || wave.extension->0.valid_bits == 0 ==> format.valid_bits
            == wave.bits_per_sample,
{
}

/// An extension that says nothing new changes nothing: without meaningful bits
/// and without a mask, it stands for the plain format of its sample type.
pub proof fn law_empty_extensions_change_nothing(
    plain: WaveFormat,
    extended: WaveFormat,
    first: Result<SourceFormat, FormatError>,
    second: Result<SourceFormat, FormatError>,
)
    requires
        plain.tag == 1 || plain.tag == 3,
        extended == (WaveFormat {
            tag: 0xFFFE,
            extension_bytes: extended.extension_bytes,
            extension: Some(
                WaveExtension {
                    valid_bits: 0,
                    channel_mask: 0,
                    sub_format: if plain.tag == 3 {
                        SubFormat::Float
                    } else {
                        SubFormat::Pcm
                    },
                },
            ),
            ..plain
        }),
        extended.extension_bytes >= 22,
        call_ensures(SourceFormat::from_wave, (&plain,), first),
        call_ensures(SourceFormat::from_wave, (&extended,), second),
    ensures
        first is Ok <==> second is Ok,
        first is Err ==> first->Err_0 == second->Err_0,
        first is Ok ==> first->Ok_0.valid_bits == second->Ok_0.valid_bits && first->Ok_0.float
            == second->Ok_0.float && first->Ok_0.gains@ == second->Ok_0.gains@,
{
    if first is Ok {
        assert(first->Ok_0.gains@ =~= second->Ok_0.gains@);
    }
}

/// A byte behind the others counts the most.
pub proof fn law_later_bytes_count_more(bytes: Seq<u8>, last: u8)
    ensures
        little_endian(bytes.push(last)) == little_endian(bytes) + last * power2::pow2(
            (8 * bytes.len()) as nat,
        ),
    decreases bytes.len(),
{
    let longer = bytes.push(last);
    power2::lemma2_to64();
    if bytes.len() == 0 {
        assert(longer.drop_first() =~= Seq::<u8>::empty());
        assert(little_endian(longer.drop_first()) == 0);
        assert(longer.first() == last);
        assert(last as nat * 1 == last as nat);
    } else {
        assert(longer.drop_first() =~= bytes.drop_first().push(last));
        assert(longer.first() == bytes.first());
        law_later_bytes_count_more(bytes.drop_first(), last);
        let rest = (8 * (bytes.len() - 1)) as nat;
        power2::lemma_pow2_adds(8, rest);
        let scale = power2::pow2(rest);
        assert(256 * (last as nat * scale) == last as nat * (256 * scale)) by (nonlinear_arith);
    }
}

/// The signed number of bytes is the one that differs from the unsigned number
/// by a whole span and lies around zero: it is negative exactly when the highest
/// bit is set.
pub proof fn law_the_highest_bit_is_the_sign(bytes: Seq<u8>)
    requires
        bytes.len() > 0,
    ensures
        signed_little_endian(bytes) == little_endian(bytes) || signed_little_endian(bytes)
            == little_endian(bytes) - power2::pow2((8 * bytes.len()) as nat),
        signed_little_endian(bytes) < 0 <==> bytes.last() >= 128,
        -power2::pow2((8 * bytes.len()) as nat) <= 2 * signed_little_endian(bytes),
        2 * signed_little_endian(bytes) < power2::pow2((8 * bytes.len()) as nat),
{
    let front = bytes.drop_last();
    assert(front.push(bytes.last()) =~= bytes);
    law_later_bytes_count_more(front, bytes.last());
    lemma_little_endian_is_below(front);
    lemma_little_endian_is_below(bytes);
    power2::lemma2_to64();
    let low = (8 * front.len()) as nat;
    power2::lemma_pow2_adds(8, low);
    let scale = power2::pow2(low);
    let last = bytes.last() as nat;
    if last >= 128 {
        assert(last * scale >= 128 * scale) by (nonlinear_arith)
            requires
                last >= 128,
        ;
    } else {
        assert(last * scale <= 127 * scale) by (nonlinear_arith)
            requires
                last <= 127,
        ;
    }
}

/// An integer sample is the number of its bytes without the bits that have no
/// meaning, rounded down; silence is zero in every format. Samples of one byte
/// count from 128.
pub proof fn law_integer_samples_are_their_leading_bits(format: SourceFormat, bytes: Seq<u8>)
    requires
        format.wf(),
        !format.float,
        bytes.len() == format.container_bits / 8,
    ensures
        format.decoded(bytes) is Integer,
        bytes.len() == 1 ==> format.decoded(bytes)->value == bytes[0] - 128
            && format.decoded(bytes)->scale_bits == 7,
        bytes.len() > 1 ==> ({
            let value = format.decoded(bytes)->value;
            let unit = power2::pow2((format.container_bits - format.valid_bits) as nat);
            &&& format.decoded(bytes)->scale_bits + 1 == format.valid_bits
            &&& value * unit <= signed_little_endian(bytes)
            &&& signed_little_endian(bytes) < (value + 1) * unit
        }),
{
    if bytes.len() > 1 {
        law_integer_samples_stay_within_full_scale(format, bytes);
        law_the_highest_bit_is_the_sign(bytes);
        power2::lemma2_to64();
        let places = (format.container_bits - format.valid_bits) as nat;
        let unit = power2::pow2(places) as int;
        power2::lemma_pow2_pos(places);
        let number = signed_little_endian(bytes);
        let quotient = number / unit;
        vstd::arithmetic::div_mod::lemma_fundamental_div_mod(number, unit);
        vstd::arithmetic::div_mod::lemma_mod_bound(number, unit);
        let bits = format.container_bits as nat;
        assert(8 * bytes.len() == bits);
        assert(power2::pow2(bits) <= 0x1_0000_0000) by {
            if bits < 32 {
                power2::lemma_pow2_strictly_increases(bits, 32);
            }
        }
        assert(-0x8000_0000 <= quotient < 0x8000_0000) by (nonlinear_arith)
            requires
                -0x8000_0000 <= number < 0x8000_0000,
                number == unit * quotient + number % unit,
                0 <= number % unit < unit,
                unit >= 1,
        ;
        assert(quotient * unit <= number && number < (quotient + 1) * unit) by (nonlinear_arith)
            requires
                number == unit * quotient + number % unit,
                0 <= number % unit < unit,
        ;
    }
}

/// Floating-point samples keep their bits; a sample of eight bytes is not
/// touched, and one of four bytes only where it is beyond full scale.
pub proof fn law_float_samples_keep_their_bits(format: SourceFormat, bytes: Seq<u8>)
    requires
        format.wf(),
        format.float,
        bytes.len() == format.container_bits / 8,
    ensures
        bytes.len() == 8 ==> format.decoded(bytes) is Double && format.decoded(bytes)->Double_0
            == little_endian(bytes),
        bytes.len() == 4 ==> format.decoded(bytes) is Single && format.decoded(bytes)->Single_0
            == (Sample { bits: little_endian(bytes) as u32 }).clamped(),
{
    lemma_little_endian_is_below(bytes);
    power2::lemma2_to64();
    power2::lemma2_to64_rest();
}

/// The samples of a packet stand frame by frame, and channel by channel inside
/// of a frame, without a gap between the channels.
pub proof fn law_samples_are_interleaved(
    format: SourceFormat,
    bytes: Seq<u8>,
    frame: nat,
    channel: nat,
    index: int,
)
    requires
        format.wf(),
        channel < format.channels,
        0 <= index < format.container_bits / 8,
        (frame + 1) * format.block_align <= bytes.len(),
    ensures
        format.sample_bytes(bytes, frame, channel).len() * 8 == format.container_bits,
        format.sample_bytes(bytes, frame, channel)[index] == bytes[frame * format.block_align
            + channel * (format.container_bits / 8) + index],
{
    let width = (format.container_bits / 8) as nat;
    let align = format.block_align as nat;
    assert(channel * width + width <= format.channels * width) by (nonlinear_arith)
        requires
            channel + 1 <= format.channels,
    ;
    assert(frame * align + align == (frame + 1) * align) by (nonlinear_arith);
    assert(0 <= frame * align && 0 <= channel * width) by (nonlinear_arith);
}

/// The rate of the encoder is one of the two usual rates, and the other one is
/// not nearer to the source. A source at one of them keeps its rate.
pub proof fn law_the_nearest_usual_rate_is_used(source_rate: u32, rate: u32)
    requires
        call_ensures(desired_rate, (source_rate,), rate),
    ensures
        rate == 44_100 || rate == 48_000,
        source_rate == 44_100 || source_rate == 48_000 ==> rate == source_rate,
        rate == 44_100 ==> source_rate < 46_050,
        rate == 48_000 ==> source_rate >= 46_050,
{
}

/// The selected profile belongs to a stereo offer within the request and between
/// 32 and 48 kilohertz, with eight bits for each byte. Such an offer is always
/// found when there is one.
pub proof fn law_selected_profiles_meet_the_request(
    offers: &Vec<EncoderOffer>,
    source_rate: u32,
    requested: u32,
    selected: Option<(usize, Profile)>,
    other: int,
)
    requires
        call_ensures(select_mp3_type, (offers, source_rate, requested), selected),
        0 <= other < offers@.len(),
        offers@[other].channels == 2,
        32_000 <= offers@[other].sample_rate <= 48_000,
        8 * offers@[other].bytes_per_second <= requested,
    ensures
        selected is Some,
        (selected->0).0 < offers@.len(),
        ({
            let offer = offers@[(selected->0).0 as int];
            let profile = (selected->0).1;
            &&& offer.channels == 2
            &&& 32_000 <= offer.sample_rate <= 48_000
            &&& profile.sample_rate == offer.sample_rate
            &&& profile.bitrate <= requested
            &&& requested < u32::MAX ==> profile.bitrate == 8 * offer.bytes_per_second
            &&& profile.bitrate >= 8 * offers@[other].bytes_per_second
        }),
{
    assert(offers@[other].is_eligible(requested as nat));
}

/// Among offers with the same bit rate, one at the suitable rate wins, and
/// otherwise one at 48 kilohertz.
pub proof fn law_equal_bitrates_prefer_the_suitable_rate(
    offers: &Vec<EncoderOffer>,
    source_rate: u32,
    requested: u32,
    selected: Option<(usize, Profile)>,
    other: int,
    rate: u32,
)
    requires
        call_ensures(select_mp3_type, (offers, source_rate, requested), selected),
        call_ensures(desired_rate, (source_rate,), rate),
        selected is Some,
        0 <= other < offers@.len(),
        offers@[other].channels == 2,
        32_000 <= offers@[other].sample_rate <= 48_000,
        8 * offers@[other].bytes_per_second == (selected->0).1.bitrate,
    ensures
        offers@[other].sample_rate == rate ==> (selected->0).1.sample_rate == rate,
        offers@[other].sample_rate == 48_000 ==> (selected->0).1.sample_rate == rate
            || (selected->0).1.sample_rate == 48_000,
{
    assert(offers@[other].is_eligible(requested as nat));
}

/// Times that fit are handed over as they are.
pub proof fn law_ordinary_times_do_not_wrap(units: u128, time: i64)
    requires
        units < 0x8000_0000_0000_0000,
        call_ensures(wrap_time, (units,), time),
    ensures
        time == units,
{
}

/// The encoder time of a block of frames is the time of its seconds, rounded
/// down to whole units of 100 nanoseconds.
pub proof fn law_media_times_are_exact_to_a_unit(frames: u64, sample_rate: u32, time: i64)
    requires
        sample_rate > 0,
        frames * 10_000_000 <= i64::MAX,
        call_ensures(media_time, (frames, sample_rate), time),
    ensures
        time * sample_rate <= frames * 10_000_000,
        frames * 10_000_000 < (time + 1) * sample_rate,
{
    let units = frames as int * 10_000_000;
    let rate = sample_rate as int;
    vstd::arithmetic::div_mod::lemma_fundamental_div_mod(units, rate);
    vstd::arithmetic::div_mod::lemma_mod_bound(units, rate);
    vstd::arithmetic::div_mod::lemma_div_is_ordered_by_denominator(units, 1, rate);
    let quotient = units / rate;
    assert(quotient * rate <= units && units < (quotient + 1) * rate) by (nonlinear_arith)
        requires
            units == rate * quotient + units % rate,
            0 <= units % rate < rate,
    ;
}

/// Every reason against a format has its own message. An unknown tag is told in
/// four hexadecimal digits, the highest one first.
pub proof fn law_format_problems_are_told(error: FormatError, message: String)
    requires
        call_ensures(FormatError::message, (&error,), message),
    ensures
        error is Invalid ==> message@
            == "the default playback device returned an invalid audio format"@,
        error is Truncated ==> message@
            == "the playback device returned a truncated extensible audio format"@,
        error is UnsupportedSubtype ==> message@
            == "the playback device uses an unsupported audio subtype"@,
        error is InvalidDepth ==> message@
            == "the playback device returned invalid sample bit depth"@,
        error is InvalidAlignment ==> message@
            == "the playback device returned an invalid frame alignment"@,
        error matches FormatError::UnsupportedFloatWidth(bits) ==> message@
            == "unsupported floating-point sample width: "@ + text::decimal(bits as nat),
        error matches FormatError::UnsupportedPcmWidth(bits) ==> message@
            == "unsupported PCM sample width: "@ + text::decimal(bits as nat),
        error matches FormatError::UnsupportedTag(tag) ==> {
            let front = "unsupported Windows playback format tag: 0x"@;
            let digits = message@.skip(front.len() as int);
            &&& message@.take(front.len() as int) == front
            &&& digits.len() == 4
            &&& tag == 4_096 * crate::report::hex_value(digits[0]) + 256 * crate::report::hex_value(
                digits[1],
            ) + 16 * crate::report::hex_value(digits[2]) + crate::report::hex_value(digits[3])
            &&& forall|i: int|
                0 <= i < 4 ==> ('0' <= #[trigger] digits[i] && digits[i] <= '9') || ('A'
                    <= digits[i] && digits[i] <= 'F')
        },
{
    if error is UnsupportedTag {
        let tag = error->UnsupportedTag_0 as nat;
        let front = "unsupported Windows playback format tag: 0x"@;
        assert(message@.take(front.len() as int) =~= front);
        assert(message@.skip(front.len() as int) =~= hex_text(tag));
    }
}

/// A request that no offer meets is told with its bit rate.
pub proof fn law_missing_profiles_are_told(requested: u32, message: String)
    requires
        call_ensures(no_profile_message, (requested,), message),
    ensures
        message@ == "Windows has no stereo MP3 profile at or below "@ + text::decimal(
            requested as nat,
        ) + " bps"@,
{
}

} // verus!
