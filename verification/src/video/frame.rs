//! NV12 frames.
//!
//! An NV12 frame has one luma byte per pixel, row by row, and behind them one
//! pair of chroma bytes for every square of two by two pixels. The color
//! formula comes from the caller. This module decides which source pixel
//! every byte comes from.
use vstd::prelude::*;

verus! {

/// Contains one converted NV12 frame in system memory.
#[derive(Debug)]
pub struct Nv12Frame {
    /// Luma plane, then interleaved chroma plane.
    pub data: Vec<u8>,
}

impl Nv12Frame {
    /// Creates an all-black NV12 frame with neutral chroma.
    ///
    /// The luma plane stays zero and the chroma plane sits at 128 so encoders
    /// see a valid neutral black picture.
    pub fn black(width: u32, height: u32) -> (frame: Nv12Frame)
        requires
            width * height + width * height / 2 <= usize::MAX,
        ensures
            frame.data@.len() == width * height + width * height / 2,
            forall|i: int| 0 <= i < width * height ==> frame.data@[i] == 0,
            forall|i: int| width * height <= i < frame.data@.len() ==> frame.data@[i] == 128,
    {
        proof {
            assert(0 <= width * height) by (nonlinear_arith);
        }
        let luma_size: usize = width as usize * height as usize;
        let total: usize = luma_size + luma_size / 2;
        let mut data: Vec<u8> = vec![0u8; luma_size];
        while data.len() < total
            invariant
                luma_size <= data.len() <= total,
                forall|i: int| 0 <= i < luma_size ==> data@[i] == 0,
                forall|i: int| luma_size <= i < data@.len() ==> data@[i] == 128,
            decreases total - data.len(),
        {
            data.push(128);
        }
        Nv12Frame { data }
    }
}

/// A rectangle of BGRA pixels in a mapped texture.
#[derive(Clone, Copy, Debug, PartialEq, Eq, Structural)]
pub struct PixelArea {
    /// Bytes between adjacent rows of the texture.
    pub stride: usize,
    /// Left edge in pixels.
    pub left: u32,
    /// Top edge in pixels.
    pub top: u32,
    /// Width in pixels.
    pub width: u32,
    /// Height in pixels.
    pub height: u32,
}

impl PixelArea {
    /// The position of the blue byte of a pixel of the area.
    pub open spec fn position(self, row: int, column: int) -> int {
        (row + self.top) * self.stride + (column + self.left) * 4
    }

    /// The bytes of the luma plane.
    pub open spec fn luma_size(self) -> int {
        self.width * self.height
    }

    /// The bytes of the chroma plane.
    pub open spec fn chroma_size(self) -> int {
        self.width * (self.height as int / 2)
    }

    /// Every pixel of the area lies in the texture, and the frame fits memory.
    pub open spec fn fits(self, length: nat) -> bool {
        &&& self.left * 4 + self.width * 4 <= self.stride
        &&& (self.top + self.height) * self.stride <= length <= usize::MAX
        &&& self.luma_size() + self.chroma_size() <= usize::MAX
    }
}

/// A pixel of a texture: its blue, green, and red byte.
pub open spec fn pixel_at(pixels: Seq<u8>, position: int) -> (u8, u8, u8) {
    (pixels[position], pixels[position + 1], pixels[position + 2])
}

/// Whether a luma byte is that of a pixel.
pub open spec fn is_luma<L: Fn(u8, u8, u8) -> u8>(
    luma: L,
    pixel: (u8, u8, u8),
    byte: u8,
) -> bool {
    call_ensures(luma, (pixel.0, pixel.1, pixel.2), byte)
}

/// Whether a chroma pair is that of a pixel.
pub open spec fn is_chroma<C: Fn(u8, u8, u8) -> (u8, u8)>(
    chroma: C,
    pixel: (u8, u8, u8),
    first: u8,
    second: u8,
) -> bool {
    call_ensures(chroma, (pixel.0, pixel.1, pixel.2), (first, second))
}

/// Whether the first luma bytes are those of their pixels.
pub open spec fn luma_done<L: Fn(u8, u8, u8) -> u8>(
    luma: L,
    pixels: Seq<u8>,
    area: PixelArea,
    data: Seq<u8>,
    row: int,
    column: int,
) -> bool {
    forall|r: int, c: int|
        #![trigger area.position(r, c)]
        0 <= r < area.height && 0 <= c < area.width && (r < row || (r == row && c < column))
            ==> is_luma(
            luma,
            pixel_at(pixels, area.position(r, c)),
            data[r * area.width + c],
        )
}

/// Whether the first chroma pairs are those of their pixels.
pub open spec fn chroma_done<C: Fn(u8, u8, u8) -> (u8, u8)>(
    chroma: C,
    pixels: Seq<u8>,
    area: PixelArea,
    data: Seq<u8>,
    row: int,
    column: int,
) -> bool {
    forall|r: int, c: int|
        #![trigger area.position(2 * r, 2 * c)]
        0 <= r < area.height as int / 2 && 0 <= c < area.width as int / 2 && (r < row || (r == row
            && c < column)) ==> is_chroma(
            chroma,
            pixel_at(pixels, area.position(2 * r, 2 * c)),
            data[area.luma_size() + r * area.width + 2 * c],
            data[area.luma_size() + r * area.width + 2 * c + 1],
        )
}

/// Every pixel of an area lies in the texture.
proof fn lemma_position_is_inside(area: PixelArea, length: nat, row: int, column: int)
    requires
        area.fits(length),
        0 <= row < area.height,
        0 <= column < area.width,
    ensures
        0 <= area.position(row, column),
        area.position(row, column) + 3 < length,
        0 <= (row + area.top) * area.stride,
        row + area.top <= (row + area.top) * area.stride,
{
    let line = row + area.top;
    assert(line <= line * area.stride) by (nonlinear_arith)
        requires
            line >= 0,
            area.stride >= 1,
    ;
    let lines = area.top + area.height;
    assert(0 <= line * area.stride) by (nonlinear_arith)
        requires
            line >= 0,
    ;
    assert(line * area.stride + area.stride <= lines * area.stride) by (nonlinear_arith)
        requires
            line + 1 <= lines,
    ;
}

/// Positions in a plane follow rows and columns.
proof fn lemma_plane_position(width: int, row: int, column: int, rows: int)
    requires
        0 <= row < rows,
        0 <= column < width,
    ensures
        0 <= row * width,
        row * width + column < rows * width,
{
    assert(0 <= row * width) by (nonlinear_arith)
        requires
            row >= 0,
            width >= 0,
    ;
    assert(row * width + width <= rows * width) by (nonlinear_arith)
        requires
            row + 1 <= rows,
            width >= 0,
    ;
}

/// Appends the luma bytes of one row.
fn push_luma_row<L: Fn(u8, u8, u8) -> u8>(
    data: &mut Vec<u8>,
    pixels: &[u8],
    area: &PixelArea,
    row: u32,
    luma: &L,
)
    requires
        area.fits(pixels@.len()),
        row < area.height,
        old(data)@.len() == row * area.width,
        luma_done(*luma, pixels@, *area, old(data)@, row as int, 0),
        forall|blue: u8, green: u8, red: u8| call_requires(*luma, (blue, green, red)),
    ensures
        final(data)@.len() == (row + 1) * area.width,
        luma_done(*luma, pixels@, *area, final(data)@, row + 1, 0),
{
    let mut column: u32 = 0;
    while column < area.width
        invariant
            area.fits(pixels@.len()),
            row < area.height,
            column <= area.width,
            data@.len() == row * area.width + column,
            luma_done(*luma, pixels@, *area, data@, row as int, column as int),
            forall|blue: u8, green: u8, red: u8| call_requires(*luma, (blue, green, red)),
        decreases area.width - column,
    {
        proof {
            lemma_position_is_inside(*area, pixels@.len(), row as int, column as int);
        }
        let line: usize = row as usize + area.top as usize;
        let position: usize = line * area.stride + (column as usize + area.left as usize) * 4;
        let blue: u8 = pixels[position];
        let green: u8 = pixels[position + 1];
        let red: u8 = pixels[position + 2];
        let ghost shorter = data@;
        let byte: u8 = luma(blue, green, red);
        data.push(byte);
        proof {
            assert(position == area.position(row as int, column as int));
            assert forall|r: int, c: int|
                #![trigger area.position(r, c)]
                0 <= r < area.height && 0 <= c < area.width && (r < row || (r == row && c < column
                    + 1)) implies is_luma(
                *luma,
                pixel_at(pixels@, area.position(r, c)),
                data@[r * area.width + c],
            ) by {
                if r < row {
                    lemma_plane_position(area.width as int, r, c, row as int);
                    assert(data@[r * area.width + c] == shorter[r * area.width + c]);
                } else if c < column {
                    lemma_plane_position(area.width as int, r, c, row + 1);
                    assert(data@[r * area.width + c] == shorter[r * area.width + c]);
                }
            }
        }
        column += 1;
    }
    proof {
        assert((row + 1) * area.width == row * area.width + area.width) by (nonlinear_arith);
        assert(luma_done(*luma, pixels@, *area, data@, row + 1, 0)) by {
            assert forall|r: int, c: int|
                #![trigger area.position(r, c)]
                0 <= r < area.height && 0 <= c < area.width && (r < row + 1 || (r == row + 1 && c
                    < 0)) implies is_luma(
                *luma,
                pixel_at(pixels@, area.position(r, c)),
                data@[r * area.width + c],
            ) by {}
        }
    }
}

/// Whether the last byte of every chroma row without a pair is zero.
pub open spec fn odd_bytes_are_zero(area: PixelArea, data: Seq<u8>, rows: int) -> bool {
    forall|r: int|
        0 <= r < rows && area.width % 2 == 1 ==> #[trigger] data[area.luma_size() + r * area.width
            + area.width - 1] == 0
}

/// Appends the chroma bytes of one row of squares.
fn push_chroma_row<C: Fn(u8, u8, u8) -> (u8, u8)>(
    data: &mut Vec<u8>,
    pixels: &[u8],
    area: &PixelArea,
    row: u32,
    chroma: &C,
)
    requires
        area.fits(pixels@.len()),
        row < area.height / 2,
        old(data)@.len() == area.luma_size() + row * area.width,
        chroma_done(*chroma, pixels@, *area, old(data)@, row as int, 0),
        odd_bytes_are_zero(*area, old(data)@, row as int),
        forall|blue: u8, green: u8, red: u8| call_requires(*chroma, (blue, green, red)),
    ensures
        final(data)@.len() == area.luma_size() + (row + 1) * area.width,
        chroma_done(*chroma, pixels@, *area, final(data)@, row + 1, 0),
        odd_bytes_are_zero(*area, final(data)@, row + 1),
        forall|i: int| 0 <= i < old(data)@.len() ==> final(data)@[i] == old(data)@[i],
{
    let ghost before = data@;
    let ghost start = area.luma_size() + row * area.width;
    let mut column: u32 = 0;
    proof {
        assert(0 <= area.luma_size()) by (nonlinear_arith)
            requires
                area.luma_size() == area.width * area.height,
        ;
        assert(0 <= row * area.width) by (nonlinear_arith);
    }
    while column < area.width / 2
        invariant
            area.fits(pixels@.len()),
            row < area.height / 2,
            column <= area.width / 2,
            start == area.luma_size() + row * area.width,
            area.luma_size() >= 0,
            row * area.width >= 0,
            before.len() == start,
            data@.len() == start + 2 * column,
            forall|i: int| 0 <= i < start ==> data@[i] == before[i],
            chroma_done(*chroma, pixels@, *area, data@, row as int, column as int),
            forall|blue: u8, green: u8, red: u8| call_requires(*chroma, (blue, green, red)),
        decreases area.width / 2 - column,
    {
        proof {
            lemma_position_is_inside(*area, pixels@.len(), 2 * row, 2 * column);
        }
        let line: usize = row as usize * 2 + area.top as usize;
        let position: usize = line * area.stride + (column as usize * 2 + area.left as usize) * 4;
        let blue: u8 = pixels[position];
        let green: u8 = pixels[position + 1];
        let red: u8 = pixels[position + 2];
        let ghost shorter = data@;
        let (first, second): (u8, u8) = chroma(blue, green, red);
        data.push(first);
        data.push(second);
        proof {
            assert(position == area.position(2 * row, 2 * column));
            assert forall|r: int, c: int|
                #![trigger area.position(2 * r, 2 * c)]
                0 <= r < area.height as int / 2 && 0 <= c < area.width as int / 2 && (r < row || (r
                    == row && c < column + 1)) implies is_chroma(
                *chroma,
                pixel_at(pixels@, area.position(2 * r, 2 * c)),
                data@[area.luma_size() + r * area.width + 2 * c],
                data@[area.luma_size() + r * area.width + 2 * c + 1],
            ) by {
                let cell = area.luma_size() + r * area.width + 2 * c;
                if r < row {
                    lemma_plane_position(area.width as int, r, 2 * c + 1, row as int);
                    assert(data@[cell] == shorter[cell] && data@[cell + 1] == shorter[cell + 1]);
                } else if c < column {
                    assert(data@[cell] == shorter[cell] && data@[cell + 1] == shorter[cell + 1]);
                } else {
                    assert(data@[cell] == first && data@[cell + 1] == second);
                }
            }
        }
        column += 1;
    }
    let ghost pairs = data@;
    if area.width % 2 == 1 {
        data.push(0);
    }
    proof {
        assert((row + 1) * area.width == row * area.width + area.width) by (nonlinear_arith);
        assert forall|r: int, c: int|
            #![trigger area.position(2 * r, 2 * c)]
            0 <= r < area.height as int / 2 && 0 <= c < area.width as int / 2 && (r < row + 1 || (r
                == row + 1 && c < 0)) implies is_chroma(
            *chroma,
            pixel_at(pixels@, area.position(2 * r, 2 * c)),
            data@[area.luma_size() + r * area.width + 2 * c],
            data@[area.luma_size() + r * area.width + 2 * c + 1],
        ) by {
            let cell = area.luma_size() + r * area.width + 2 * c;
            lemma_plane_position(area.width as int, r, 2 * c + 1, row + 1);
            if r < row {
                lemma_plane_position(area.width as int, r, 2 * c + 1, row as int);
            }
            assert(data@[cell] == pairs[cell] && data@[cell + 1] == pairs[cell + 1]);
        }
        assert forall|r: int| 0 <= r < row + 1 && area.width % 2 == 1 implies #[trigger] data@[
        area.luma_size() + r * area.width + area.width - 1] == 0 by {
            let cell = area.luma_size() + r * area.width + area.width - 1;
            if r < row {
                lemma_plane_position(area.width as int, r, area.width - 1, row as int);
                assert(data@[cell] == before[cell]);
            }
        }
    }
}

/// Converts an area of BGRA pixels to NV12.
///
/// `luma` and `chroma` give the bytes of one pixel from its blue, green, and
/// red byte. A square of two by two pixels takes the chroma of its first pixel.
pub fn convert_to_nv12<L: Fn(u8, u8, u8) -> u8, C: Fn(u8, u8, u8) -> (u8, u8)>(
    pixels: &[u8],
    area: &PixelArea,
    luma: L,
    chroma: C,
) -> (frame: Nv12Frame)
    requires
        area.fits(pixels@.len()),
        forall|blue: u8, green: u8, red: u8| call_requires(luma, (blue, green, red)),
        forall|blue: u8, green: u8, red: u8| call_requires(chroma, (blue, green, red)),
    ensures
        frame.data@.len() == area.luma_size() + area.chroma_size(),
        luma_done(luma, pixels@, *area, frame.data@, area.height as int, 0),
        chroma_done(chroma, pixels@, *area, frame.data@, area.height as int / 2, 0),
        odd_bytes_are_zero(*area, frame.data@, area.height as int / 2),
{
    let mut data: Vec<u8> = Vec::new();
    let mut row: u32 = 0;
    proof {
        assert(0 * area.width == 0) by (nonlinear_arith);
    }
    while row < area.height
        invariant
            area.fits(pixels@.len()),
            row <= area.height,
            data@.len() == row * area.width,
            luma_done(luma, pixels@, *area, data@, row as int, 0),
            forall|blue: u8, green: u8, red: u8| call_requires(luma, (blue, green, red)),
        decreases area.height - row,
    {
        push_luma_row(&mut data, pixels, area, row, &luma);
        row += 1;
    }
    let ghost plane = data@;
    proof {
        assert(area.height * area.width == area.luma_size()) by (nonlinear_arith)
            requires
                area.luma_size() == area.width * area.height,
        ;
    }
    let mut square: u32 = 0;
    while square < area.height / 2
        invariant
            area.fits(pixels@.len()),
            square <= area.height / 2,
            plane.len() == area.luma_size(),
            data@.len() == area.luma_size() + square * area.width,
            forall|i: int| 0 <= i < plane.len() ==> data@[i] == plane[i],
            chroma_done(chroma, pixels@, *area, data@, square as int, 0),
            odd_bytes_are_zero(*area, data@, square as int),
            forall|blue: u8, green: u8, red: u8| call_requires(chroma, (blue, green, red)),
        decreases area.height / 2 - square,
    {
        proof {
            assert(0 <= square * area.width) by (nonlinear_arith);
        }
        push_chroma_row(&mut data, pixels, area, square, &chroma);
        square += 1;
    }
    proof {
        assert(square * area.width == area.chroma_size()) by (nonlinear_arith)
            requires
                area.chroma_size() == area.width * (area.height as int / 2),
                square == area.height as int / 2,
        ;
        assert forall|r: int, c: int|
            #![trigger area.position(r, c)]
            0 <= r < area.height && 0 <= c < area.width && (r < area.height || (r == area.height
                && c < 0)) implies is_luma(
            luma,
            pixel_at(pixels@, area.position(r, c)),
            data@[r * area.width + c],
        ) by {
            lemma_plane_position(area.width as int, r, c, area.height as int);
            assert(data@[r * area.width + c] == plane[r * area.width + c]);
        }
    }
    Nv12Frame { data }
}

/// A black frame has one byte without light for every pixel, and behind them
/// half as many neutral chroma bytes.
pub proof fn law_black_frames_are_black(width: u32, height: u32, frame: Nv12Frame, index: int)
    requires
        width * height + width * height / 2 <= usize::MAX,
        call_ensures(Nv12Frame::black, (width, height), frame),
        0 <= index < frame.data@.len(),
    ensures
        2 * frame.data@.len() <= 3 * (width * height) < 2 * frame.data@.len() + 2,
        index < width * height ==> frame.data@[index] == 0,
        index >= width * height ==> frame.data@[index] == 128,
{
    assert(0 <= width * height) by (nonlinear_arith);
}

/// Every luma byte is that of the pixel at its row and column: blue, green, and
/// red stand there in this order, four bytes apart from the next pixel.
pub proof fn law_luma_follows_the_pixels<L: Fn(u8, u8, u8) -> u8, C: Fn(u8, u8, u8) -> (u8, u8)>(
    pixels: &[u8],
    area: PixelArea,
    luma: L,
    chroma: C,
    frame: Nv12Frame,
    row: int,
    column: int,
)
    requires
        area.fits(pixels@.len()),
        call_ensures(convert_to_nv12::<L, C>, (pixels, &area, luma, chroma), frame),
        0 <= row < area.height,
        0 <= column < area.width,
    ensures
        ({
            let place = (area.top + row) * area.stride + 4 * (area.left + column);
            call_ensures(
                luma,
                (pixels@[place], pixels@[place + 1], pixels@[place + 2]),
                frame.data@[row * area.width + column],
            )
        }),
{
    let place = area.position(row, column);
    assert((area.top + row) * area.stride == (row + area.top) * area.stride) by (nonlinear_arith);
    assert(is_luma(luma, pixel_at(pixels@, place), frame.data@[row * area.width + column]));
}

/// Every pair of chroma bytes stands behind the luma plane, at the row and the
/// column of its square, and is that of the first pixel of the square.
pub proof fn law_chroma_follows_the_squares<
    L: Fn(u8, u8, u8) -> u8,
    C: Fn(u8, u8, u8) -> (u8, u8),
>(
    pixels: &[u8],
    area: PixelArea,
    luma: L,
    chroma: C,
    frame: Nv12Frame,
    row: int,
    column: int,
)
    requires
        area.fits(pixels@.len()),
        call_ensures(convert_to_nv12::<L, C>, (pixels, &area, luma, chroma), frame),
        0 <= row < area.height / 2,
        0 <= column < area.width / 2,
    ensures
        ({
            let place = (area.top + 2 * row) * area.stride + 4 * (area.left + 2 * column);
            let byte = area.width * area.height + row * area.width + 2 * column;
            call_ensures(
                chroma,
                (pixels@[place], pixels@[place + 1], pixels@[place + 2]),
                (frame.data@[byte], frame.data@[byte + 1]),
            )
        }),
        frame.data@.len() == area.width * area.height + area.width * (area.height / 2),
{
    let place = area.position(2 * row, 2 * column);
    assert((area.top + 2 * row) * area.stride == (2 * row + area.top) * area.stride)
        by (nonlinear_arith);
    let byte = area.luma_size() + row * area.width + 2 * column;
    assert(is_chroma(chroma, pixel_at(pixels@, place), frame.data@[byte], frame.data@[byte + 1]));
}

} // verus!
