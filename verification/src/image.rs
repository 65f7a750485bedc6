//! Screenshot images: reading captured frames, and cutting regions out of them.

use vstd::arithmetic::div_mod::{
    lemma_fundamental_div_mod_converse_div,
    lemma_fundamental_div_mod_converse_mod,
};
use vstd::prelude::*;

use crate::bytes::{is_native, lemma_four, native_byte_order, number_of, read_u32, ByteOrder};
use crate::formats::{channels, readable_preference, PixelFormat, ShmFormat};

verus! {

/// Why an image could not be made.
#[derive(Debug, Clone, Copy, PartialEq, Eq, Structural)]
pub enum ImageError {
    /// The pixels do not fit into the address space.
    DimensionsOverflow,
    /// The region has no pixels of the image.
    EmptyRegion,
    /// Frames of this format cannot be read.
    UnsupportedFormat(PixelFormat),
}

/// An image with eight bits each for red, green, blue and alpha.
#[derive(Debug, Clone)]
pub struct RgbaImage {
    pub width: u32,
    pub height: u32,
    pub pixels: Vec<u8>,
}

/// What an image shows: rows from top to bottom, four bytes for each pixel.
#[verifier::ext_equal]
pub struct ImageView {
    pub width: u32,
    pub height: u32,
    pub pixels: Seq<u8>,
}

/// The number of bytes of an image.
pub open spec fn byte_count(width: u32, height: u32) -> int {
    width * height * 4
}

/// Whether the bytes of an image make one allocation, or fail to fit into the address space at
/// all. In between, no allocator can serve the request.
pub open spec fn allocatable(width: u32, height: u32) -> bool {
    byte_count(width, height) <= isize::MAX || byte_count(width, height) > usize::MAX
}

impl ImageView {
    /// Every pixel has its four bytes.
    pub open spec fn wf(self) -> bool {
        &&& self.pixels.len() == byte_count(self.width, self.height)
        &&& self.pixels.len() <= isize::MAX
    }

    /// A channel of a pixel: 0 for red, 1 for green, 2 for blue, 3 for alpha.
    pub open spec fn at(self, x: int, y: int, channel: int) -> u8 {
        self.pixels[(y * self.width + x) * 4 + channel]
    }
}

impl View for RgbaImage {
    type V = ImageView;

    open spec fn view(&self) -> ImageView {
        ImageView { width: self.width, height: self.height, pixels: self.pixels@ }
    }
}

/// Where an edge of a region falls on an axis of an image.
pub open spec fn edge(v: int, extent: u32) -> int {
    if v < 0 {
        0
    } else if v > extent {
        extent as int
    } else {
        v
    }
}

/// Whether an image is the part of another one from one corner up to another one.
pub open spec fn is_part(
    part: ImageView,
    whole: ImageView,
    x1: int,
    y1: int,
    x2: int,
    y2: int,
) -> bool {
    &&& part.wf()
    &&& part.width == x2 - x1
    &&& part.height == y2 - y1
    &&& forall|x: int, y: int, channel: int|
        0 <= x < part.width && 0 <= y < part.height && 0 <= channel < 4 ==> #[trigger] part.at(
            x,
            y,
            channel,
        ) == whole.at(x1 + x, y1 + y, channel)
}

impl RgbaImage {
    /// A black, transparent image.
    pub fn new(width: u32, height: u32) -> (image: Result<Self, ImageError>)
        requires
            allocatable(width, height),
        ensures
            image matches Ok(i) ==> {
                &&& i@.wf()
                &&& i@.width == width && i@.height == height
                &&& forall|k: int| 0 <= k < i@.pixels.len() ==> #[trigger] i@.pixels[k] == 0
            },
            image is Err <==> byte_count(width, height) > usize::MAX,
            image matches Err(e) ==> e == ImageError::DimensionsOverflow,
    {
        match image_byte_len(width, height) {
            Ok(len) => Ok(RgbaImage { width, height, pixels: vec![0; len] }),
            Err(error) => Err(error),
        }
    }

    /// The part of the image inside a region. The region may reach beyond the image.
    pub fn crop(&self, x: i64, y: i64, width: i64, height: i64) -> (cropped: Result<
        Self,
        ImageError,
    >)
        requires
            self@.wf(),
            i64::MIN <= x + width <= i64::MAX,
            i64::MIN <= y + height <= i64::MAX,
        ensures
            cropped matches Ok(c) ==> is_part(
                c@,
                self@,
                edge(x as int, self@.width),
                edge(y as int, self@.height),
                edge(x + width, self@.width),
                edge(y + height, self@.height),
            ),
            cropped is Err <==> edge(x + width, self@.width) <= edge(x as int, self@.width) || edge(
                y + height,
                self@.height,
            ) <= edge(y as int, self@.height),
            cropped matches Err(e) ==> e == ImageError::EmptyRegion,
    {
        let x1: i64 = edge_of(x, self.width);
        let y1: i64 = edge_of(y, self.height);
        let x2: i64 = edge_of(x + width, self.width);
        let y2: i64 = edge_of(y + height, self.height);
        if x2 <= x1 || y2 <= y1 {
            return Err(ImageError::EmptyRegion);
        }
        let part_width: u32 = (x2 - x1) as u32;
        let part_height: u32 = (y2 - y1) as u32;
        proof {
            lemma_part_is_smaller(part_width as int, part_height as int, self.width as int, self.height as int);
        }
        let row_len: usize = part_width as usize * 4;
        let mut pixels: Vec<u8> = Vec::with_capacity(row_len * part_height as usize);
        let mut row: usize = 0;
        while row < part_height as usize
            invariant
                self@.wf(),
                0 <= x1 < x2 <= self.width,
                0 <= y1 < y2 <= self.height,
                part_width == x2 - x1,
                part_height == y2 - y1,
                row_len == part_width * 4,
                0 <= row <= part_height,
                pixels@.len() == row * row_len,
                forall|px: int, py: int, channel: int|
                    #![trigger self@.at(x1 + px, y1 + py, channel)]
                    0 <= px < part_width && 0 <= py < row && 0 <= channel < 4
                        ==> pixels@[(py * part_width + px) * 4 + channel] == self@.at(
                        x1 + px,
                        y1 + py,
                        channel,
                    ),
            decreases part_height - row,
        {
            let ghost before = pixels@;
            proof {
                lemma_row_fits(y1 + row, self.width as int, self.height as int, x1 as int, x2 as int);
                assert((row + 1) * row_len == row * row_len + row_len) by (nonlinear_arith);
                assert(row * row_len == (row * part_width) * 4) by (nonlinear_arith)
                    requires
                        row_len == part_width * 4,
                ;
            }
            let source_start: usize = ((y1 as usize + row) * self.width as usize + x1 as usize) * 4;
            let source_end: usize = source_start + row_len;
            let source: &[u8] = vstd::slice::slice_subrange(
                self.pixels.as_slice(),
                source_start,
                source_end,
            );
            pixels.extend_from_slice(source);
            proof {
                assert(pixels@ == before + source@);
                assert forall|px: int, py: int, channel: int|
                    #![trigger self@.at(x1 + px, y1 + py, channel)]
                    0 <= px < part_width && 0 <= py < row + 1 && 0 <= channel
                        < 4 implies pixels@[(py * part_width + px) * 4 + channel] == self@.at(
                    x1 + px,
                    y1 + py,
                    channel,
                ) by {
                    if py < row {
                        lemma_offset_below(px, py, part_width as int, row as int);
                    } else {
                        assert((row * part_width + px) * 4 + channel == row * row_len + px * 4
                            + channel);
                    }
                }
            }
            row += 1;
        }
        let part = RgbaImage { width: part_width, height: part_height, pixels };
        proof {
            assert(part_height * row_len == part_width * part_height * 4) by (nonlinear_arith)
                requires
                    row_len == part_width * 4,
            ;
            assert forall|px: int, py: int, channel: int|
                0 <= px < part@.width && 0 <= py < part@.height && 0 <= channel < 4 implies #[trigger] part@.at(
                px,
                py,
                channel,
            ) == self@.at(x1 + px, y1 + py, channel) by {
                assert(part@.at(px, py, channel) == pixels@[(py * part_width + px) * 4 + channel]);
            }
        }
        Ok(part)
    }
}

fn edge_of(v: i64, extent: u32) -> (e: i64)
    ensures
        e == edge(v as int, extent),
{
    if v < 0 {
        0
    } else if v > extent as i64 {
        extent as i64
    } else {
        v
    }
}

/// A part with smaller sides has no more bytes.
proof fn lemma_part_is_smaller(part_width: int, part_height: int, width: int, height: int)
    requires
        0 <= part_width <= width,
        1 <= part_height <= height,
    ensures
        part_width * 4 <= part_width * 4 * part_height <= width * height * 4,
        part_width * 4 * part_height == part_width * part_height * 4,
{
    assert(0 <= part_width * part_height <= width * height) by (nonlinear_arith)
        requires
            0 <= part_width <= width,
            0 <= part_height <= height,
    ;
    assert(part_width * 4 * part_height == part_width * part_height * 4) by (nonlinear_arith);
    assert(part_width <= part_width * part_height) by (nonlinear_arith)
        requires
            0 <= part_width,
            1 <= part_height,
    ;
}

/// A stretch of a row lies inside the image.
proof fn lemma_row_fits(y: int, width: int, height: int, x1: int, x2: int)
    requires
        0 <= y < height,
        0 <= x1 <= x2 <= width,
    ensures
        0 <= y * width,
        0 <= (y * width + x1) * 4 <= (y * width + x1) * 4 + (x2 - x1) * 4 <= width * height * 4,
{
    assert(0 <= y * width <= (height - 1) * width) by (nonlinear_arith)
        requires
            0 <= y <= height - 1,
            0 <= width,
    ;
    assert((height - 1) * width == width * height - width) by (nonlinear_arith);
}

/// The pixels of the rows above come before those of a row.
proof fn lemma_offset_below(x: int, y: int, width: int, rows: int)
    requires
        0 <= x < width,
        0 <= y < rows,
    ensures
        0 <= y * width + x < rows * width,
{
    assert(0 <= y * width <= (rows - 1) * width) by (nonlinear_arith)
        requires
            0 <= y <= rows - 1,
            0 <= width,
    ;
    assert((rows - 1) * width == rows * width - width) by (nonlinear_arith);
}

/// The number of bytes of an image.
pub fn image_byte_len(width: u32, height: u32) -> (len: Result<usize, ImageError>)
    ensures
        len matches Ok(n) ==> n == byte_count(width, height),
        len is Err <==> byte_count(width, height) > usize::MAX,
        len matches Err(e) ==> e == ImageError::DimensionsOverflow,
{
    proof {
        assert(0 <= width * height) by (nonlinear_arith)
            requires
                width >= 0,
                height >= 0,
        ;
    }
    match (width as usize).checked_mul(height as usize) {
        None => Err(ImageError::DimensionsOverflow),
        Some(pixels) => match pixels.checked_mul(4) {
            None => Err(ImageError::DimensionsOverflow),
            Some(len) => Ok(len),
        },
    }
}

/// Eight bits of a pixel, from the bit of value `unit` up.
pub open spec fn byte_at(pixel: u32, unit: int) -> u8 {
    ((pixel as int / unit) % 0x100) as u8
}

/// Ten bits of a pixel, from the bit of value `unit` up.
pub open spec fn ten_bits_at(pixel: u32, unit: int) -> int {
    (pixel as int / unit) % 0x400
}

/// A channel value of ten bits, rounded to eight bits.
pub open spec fn eight_of_ten(value: int) -> int {
    (value * 255 + 511) / 1023
}

/// A channel value of two bits, spread over eight bits.
pub open spec fn eight_of_two(value: int) -> int {
    (value % 4) * 85
}

/// Red, green, blue and alpha of a pixel, where its format can be read.
pub open spec fn unpacked(pixel: u32, format: PixelFormat) -> Option<Seq<u8>> {
    let low = byte_at(pixel, 1);
    let middle = byte_at(pixel, 0x100);
    let high = byte_at(pixel, 0x1_0000);
    let top = byte_at(pixel, 0x100_0000);
    let low10 = eight_of_ten(ten_bits_at(pixel, 1)) as u8;
    let middle10 = eight_of_ten(ten_bits_at(pixel, 0x400)) as u8;
    let high10 = eight_of_ten(ten_bits_at(pixel, 0x10_0000)) as u8;
    let top2 = eight_of_two(pixel as int / 0x4000_0000) as u8;
    match format {
        PixelFormat::Argb8888 => Some(seq![high, middle, low, top]),
        PixelFormat::Xrgb8888 => Some(seq![high, middle, low, 255u8]),
        PixelFormat::Abgr8888 => Some(seq![low, middle, high, top]),
        PixelFormat::Xbgr8888 => Some(seq![low, middle, high, 255u8]),
        PixelFormat::Argb2101010 => Some(seq![high10, middle10, low10, top2]),
        PixelFormat::Xrgb2101010 => Some(seq![high10, middle10, low10, 255u8]),
        PixelFormat::Abgr2101010 => Some(seq![low10, middle10, high10, top2]),
        PixelFormat::Xbgr2101010 => Some(seq![low10, middle10, high10, 255u8]),
        _ => None,
    }
}

/// Rounds a channel value of ten bits to eight bits.
pub fn ten_to_eight(value: u32) -> (rounded: u8)
    requires
        value * 255 + 511 <= u32::MAX,
    ensures
        rounded == eight_of_ten(value as int) % 0x100,
{
    let wide: u32 = (value * 255 + 511) / 1023;
    assert(wide as u8 == wide % 0x100) by (bit_vector);
    wide as u8
}

/// Spreads a channel value of two bits over eight bits. Higher bits of the value are ignored.
pub fn two_to_eight(value: u32) -> (spread: u8)
    ensures
        spread == eight_of_two(value as int),
{
    assert(value & 0x3 == value % 4) by (bit_vector);
    ((value & 0x3) * 85) as u8
}

/// Red, green, blue and alpha of a pixel.
pub fn unpack_shm_pixel(pixel: u32, format: PixelFormat) -> (rgba: Result<[u8; 4], ImageError>)
    ensures
        rgba matches Ok(channels) ==> unpacked(pixel, format) == Some(channels@),
        rgba is Err <==> unpacked(pixel, format) is None,
        rgba matches Err(e) ==> e == ImageError::UnsupportedFormat(format),
{
    assert(pixel as u8 == pixel % 0x100) by (bit_vector);
    assert((pixel >> 8) as u8 == (pixel / 0x100) % 0x100) by (bit_vector);
    assert((pixel >> 16) as u8 == (pixel / 0x1_0000) % 0x100) by (bit_vector);
    assert((pixel >> 24) as u8 == (pixel / 0x100_0000) % 0x100) by (bit_vector);
    assert(pixel & 0x3ff == pixel % 0x400) by (bit_vector);
    assert((pixel >> 10) & 0x3ff == (pixel / 0x400) % 0x400) by (bit_vector);
    assert((pixel >> 20) & 0x3ff == (pixel / 0x10_0000) % 0x400) by (bit_vector);
    assert(pixel >> 30 == pixel / 0x4000_0000) by (bit_vector);
    let rgba: [u8; 4] = match format {
        PixelFormat::Argb8888 => [
            (pixel >> 16) as u8,
            (pixel >> 8) as u8,
            pixel as u8,
            (pixel >> 24) as u8,
        ],
        PixelFormat::Xrgb8888 => [(pixel >> 16) as u8, (pixel >> 8) as u8, pixel as u8, 255],
        PixelFormat::Abgr8888 => [
            pixel as u8,
            (pixel >> 8) as u8,
            (pixel >> 16) as u8,
            (pixel >> 24) as u8,
        ],
        PixelFormat::Xbgr8888 => [pixel as u8, (pixel >> 8) as u8, (pixel >> 16) as u8, 255],
        PixelFormat::Argb2101010 => [
            ten_to_eight((pixel >> 20) & 0x3ff),
            ten_to_eight((pixel >> 10) & 0x3ff),
            ten_to_eight(pixel & 0x3ff),
            two_to_eight(pixel >> 30),
        ],
        PixelFormat::Xrgb2101010 => [
            ten_to_eight((pixel >> 20) & 0x3ff),
            ten_to_eight((pixel >> 10) & 0x3ff),
            ten_to_eight(pixel & 0x3ff),
            255,
        ],
        PixelFormat::Abgr2101010 => [
            ten_to_eight(pixel & 0x3ff),
            ten_to_eight((pixel >> 10) & 0x3ff),
            ten_to_eight((pixel >> 20) & 0x3ff),
            two_to_eight(pixel >> 30),
        ],
        PixelFormat::Xbgr2101010 => [
            ten_to_eight(pixel & 0x3ff),
            ten_to_eight((pixel >> 10) & 0x3ff),
            ten_to_eight((pixel >> 20) & 0x3ff),
            255,
        ],
        _ => {
            return Err(ImageError::UnsupportedFormat(format));
        },
    };
    assert(unpacked(pixel, format)->0 == rgba@);
    Ok(rgba)
}

/// Where the bytes of a pixel of a frame start.
pub open spec fn source_offset(format: ShmFormat, x: int, y: int) -> int {
    y * format.stride + x * 4
}

/// A pixel of a frame.
pub open spec fn frame_pixel(
    bytes: Seq<u8>,
    format: ShmFormat,
    order: ByteOrder,
    x: int,
    y: int,
) -> u32 {
    let offset = source_offset(format, x, y);
    number_of(bytes.subrange(offset, offset + 4), order) as u32
}

/// Whether all bytes that reading a frame touches are there.
pub open spec fn frame_covers(bytes: Seq<u8>, format: ShmFormat) -> bool {
    &&& allocatable(format.size.width, format.size.height)
    &&& byte_count(format.size.width, format.size.height) <= usize::MAX && format.size.width > 0
        && format.size.height > 0 ==> if unpacked(0, format.format) is None {
        bytes.len() >= 4
    } else {
        source_offset(format, format.size.width - 1, format.size.height - 1) + 4 <= bytes.len()
    }
}

/// Whether an image shows a frame.
pub open spec fn shows_frame(
    image: ImageView,
    bytes: Seq<u8>,
    format: ShmFormat,
    order: ByteOrder,
) -> bool {
    &&& image.wf()
    &&& image.width == format.size.width
    &&& image.height == format.size.height
    &&& forall|x: int, y: int, channel: int|
        0 <= x < image.width && 0 <= y < image.height && 0 <= channel < 4 ==> #[trigger] image.at(
            x,
            y,
            channel,
        ) == unpacked(frame_pixel(bytes, format, order, x, y), format.format)->0[channel]
}

/// Why a frame cannot be read: its image would be too large, or it has pixels of a format that is
/// not interpreted.
pub open spec fn frame_error(format: ShmFormat) -> Option<ImageError> {
    if byte_count(format.size.width, format.size.height) > usize::MAX {
        Some(ImageError::DimensionsOverflow)
    } else if format.size.width > 0 && format.size.height > 0 && unpacked(0, format.format) is None {
        Some(ImageError::UnsupportedFormat(format.format))
    } else {
        None
    }
}

/// Whether all bytes that reading a frame touches are there.
pub fn covers_frame(bytes: &[u8], format: ShmFormat) -> (covers: bool)
    ensures
        covers == frame_covers(bytes@, format),
{
    let width: u32 = format.size.width;
    let height: u32 = format.size.height;
    proof {
        lemma_product_of_words(width, height);
    }
    let count: u128 = width as u128 * height as u128 * 4;
    if count > usize::MAX as u128 {
        return true;
    }
    if count > isize::MAX as u128 {
        return false;
    }
    if width == 0 || height == 0 {
        return true;
    }
    if unpack_shm_pixel(0, format.format).is_err() {
        return bytes.len() >= 4;
    }
    proof {
        lemma_product_of_words((height - 1) as u32, format.stride);
    }
    let last: u128 = (height - 1) as u128 * format.stride as u128 + (width - 1) as u128 * 4;
    last + 4 <= bytes.len() as u128
}

proof fn lemma_product_of_words(a: u32, b: u32)
    ensures
        0 <= a * b <= u32::MAX * u32::MAX,
{
    assert(0 <= a * b <= u32::MAX * u32::MAX) by (nonlinear_arith)
        requires
            0 <= a <= u32::MAX,
            0 <= b <= u32::MAX,
    ;
}

/// Reads a captured frame whose pixels are in the given byte order.
pub fn read_frame(bytes: &[u8], format: ShmFormat, order: ByteOrder) -> (image: Result<
    RgbaImage,
    ImageError,
>)
    requires
        frame_covers(bytes@, format),
    ensures
        image matches Ok(i) ==> shows_frame(i@, bytes@, format, order),
        image is Ok <==> frame_error(format) is None,
        image matches Err(e) ==> frame_error(format) == Some(e),
{
    let mut image: RgbaImage = match RgbaImage::new(format.size.width, format.size.height) {
        Ok(image) => image,
        Err(error) => {
            return Err(error);
        },
    };
    let width: usize = format.size.width as usize;
    let height: usize = format.size.height as usize;
    let stride: usize = format.stride as usize;
    let mut y: usize = 0;
    while y < height
        invariant
            width == format.size.width,
            height == format.size.height,
            stride == format.stride,
            frame_covers(bytes@, format),
            image@.wf(),
            image.width == width,
            image.height == height,
            y <= height,
            y > 0 && width > 0 ==> unpacked(0, format.format) is Some,
            forall|i: int|
                0 <= i < y * width * 4 ==> #[trigger] image.pixels@[i] == image_byte(
                    bytes@,
                    format,
                    order,
                    i,
                ),
        decreases height - y,
    {
        let mut x: usize = 0;
        while x < width
            invariant
                width == format.size.width,
                height == format.size.height,
                stride == format.stride,
                frame_covers(bytes@, format),
                image@.wf(),
                image.width == width,
                image.height == height,
                y < height,
                x <= width,
                (y > 0 || x > 0) && width > 0 ==> unpacked(0, format.format) is Some,
                forall|i: int|
                    0 <= i < (y * width + x) * 4 ==> #[trigger] image.pixels@[i] == image_byte(
                        bytes@,
                        format,
                        order,
                        i,
                    ),
            decreases width - x,
        {
            let ghost before = image.pixels@;
            proof {
                lemma_readable(0, 0, format.format);
                lemma_source_bound(format, x as int, y as int);
                lemma_offset_below(x as int, y as int, width as int, height as int);
                lemma_row_fits(y as int, width as int, height as int, x as int, x + 1);
                assert(bytes@.len() == bytes.len());
            }
            let source: usize = y * stride + x * 4;
            let target: usize = (y * width + x) * 4;
            let pixel: u32 = read_u32(bytes, source, order);
            proof {
                lemma_readable(pixel, 0, format.format);
            }
            let rgba: [u8; 4] = match unpack_shm_pixel(pixel, format.format) {
                Ok(rgba) => rgba,
                Err(error) => {
                    return Err(error);
                },
            };
            image.pixels.set(target, rgba[0]);
            image.pixels.set(target + 1, rgba[1]);
            image.pixels.set(target + 2, rgba[2]);
            image.pixels.set(target + 3, rgba[3]);
            proof {
                assert(pixel == frame_pixel(bytes@, format, order, x as int, y as int));
                assert forall|i: int| 0 <= i < target + 4 implies #[trigger] image.pixels@[i]
                    == image_byte(bytes@, format, order, i) by {
                    if i < target {
                        assert(image.pixels@[i] == before[i]);
                    } else {
                        let channel = i - target;
                        assert(image.pixels@[i] == rgba@[channel]);
                        lemma_position(x as int, y as int, width as int, channel);
                    }
                }
            }
            x += 1;
        }
        proof {
            assert((y * width + width) * 4 == (y + 1) * width * 4) by (nonlinear_arith);
        }
        y += 1;
    }
    proof {
        assert(height * width * 4 == width * height * 4) by (nonlinear_arith);
        assert forall|px: int, py: int, channel: int|
            0 <= px < image@.width && 0 <= py < image@.height && 0 <= channel < 4 implies #[trigger] image@.at(
            px,
            py,
            channel,
        ) == unpacked(frame_pixel(bytes@, format, order, px, py), format.format)->0[channel] by {
            lemma_position(px, py, width as int, channel);
            lemma_offset_below(px, py, width as int, height as int);
            assert(image@.at(px, py, channel) == image.pixels@[(py * width + px) * 4 + channel]);
        }
    }
    Ok(image)
}

/// The byte of the image of a frame at an offset.
spec fn image_byte(bytes: Seq<u8>, format: ShmFormat, order: ByteOrder, i: int) -> u8 {
    let x = (i / 4) % (format.size.width as int);
    let y = (i / 4) / (format.size.width as int);
    unpacked(frame_pixel(bytes, format, order, x, y), format.format)->0[i % 4]
}

/// Whether a pixel can be read depends on its format alone.
proof fn lemma_readable(a: u32, b: u32, format: PixelFormat)
    ensures
        unpacked(a, format) is Some <==> unpacked(b, format) is Some,
{
}

/// Offset, and pixel and channel, name the same byte.
proof fn lemma_position(x: int, y: int, width: int, channel: int)
    requires
        0 <= x < width,
        0 <= y,
        0 <= channel < 4,
    ensures
        ((y * width + x) * 4 + channel) / 4 == y * width + x,
        ((y * width + x) * 4 + channel) % 4 == channel,
        (y * width + x) / width == y,
        (y * width + x) % width == x,
{
    lemma_fundamental_div_mod_converse_div(y * width + x, width, y, x);
    lemma_fundamental_div_mod_converse_mod(y * width + x, width, y, x);
}

/// The bytes of each pixel lie before the end of those of the last one.
proof fn lemma_source_bound(format: ShmFormat, x: int, y: int)
    requires
        0 <= x < format.size.width,
        0 <= y < format.size.height,
    ensures
        0 <= y * format.stride <= source_offset(format, x, y) <= source_offset(
            format,
            format.size.width - 1,
            format.size.height - 1,
        ),
{
    assert(0 <= y * format.stride <= (format.size.height - 1) * format.stride) by (nonlinear_arith)
        requires
            0 <= y <= format.size.height - 1,
            0 <= format.stride,
    ;
}

/// Reads a captured frame. Its pixels are in the byte order of the machine.
pub fn shm_to_rgba(bytes: &[u8], format: ShmFormat) -> (image: Result<RgbaImage, ImageError>)
    requires
        frame_covers(bytes@, format),
    ensures
        image matches Ok(i) ==> exists|order: ByteOrder|
            #![trigger is_native(order)]
            is_native(order) && shows_frame(i@, bytes@, format, order),
        image is Ok <==> frame_error(format) is None,
        image matches Err(e) ==> frame_error(format) == Some(e),
{
    read_frame(bytes, format, native_byte_order())
}

/// The formats that can be read are those that a screenshot chooses from.
pub proof fn law_readable_formats_are_preferred(pixel: u32, format: PixelFormat)
    ensures
        unpacked(pixel, format) is Some <==> readable_preference().contains(format),
{
    let preferred = readable_preference();
    assert(preferred[0] == PixelFormat::Argb8888);
    assert(preferred[1] == PixelFormat::Xrgb8888);
    assert(preferred[2] == PixelFormat::Abgr8888);
    assert(preferred[3] == PixelFormat::Xbgr8888);
    assert(preferred[4] == PixelFormat::Argb2101010);
    assert(preferred[5] == PixelFormat::Xrgb2101010);
    assert(preferred[6] == PixelFormat::Abgr2101010);
    assert(preferred[7] == PixelFormat::Xbgr2101010);
}

/// Ten bits are rounded to the nearest of the eight-bit values, and the ends of the range meet.
pub proof fn law_ten_bits_round_to_nearest(value: int)
    requires
        0 <= value < 0x400,
    ensures
        0 <= eight_of_ten(value) <= 255,
        -1023 <= 2 * (eight_of_ten(value) * 1023 - value * 255) <= 1023,
        value == 0 ==> eight_of_ten(value) == 0,
        value == 1023 ==> eight_of_ten(value) == 255,
{
}

/// A pixel of an opaque format has full alpha.
pub proof fn law_opaque_formats_have_full_alpha(pixel: u32, format: PixelFormat)
    requires
        format == PixelFormat::Xrgb8888 || format == PixelFormat::Xbgr8888 || format
            == PixelFormat::Xrgb2101010 || format == PixelFormat::Xbgr2101010,
    ensures
        unpacked(pixel, format) matches Some(rgba) && rgba[3] == 255,
{
}

/// The four channels of an eight-bit pixel hold all of it: no two pixels look the same.
pub proof fn law_unpacking_loses_nothing(a: u32, b: u32, format: PixelFormat)
    requires
        format == PixelFormat::Argb8888 || format == PixelFormat::Abgr8888,
        unpacked(a, format) == unpacked(b, format),
    ensures
        a == b,
{
    let ua = unpacked(a, format)->0;
    let ub = unpacked(b, format)->0;
    assert(ua[0] == ub[0] && ua[1] == ub[1] && ua[2] == ub[2] && ua[3] == ub[3]);
    lemma_bytes_make_pixel(a);
    lemma_bytes_make_pixel(b);
}

/// A pixel is made of its four bytes.
proof fn lemma_bytes_make_pixel(pixel: u32)
    ensures
        pixel == byte_at(pixel, 1) + byte_at(pixel, 0x100) * 0x100 + byte_at(pixel, 0x1_0000)
            * 0x1_0000 + byte_at(pixel, 0x100_0000) * 0x100_0000,
{
    let rest1 = pixel as int / 0x100;
    let rest2 = pixel as int / 0x1_0000;
    let rest3 = pixel as int / 0x100_0000;
    assert(rest2 == rest1 / 0x100);
    assert(rest3 == rest2 / 0x100);
    assert(0 <= rest3 < 0x100);
    assert(pixel as int % 0x100 + rest1 * 0x100 == pixel);
    assert(rest1 % 0x100 + rest2 * 0x100 == rest1);
    assert(rest2 % 0x100 + rest3 * 0x100 == rest2);
}

/// Cutting a region out of a cut-out is cutting the region out of the whole image.
pub proof fn law_crops_compose(
    whole: ImageView,
    part: ImageView,
    piece: ImageView,
    x1: int,
    y1: int,
    x2: int,
    y2: int,
    u1: int,
    v1: int,
    u2: int,
    v2: int,
)
    requires
        is_part(part, whole, x1, y1, x2, y2),
        is_part(piece, part, u1, v1, u2, v2),
        0 <= u1 <= u2 <= part.width,
        0 <= v1 <= v2 <= part.height,
    ensures
        is_part(piece, whole, x1 + u1, y1 + v1, x1 + u2, y1 + v2),
{
    assert forall|x: int, y: int, channel: int|
        0 <= x < piece.width && 0 <= y < piece.height && 0 <= channel < 4 implies #[trigger] piece.at(
        x,
        y,
        channel,
    ) == whole.at(x1 + u1 + x, y1 + v1 + y, channel) by {
        assert(piece.at(x, y, channel) == part.at(u1 + x, v1 + y, channel));
        assert(part.at(u1 + x, v1 + y, channel) == whole.at(
            x1 + (u1 + x),
            y1 + (v1 + y),
            channel,
        ));
    }
}

/// The bits of a channel of a pixel: the channels are counted from the most significant one, and
/// have eight bits each, or two and three times ten.
pub open spec fn field(pixel: int, k: int, wide: bool) -> int {
    if wide {
        if k == 0 {
            pixel / 0x4000_0000
        } else if k == 1 {
            pixel / 0x10_0000 % 0x400
        } else if k == 2 {
            pixel / 0x400 % 0x400
        } else {
            pixel % 0x400
        }
    } else {
        if k == 0 {
            pixel / 0x100_0000
        } else if k == 1 {
            pixel / 0x1_0000 % 0x100
        } else if k == 2 {
            pixel / 0x100 % 0x100
        } else {
            pixel % 0x100
        }
    }
}

/// Whether eight bits are what bits of a channel come to: themselves, the nearest value where they
/// are ten, and a third of the range for each step where they are two.
pub open spec fn is_shade(value: u8, bits: int, width: int) -> bool {
    &&& width == 8 ==> value == bits
    &&& width == 2 ==> 3 * value == 255 * bits
    &&& width == 10 ==> -1023 <= 2 * (1023 * value - 255 * bits) <= 1023
}

/// Whether red, green, blue and alpha hold the channel of a pixel that stands at a place.
pub open spec fn has_channel(rgba: Seq<u8>, pixel: int, format: PixelFormat, k: int) -> bool {
    let list = channels(format);
    let bits = field(pixel, k, list[0].1 == 2);
    &&& list[k].0 == 'R' ==> is_shade(rgba[0], bits, list[k].1)
    &&& list[k].0 == 'G' ==> is_shade(rgba[1], bits, list[k].1)
    &&& list[k].0 == 'B' ==> is_shade(rgba[2], bits, list[k].1)
    &&& list[k].0 == 'A' ==> is_shade(rgba[3], bits, list[k].1)
    &&& list[k].0 == 'X' ==> rgba[3] == 255
}

/// Whether red, green, blue and alpha are those of a pixel.
pub open spec fn has_color(rgba: Seq<u8>, pixel: int, format: PixelFormat) -> bool {
    &&& rgba.len() == 4
    &&& has_channel(rgba, pixel, format, 0)
    &&& has_channel(rgba, pixel, format, 1)
    &&& has_channel(rgba, pixel, format, 2)
    &&& has_channel(rgba, pixel, format, 3)
}

/// Whether frames of a format can be read: alpha, or what stands in for it, is the most significant
/// channel.
pub open spec fn is_readable(format: PixelFormat) -> bool {
    channels(format).len() == 4 && (channels(format)[0].0 == 'A' || channels(format)[0].0 == 'X')
}

proof fn lemma_unpacked(pixel: u32, format: PixelFormat)
    ensures
        unpacked(pixel, format) is Some <==> is_readable(format),
        unpacked(pixel, format) matches Some(rgba) ==> has_color(rgba, pixel as int, format),
{
    law_ten_bits_round_to_nearest(ten_bits_at(pixel, 1));
    law_ten_bits_round_to_nearest(ten_bits_at(pixel, 0x400));
    law_ten_bits_round_to_nearest(ten_bits_at(pixel, 0x10_0000));
    let top = pixel as int / 0x4000_0000;
    assert(0 <= top < 4);
    assert(top % 4 == top);
    assert(pixel as int / 0x100_0000 % 0x100 == pixel as int / 0x100_0000);
    assert(!(format is Other) ==> channels(format).len() == 4);
}

/// A pixel comes apart into the channels that its format names, wherever they stand. A format whose
/// most significant channel is a colour is refused by its name.
pub proof fn law_pixels_come_apart(
    pixel: u32,
    format: PixelFormat,
    rgba: Result<[u8; 4], ImageError>,
)
    requires
        call_ensures(unpack_shm_pixel, (pixel, format), rgba),
    ensures
        rgba is Ok <==> is_readable(format),
        rgba matches Ok(color) ==> has_color(color@, pixel as int, format),
        rgba matches Err(error) ==> error == ImageError::UnsupportedFormat(format),
{
    lemma_unpacked(pixel, format);
}

/// Ten bits become the nearest of the eight-bit values, and two bits thirds of the range. Higher
/// bits than those two do not count.
pub proof fn law_channels_are_fitted(ten: u32, eight: u8, two: u32, spread: u8)
    requires
        ten * 255 + 511 <= u32::MAX,
        call_ensures(ten_to_eight, (ten,), eight),
        call_ensures(two_to_eight, (two,), spread),
    ensures
        ten <= 1023 ==> -1023 <= 2 * (1023 * eight - 255 * ten) <= 1023,
        eight == (ten * 255 + 511) / 1023 % 0x100,
        3 * spread == 255 * (two % 4),
{
    if ten <= 1023 {
        law_ten_bits_round_to_nearest(ten as int);
    }
}

/// A new image has its size and no color at all. It is refused exactly where its bytes cannot be
/// counted.
pub proof fn law_new_images_are_clear(
    width: u32,
    height: u32,
    image: Result<RgbaImage, ImageError>,
    len: Result<usize, ImageError>,
    k: int,
)
    requires
        call_ensures(RgbaImage::new, (width, height), image),
        call_ensures(image_byte_len, (width, height), len),
    ensures
        image is Err <==> width * height * 4 > usize::MAX,
        len is Err <==> width * height * 4 > usize::MAX,
        len matches Ok(n) ==> n == width * height * 4,
        len matches Err(error) ==> error == ImageError::DimensionsOverflow,
        image matches Err(error) ==> error == ImageError::DimensionsOverflow,
        image matches Ok(i) ==> i.width == width && i.height == height && i.pixels@.len() == width
            * height * 4,
        image matches Ok(i) ==> (0 <= k < i.pixels@.len() ==> i.pixels@[k] == 0),
{
}

/// The larger of two numbers.
pub open spec fn larger(a: int, b: int) -> int {
    if a < b {
        b
    } else {
        a
    }
}

/// The smaller of two numbers.
pub open spec fn smaller(a: int, b: int) -> int {
    if a < b {
        a
    } else {
        b
    }
}

/// Whether nothing is left of a region in an image: on one of the axes it ends before the image
/// starts or starts where the image has ended, or it has no extent.
pub open spec fn nothing_left(
    image: RgbaImage,
    x: int,
    y: int,
    width: int,
    height: int,
) -> bool {
    ||| smaller(x + width, image.width as int) <= larger(x, 0)
    ||| smaller(y + height, image.height as int) <= larger(y, 0)
}

/// Whether an image is what a region cuts out of another one: it starts where both of them have
/// started, ends where one of them ends, and has the bytes of the other in the same order.
pub open spec fn is_cut_out(
    part: RgbaImage,
    image: RgbaImage,
    x: int,
    y: int,
    width: int,
    height: int,
) -> bool {
    &&& part.width == smaller(x + width, image.width as int) - larger(x, 0)
    &&& part.height == smaller(y + height, image.height as int) - larger(y, 0)
    &&& part.pixels@.len() == part.width * part.height * 4
    &&& forall|px: int, py: int, channel: int|
        0 <= px < part.width && 0 <= py < part.height && 0 <= channel < 4 ==> has_byte(
            part,
            px,
            py,
            channel,
            #[trigger] byte_of(image, larger(x, 0) + px, larger(y, 0) + py, channel),
        )
}

/// The byte of a channel of a pixel of an image.
pub open spec fn byte_of(image: RgbaImage, px: int, py: int, channel: int) -> u8 {
    image.pixels@[(py * image.width + px) * 4 + channel]
}

/// Whether a channel of a pixel of an image is a byte.
pub open spec fn has_byte(image: RgbaImage, px: int, py: int, channel: int, byte: u8) -> bool {
    image.pixels@[(py * image.width + px) * 4 + channel] == byte
}

pub(crate) proof fn lemma_cut_out(
    part: RgbaImage,
    image: RgbaImage,
    x: int,
    y: int,
    width: int,
    height: int,
)
    requires
        is_part(
            part@,
            image@,
            edge(x, image.width),
            edge(y, image.height),
            edge(x + width, image.width),
            edge(y + height, image.height),
        ),
        !nothing_left(image, x, y, width, height),
    ensures
        is_cut_out(part, image, x, y, width, height),
{
    let left = edge(x, image.width);
    let top = edge(y, image.height);
    assert(left == larger(x, 0));
    assert(top == larger(y, 0));
    assert forall|px: int, py: int, channel: int|
        0 <= px < part.width && 0 <= py < part.height && 0 <= channel < 4 implies has_byte(
        part,
        px,
        py,
        channel,
        #[trigger] byte_of(image, larger(x, 0) + px, larger(y, 0) + py, channel),
    ) by {
        assert(part@.at(px, py, channel) == image@.at(left + px, top + py, channel));
    }
}

/// A region is cut out of an image to the pixel, and refused exactly where nothing is left.
pub proof fn law_regions_are_cut_out(
    image: RgbaImage,
    x: i64,
    y: i64,
    width: i64,
    height: i64,
    cropped: Result<RgbaImage, ImageError>,
)
    requires
        call_ensures(RgbaImage::crop, (&image, x, y, width, height), cropped),
    ensures
        cropped is Err <==> nothing_left(
            image,
            x as int,
            y as int,
            width as int,
            height as int,
        ),
        cropped matches Err(error) ==> error == ImageError::EmptyRegion,
        cropped matches Ok(part) ==> is_cut_out(
            part,
            image,
            x as int,
            y as int,
            width as int,
            height as int,
        ),
{
    if let Ok(part) = cropped {
        lemma_cut_out(part, image, x as int, y as int, width as int, height as int);
    }
}

/// The number that four bytes from an offset on stand for.
pub open spec fn word_at(bytes: Seq<u8>, at: int, order: ByteOrder) -> int {
    match order {
        ByteOrder::Little => bytes[at] + 0x100 * bytes[at + 1] + 0x1_0000 * bytes[at + 2]
            + 0x100_0000 * bytes[at + 3],
        ByteOrder::Big => bytes[at + 3] + 0x100 * bytes[at + 2] + 0x1_0000 * bytes[at + 1]
            + 0x100_0000 * bytes[at],
    }
}

/// Whether a pixel of an image has the color of that pixel of a frame: a row of the frame is a
/// stride of bytes, and a pixel four bytes.
pub open spec fn shows_pixel(
    image: RgbaImage,
    bytes: Seq<u8>,
    format: ShmFormat,
    order: ByteOrder,
    x: int,
    y: int,
) -> bool {
    let at = (y * image.width + x) * 4;
    has_color(
        seq![
            image.pixels@[at],
            image.pixels@[at + 1],
            image.pixels@[at + 2],
            image.pixels@[at + 3],
        ],
        word_at(bytes, y * format.stride + x * 4, order),
        format.format,
    )
}

proof fn lemma_shown(
    image: RgbaImage,
    bytes: Seq<u8>,
    format: ShmFormat,
    order: ByteOrder,
    x: int,
    y: int,
)
    requires
        shows_frame(image@, bytes, format, order),
        frame_covers(bytes, format),
        frame_error(format) is None,
        0 <= x < format.size.width,
        0 <= y < format.size.height,
    ensures
        shows_pixel(image, bytes, format, order, x, y),
{
    let at = (y * image.width + x) * 4;
    let offset = source_offset(format, x, y);
    let pixel = frame_pixel(bytes, format, order, x, y);
    lemma_source_bound(format, x, y);
    lemma_readable(0, pixel, format.format);
    lemma_four_at(bytes, offset, order);
    lemma_unpacked(pixel, format.format);
    let color = unpacked(pixel, format.format)->0;
    assert(image@.at(x, y, 0) == color[0]);
    assert(image@.at(x, y, 1) == color[1]);
    assert(image@.at(x, y, 2) == color[2]);
    assert(image@.at(x, y, 3) == color[3]);
    assert(seq![
        image.pixels@[at],
        image.pixels@[at + 1],
        image.pixels@[at + 2],
        image.pixels@[at + 3],
    ] == color);
}

proof fn lemma_four_at(bytes: Seq<u8>, at: int, order: ByteOrder)
    requires
        0 <= at,
        at + 4 <= bytes.len(),
    ensures
        number_of(bytes.subrange(at, at + 4), order) == word_at(bytes, at, order),
{
    let part = bytes.subrange(at, at + 4);
    lemma_four(part[0], part[1], part[2], part[3]);
    lemma_four(part[3], part[2], part[1], part[0]);
    assert(part == seq![part[0], part[1], part[2], part[3]]);
    assert(part.reverse() == seq![part[3], part[2], part[1], part[0]]);
}

/// The image of a frame has its size, and every pixel the color that it has in the frame. A frame
/// is refused where the bytes of its image cannot be counted, and where it has pixels of a format
/// that cannot be read.
pub proof fn law_frames_are_shown(
    bytes: &[u8],
    format: ShmFormat,
    order: ByteOrder,
    image: Result<RgbaImage, ImageError>,
    x: int,
    y: int,
)
    requires
        call_ensures(read_frame, (bytes, format, order), image),
        frame_covers(bytes@, format),
    ensures
        image matches Err(error) ==> (error == ImageError::DimensionsOverflow && format.size.width
            * format.size.height * 4 > usize::MAX) || (error == ImageError::UnsupportedFormat(
            format.format,
        ) && format.size.width * format.size.height * 4 <= usize::MAX),
        image is Ok <==> format.size.width * format.size.height * 4 <= usize::MAX && (is_readable(
            format.format,
        ) || format.size.width == 0 || format.size.height == 0),
        image matches Ok(i) ==> i.width == format.size.width && i.height == format.size.height
            && i.pixels@.len() == i.width * i.height * 4,
        image matches Ok(i) ==> (0 <= x < i.width && 0 <= y < i.height ==> shows_pixel(
            i,
            bytes@,
            format,
            order,
            x,
            y,
        )),
{
    lemma_unpacked(0, format.format);
    if let Ok(i) = image {
        if 0 <= x < i.width && 0 <= y < i.height {
            lemma_shown(i, bytes@, format, order, x, y);
        }
    }
}

/// A captured frame is shown in the same way, with its pixels in the byte order of the machine.
pub proof fn law_captured_frames_are_shown(
    bytes: &[u8],
    format: ShmFormat,
    image: Result<RgbaImage, ImageError>,
)
    requires
        call_ensures(shm_to_rgba, (bytes, format), image),
        frame_covers(bytes@, format),
    ensures
        image matches Err(error) ==> (error == ImageError::DimensionsOverflow && format.size.width
            * format.size.height * 4 > usize::MAX) || (error == ImageError::UnsupportedFormat(
            format.format,
        ) && format.size.width * format.size.height * 4 <= usize::MAX),
        image is Ok <==> format.size.width * format.size.height * 4 <= usize::MAX && (is_readable(
            format.format,
        ) || format.size.width == 0 || format.size.height == 0),
        image matches Ok(i) ==> i.width == format.size.width && i.height == format.size.height
            && i.pixels@.len() == i.width * i.height * 4 && exists|order: ByteOrder|
            #![trigger is_native(order)]
            is_native(order) && forall|x: int, y: int|
                0 <= x < i.width && 0 <= y < i.height ==> #[trigger] shows_pixel(
                    i,
                    bytes@,
                    format,
                    order,
                    x,
                    y,
                ),
{
    lemma_unpacked(0, format.format);
    if let Ok(i) = image {
        let order = choose|order: ByteOrder|
            #![trigger is_native(order)]
            is_native(order) && shows_frame(i@, bytes@, format, order);
        assert forall|x: int, y: int| 0 <= x < i.width && 0 <= y < i.height implies #[trigger]
        shows_pixel(i, bytes@, format, order, x, y) by {
            lemma_shown(i, bytes@, format, order, x, y);
        }
        assert(is_native(order));
    }
}

/// A frame can be read where all of its bytes are there, from the first of its first row to the
/// last pixel of its last row. One that is refused at once is told, and so is one without pixels.
pub proof fn law_frames_that_can_be_read(bytes: &[u8], format: ShmFormat, covers: bool)
    requires
        call_ensures(covers_frame, (bytes, format), covers),
    ensures
        ({
            let count = format.size.width * format.size.height * 4;
            let width = format.size.width as int;
            let height = format.size.height as int;
            &&& count > usize::MAX ==> covers
            &&& isize::MAX < count <= usize::MAX ==> !covers
            &&& count <= isize::MAX && (width == 0 || height == 0) ==> covers
            &&& count <= isize::MAX && width > 0 && height > 0 && is_readable(format.format) ==> (
            covers <==> (height - 1) * format.stride + width * 4 <= bytes@.len())
            &&& count <= isize::MAX && width > 0 && height > 0 && !is_readable(format.format) ==> (
            covers <==> bytes@.len() >= 4)
        }),
{
    lemma_unpacked(0, format.format);
}

} // verus!
