//! Screenshots: from the region that was selected to the file that it is saved in.

use vstd::arithmetic::div_mod::lemma_fundamental_div_mod_converse_div;
use vstd::prelude::*;
use vstd::string::{StringExecFns, StringSliceAdditionalSpecFns};
use vstd::utf8::{encode_utf8, encode_utf8_decode_utf8};

use crate::buffers::{BufferView, DirectCaptureBuffer};
use crate::capture::{
    output_named,
    CaptureProbe,
    CaptureTarget,
    DirectCapture,
    OutputInfo,
    OutputView,
};
use crate::config::{continued, join_path, joined, value_of};
use crate::formats::{
    choose_readable_shm_format,
    first_preferred,
    format_name,
    name_of,
    readable_preference,
    PixelFormat,
    ShmFormat,
};
use crate::geometry::Size;
use crate::image::{
    byte_count,
    edge,
    frame_covers,
    frame_error,
    is_cut_out,
    is_part,
    lemma_cut_out,
    nothing_left,
    ImageError,
    ImageView,
    RgbaImage,
};
use crate::search::lemma_is_first_index;
use crate::shell::CustomRegion;
use crate::text::{decimal, is_digit, lemma_decimal_digits, push_decimal};
use crate::uri::{file_uri, law_uris_are_distinct, path_to_file_uri};

verus! {

/// Why there is no screenshot.
#[derive(Debug)]
pub enum ScreenshotError {
    /// No format is offered whose frames can be read.
    NoReadableFormat,
    /// The buffer is not in shared memory.
    NotShm,
    /// The buffer would be larger than the memory that was made for it.
    ConstraintsChanged,
    /// The frame does not fit into the address space.
    FrameTooLarge,
    /// There is no monitor of this name.
    MonitorNotFound(String),
    /// The monitor has no logical extent.
    InvalidLogicalSize,
    /// The frame could not be read, or the region has none of it.
    Image(ImageError),
    /// The image could not be encoded; the text says why.
    Encoding(String),
}

impl ScreenshotError {
    /// The words for an error.
    pub open spec fn words(self) -> Seq<char> {
        match self {
            ScreenshotError::NoReadableFormat => {
                "compositor advertised no readable SHM screenshot format"@
            },
            ScreenshotError::NotShm => "screenshot capture created a non-SHM buffer"@,
            ScreenshotError::ConstraintsChanged => {
                "screenshot buffer constraints changed during allocation"@
            },
            ScreenshotError::FrameTooLarge => {
                "out of range integral type conversion attempted"@
            },
            ScreenshotError::MonitorNotFound(name) => "selected monitor "@ + name@
                + " was not found"@,
            ScreenshotError::InvalidLogicalSize => {
                "selected monitor has invalid logical dimensions"@
            },
            ScreenshotError::Image(ImageError::DimensionsOverflow) => {
                "screenshot dimensions overflow address space"@
            },
            ScreenshotError::Image(ImageError::EmptyRegion) => {
                "selected screenshot region is empty"@
            },
            ScreenshotError::Image(ImageError::UnsupportedFormat(format)) => {
                "unsupported screenshot SHM format "@ + name_of(format)
            },
            ScreenshotError::Encoding(text) => text@,
        }
    }

    /// Says what went wrong.
    pub fn message(&self) -> (text: String)
        ensures
            text@ == self.words(),
    {
        match self {
            ScreenshotError::NoReadableFormat => {
                "compositor advertised no readable SHM screenshot format".to_owned()
            },
            ScreenshotError::NotShm => "screenshot capture created a non-SHM buffer".to_owned(),
            ScreenshotError::ConstraintsChanged => {
                "screenshot buffer constraints changed during allocation".to_owned()
            },
            ScreenshotError::FrameTooLarge => {
                "out of range integral type conversion attempted".to_owned()
            },
            ScreenshotError::MonitorNotFound(name) => {
                let mut text: String = "selected monitor ".to_owned();
                text.append(name.as_str());
                text.append(" was not found");
                text
            },
            ScreenshotError::InvalidLogicalSize => {
                "selected monitor has invalid logical dimensions".to_owned()
            },
            ScreenshotError::Image(ImageError::DimensionsOverflow) => {
                "screenshot dimensions overflow address space".to_owned()
            },
            ScreenshotError::Image(ImageError::EmptyRegion) => {
                "selected screenshot region is empty".to_owned()
            },
            ScreenshotError::Image(ImageError::UnsupportedFormat(format)) => {
                let mut text: String = "unsupported screenshot SHM format ".to_owned();
                text.append(format_name(*format).as_str());
                text
            },
            ScreenshotError::Encoding(text) => text.clone(),
        }
    }
}

/// The format to capture a screenshot in, given what a probe of its target found.
pub fn capture_target(probe: &CaptureProbe) -> (format: Result<ShmFormat, ScreenshotError>)
    ensures
        format == match first_preferred(probe@.shm_formats, readable_preference()) {
            Some(format) => Ok(format),
            None => Err(ScreenshotError::NoReadableFormat),
        },
{
    match choose_readable_shm_format(probe.shm_formats.as_slice()) {
        Some(format) => Ok(format),
        None => Err(ScreenshotError::NoReadableFormat),
    }
}

/// Accepts the buffer that was made for a screenshot, if it lies in the memory that was made for
/// the format.
pub fn accept_buffer(format: ShmFormat, buffer: &DirectCaptureBuffer) -> (accepted: Result<
    ShmFormat,
    ScreenshotError,
>)
    ensures
        accepted == match buffer@ {
            BufferView::Dmabuf { .. } => Err(ScreenshotError::NotShm),
            BufferView::Shm { format: actual } => if actual.bytes() > format.bytes() {
                Err(ScreenshotError::ConstraintsChanged)
            } else {
                Ok(actual)
            },
        },
{
    match buffer.shm_format() {
        None => Err(ScreenshotError::NotShm),
        Some(actual) => if actual.byte_size() > format.byte_size() {
            Err(ScreenshotError::ConstraintsChanged)
        } else {
            Ok(actual)
        },
    }
}

/// The number of bytes to read of a captured frame.
pub fn frame_len(format: ShmFormat) -> (len: Result<usize, ScreenshotError>)
    ensures
        len == if format.bytes() <= usize::MAX {
            Ok(format.bytes() as usize)
        } else {
            Err(ScreenshotError::FrameTooLarge)
        },
{
    let bytes: u64 = format.byte_size();
    if bytes <= usize::MAX as u64 {
        Ok(bytes as usize)
    } else {
        Err(ScreenshotError::FrameTooLarge)
    }
}

/// What to capture for a region, and the logical extent that the region is measured in.
pub fn capture_region(capture: &DirectCapture, region: &CustomRegion) -> (target: Result<
    (CaptureTarget, Size),
    ScreenshotError,
>)
    ensures
        match output_named(capture@.outputs, region.monitor@) {
            Some(output) => if output.size.width == 0 || output.size.height == 0 {
                target == Err::<(CaptureTarget, Size), _>(ScreenshotError::InvalidLogicalSize)
            } else {
                target == Ok::<_, ScreenshotError>(
                    (CaptureTarget::Output(output.output), output.size),
                )
            },
            None => target matches Err(ScreenshotError::MonitorNotFound(name)) && name@
                == region.monitor@,
        },
{
    match capture.find_output(region.monitor.as_str()) {
        Some(i) => {
            let output: &OutputInfo = &capture.outputs[i];
            if output.size.width == 0 || output.size.height == 0 {
                return Err(ScreenshotError::InvalidLogicalSize);
            }
            Ok((CaptureTarget::Output(output.output), output.size))
        },
        None => Err(ScreenshotError::MonitorNotFound(region.monitor.clone())),
    }
}

/// A logical coordinate in the pixels of an image, rounded towards zero.
pub open spec fn scaled(value: int, extent: u32, logical: u32) -> int {
    if value >= 0 {
        value * extent / logical as int
    } else {
        -(-value * extent / logical as int)
    }
}

fn scale(value: i32, extent: u32, logical: u32) -> (pixels: i64)
    requires
        logical > 0,
    ensures
        pixels == scaled(value as int, extent, logical),
{
    proof {
        lemma_product_fits(value as int, extent as int);
        assert(-value * extent == -(value * extent)) by (nonlinear_arith);
        if value >= 0 {
            assert(value * extent >= 0) by (nonlinear_arith)
                requires
                    value >= 0,
                    extent >= 0,
            ;
        } else {
            assert(value * extent <= 0) by (nonlinear_arith)
                requires
                    value <= 0,
                    extent >= 0,
            ;
        }
    }
    value as i64 * extent as i64 / logical as i64
}

proof fn lemma_product_fits(value: int, extent: int)
    requires
        i32::MIN <= value <= i32::MAX,
        0 <= extent <= u32::MAX,
    ensures
        i64::MIN < value * extent <= i64::MAX,
{
    assert(i32::MIN * u32::MAX <= value * extent <= i32::MAX * u32::MAX) by (nonlinear_arith)
        requires
            i32::MIN <= value <= i32::MAX,
            0 <= extent <= u32::MAX,
    ;
}

/// Whether the far edges of a region can be computed in 64 bits.
pub open spec fn region_fits(region: CustomRegion, image: ImageView, logical: Size) -> bool {
    &&& i64::MIN <= scaled(region.x as int, image.width, logical.width) + scaled(
        region.width as int,
        image.width,
        logical.width,
    ) <= i64::MAX
    &&& i64::MIN <= scaled(region.y as int, image.height, logical.height) + scaled(
        region.height as int,
        image.height,
        logical.height,
    ) <= i64::MAX
}

/// Whether the far edges of a region can be computed in 64 bits.
pub fn can_crop_region(region: &CustomRegion, image: &RgbaImage, logical: Size) -> (fits: bool)
    requires
        logical.width > 0,
        logical.height > 0,
    ensures
        fits == region_fits(*region, image@, logical),
{
    let x: i64 = scale(region.x, image.width, logical.width);
    let y: i64 = scale(region.y, image.height, logical.height);
    let width: i64 = scale(region.width, image.width, logical.width);
    let height: i64 = scale(region.height, image.height, logical.height);
    x.checked_add(width).is_some() && y.checked_add(height).is_some()
}

/// The left edge of a region in an image.
pub open spec fn region_left(region: CustomRegion, image: ImageView, logical: Size) -> int {
    edge(scaled(region.x as int, image.width, logical.width), image.width)
}

/// The top edge of a region in an image.
pub open spec fn region_top(region: CustomRegion, image: ImageView, logical: Size) -> int {
    edge(scaled(region.y as int, image.height, logical.height), image.height)
}

/// The right edge of a region in an image.
pub open spec fn region_right(region: CustomRegion, image: ImageView, logical: Size) -> int {
    edge(
        scaled(region.x as int, image.width, logical.width) + scaled(
            region.width as int,
            image.width,
            logical.width,
        ),
        image.width,
    )
}

/// The bottom edge of a region in an image.
pub open spec fn region_bottom(region: CustomRegion, image: ImageView, logical: Size) -> int {
    edge(
        scaled(region.y as int, image.height, logical.height) + scaled(
            region.height as int,
            image.height,
            logical.height,
        ),
        image.height,
    )
}

/// Cuts a region out of the image of its monitor. The region is measured in the logical extent of
/// the monitor, the image in pixels.
pub fn crop_region(image: &RgbaImage, region: &CustomRegion, logical: Size) -> (cropped: Result<
    RgbaImage,
    ScreenshotError,
>)
    requires
        image@.wf(),
        logical.width > 0,
        logical.height > 0,
        region_fits(*region, image@, logical),
    ensures
        cropped matches Ok(part) ==> is_part(
            part@,
            image@,
            region_left(*region, image@, logical),
            region_top(*region, image@, logical),
            region_right(*region, image@, logical),
            region_bottom(*region, image@, logical),
        ),
        cropped is Ok <==> region_left(*region, image@, logical) < region_right(
            *region,
            image@,
            logical,
        ) && region_top(*region, image@, logical) < region_bottom(*region, image@, logical),
        cropped matches Err(e) ==> e == ScreenshotError::Image(ImageError::EmptyRegion),
{
    let x: i64 = scale(region.x, image.width, logical.width);
    let y: i64 = scale(region.y, image.height, logical.height);
    let width: i64 = scale(region.width, image.width, logical.width);
    let height: i64 = scale(region.height, image.height, logical.height);
    match image.crop(x, y, width, height) {
        Ok(part) => Ok(part),
        Err(error) => Err(ScreenshotError::Image(error)),
    }
}

/// What the encoder of the `png` crate makes of an image with eight bits each for red, green, blue
/// and alpha: the file, or the words for why there is none.
pub uninterp spec fn png_file(width: u32, height: u32, pixels: Seq<u8>) -> Result<
    Seq<u8>,
    Seq<char>,
>;

/// The bytes of a file, or the words for why there is none.
pub open spec fn file_or_words(file: Result<Vec<u8>, String>) -> Result<Seq<u8>, Seq<char>> {
    match file {
        Ok(bytes) => Ok(bytes@),
        Err(text) => Err(text@),
    }
}

/// `png::Encoder` and `png::Writer`: encodes an image into memory. An image without a column or a
/// row is an error, in the words of the encoder. Any other image has a file. What the bytes of a
/// file are is not stated.
#[verifier::external_body]
fn encode_rgba(width: u32, height: u32, pixels: &[u8]) -> (file: Result<Vec<u8>, String>)
    requires
        pixels@.len() == byte_count(width, height),
    ensures
        file_or_words(file) == png_file(width, height, pixels@),
        width == 0 ==> file is Err && file->Err_0@ == "Zero width not allowed"@,
        width > 0 && height == 0 ==> file is Err && file->Err_0@ == "Zero height not allowed"@,
        width > 0 && height > 0 ==> file is Ok,
{
    let mut bytes = Vec::new();
    let mut encoder = png::Encoder::new(&mut bytes, width, height);
    encoder.set_color(png::ColorType::Rgba);
    encoder.set_depth(png::BitDepth::Eight);
    let mut writer = encoder.write_header().map_err(|error| error.to_string())?;
    writer.write_image_data(pixels).map_err(|error| error.to_string())?;
    writer.finish().map_err(|error| error.to_string())?;
    Ok(bytes)
}

/// The file to save an image in.
pub fn encode_png(image: &RgbaImage) -> (file: Result<Vec<u8>, ScreenshotError>)
    requires
        image@.wf(),
    ensures
        match png_file(image@.width, image@.height, image@.pixels) {
            Ok(bytes) => file matches Ok(f) && f@ == bytes,
            Err(words) => file matches Err(ScreenshotError::Encoding(text)) && text@ == words,
        },
        image@.width == 0 ==> (file matches Err(e) && e.words() == "Zero width not allowed"@),
        image@.width > 0 && image@.height == 0 ==> (file matches Err(e) && e.words()
            == "Zero height not allowed"@),
        image@.width > 0 && image@.height > 0 ==> file is Ok,
{
    match encode_rgba(image.width, image.height, image.pixels.as_slice()) {
        Ok(bytes) => Ok(bytes),
        Err(text) => Err(ScreenshotError::Encoding(text)),
    }
}

/// Where screenshots are saved, given the variable `XDG_RUNTIME_DIR` and the directory for
/// temporary files.
pub fn screenshot_directory(runtime_dir: Option<Vec<u8>>, temp_dir: Vec<u8>) -> (path: Vec<u8>)
    ensures
        path@ == joined(
            match value_of(runtime_dir) {
                Some(dir) => dir,
                None => temp_dir@,
            },
            "xdg-desktop-portal-shiny".spec_bytes(),
        ),
{
    let base: Vec<u8> = match runtime_dir {
        Some(dir) => dir,
        None => temp_dir,
    };
    join_path(&base, "xdg-desktop-portal-shiny")
}

/// The name of the file of a screenshot.
pub open spec fn file_name(process: u32, sequence: u64) -> Seq<char> {
    "shiny-screenshot-"@ + decimal(process as nat) + "-"@ + decimal(sequence as nat) + ".png"@
}

/// The name of the file of a screenshot, which no other screenshot of any running process has.
pub fn screenshot_file_name(process: u32, sequence: u64) -> (name: String)
    ensures
        name@ == file_name(process, sequence),
{
    let mut name: String = "shiny-screenshot-".to_owned();
    push_decimal(&mut name, process as u64);
    name.append("-");
    push_decimal(&mut name, sequence);
    name.append(".png");
    name
}

/// Where a screenshot is saved.
pub open spec fn file_path(directory: Seq<u8>, process: u32, sequence: u64) -> Seq<u8> {
    joined(directory, encode_utf8(file_name(process, sequence)))
}

/// A screenshot that is ready to be saved.
#[derive(Debug)]
pub struct ScreenshotFile {
    pub path: Vec<u8>,
    pub bytes: Vec<u8>,
    pub uri: String,
}

/// Makes the file of an image. The numbers of the process and of the screenshot tell it apart from
/// all others in the directory.
pub fn write_png(image: &RgbaImage, directory: &Vec<u8>, process: u32, sequence: u64) -> (file:
    Result<ScreenshotFile, ScreenshotError>)
    requires
        image@.wf(),
    ensures
        match png_file(image@.width, image@.height, image@.pixels) {
            Ok(bytes) => {
                &&& file matches Ok(f)
                &&& f.bytes@ == bytes
                &&& f.path@ == file_path(directory@, process, sequence)
                &&& f.uri@ == file_uri(f.path@)
            },
            Err(words) => file matches Err(ScreenshotError::Encoding(text)) && text@ == words,
        },
        image@.width == 0 ==> (file matches Err(e) && e.words() == "Zero width not allowed"@),
        image@.width > 0 && image@.height == 0 ==> (file matches Err(e) && e.words()
            == "Zero height not allowed"@),
        image@.width > 0 && image@.height > 0 ==> file is Ok,
{
    match encode_png(image) {
        Ok(bytes) => Ok(name_file(bytes, directory, process, sequence)),
        Err(error) => Err(error),
    }
}

/// Puts the bytes of a screenshot into a file of their own.
pub fn name_file(bytes: Vec<u8>, directory: &Vec<u8>, process: u32, sequence: u64) -> (file:
    ScreenshotFile)
    ensures
        file.bytes@ == bytes@,
        file.path@ == file_path(directory@, process, sequence),
        file.uri@ == file_uri(file.path@),
{
    let name: String = screenshot_file_name(process, sequence);
    let path: Vec<u8> = join_path(directory, name.as_str());
    let uri: String = path_to_file_uri(path.as_slice());
    ScreenshotFile { path, bytes, uri }
}

/// Texts that end at the first of a separator are the same where they stand in front of the same
/// text.
proof fn lemma_split_once(a: Seq<char>, b: Seq<char>, c: Seq<char>, d: Seq<char>, separator: char)
    requires
        !a.contains(separator),
        !b.contains(separator),
        a.push(separator) + c == b.push(separator) + d,
    ensures
        a == b,
        c == d,
{
    let left = a.push(separator) + c;
    let right = b.push(separator) + d;
    if a.len() < b.len() {
        assert(left[a.len() as int] == separator);
        assert(right[a.len() as int] == b[a.len() as int]);
    } else if b.len() < a.len() {
        assert(right[b.len() as int] == separator);
        assert(left[b.len() as int] == a[b.len() as int]);
    }
    assert forall|i: int| 0 <= i < a.len() implies a[i] == b[i] by {
        assert(left[i] == a[i] && right[i] == b[i]);
    }
    assert(a == b);
    assert(left.skip(a.len() as int + 1) == c);
    assert(right.skip(b.len() as int + 1) == d);
}

proof fn lemma_decimal_has_no_dash(n: nat)
    ensures
        !decimal(n).contains('-'),
        !decimal(n).contains('.'),
{
    lemma_decimal_digits(n);
    assert forall|i: int| 0 <= i < decimal(n).len() implies decimal(n)[i] != '-' && decimal(n)[i]
        != '.' by {
        assert(is_digit(decimal(n)[i]));
    }
}

/// Two screenshots have the same file name only if they are the same: of one process, with one
/// number.
pub proof fn law_file_names_are_distinct(p: u32, s: u64, q: u32, t: u64)
    requires
        file_name(p, s) == file_name(q, t),
    ensures
        p == q,
        s == t,
{
    reveal_strlit("shiny-screenshot-");
    reveal_strlit("-");
    reveal_strlit(".png");
    let (dp, ds) = (decimal(p as nat), decimal(s as nat));
    let (dq, dt) = (decimal(q as nat), decimal(t as nat));
    let left = dp.push('-') + (ds + ".png"@);
    let right = dq.push('-') + (dt + ".png"@);
    assert(file_name(p, s).skip(17) == left);
    assert(file_name(q, t).skip(17) == right);
    lemma_decimal_has_no_dash(p as nat);
    lemma_decimal_has_no_dash(q as nat);
    lemma_split_once(dp, dq, ds + ".png"@, dt + ".png"@, '-');
    assert((ds + ".png"@).take(ds.len() as int) == ds);
    assert((dt + ".png"@).take(dt.len() as int) == dt);
    crate::text::law_decimal_is_injective(p as nat, q as nat);
    crate::text::law_decimal_is_injective(s as nat, t as nat);
}

/// Two screenshots that are saved in one directory have different files and different URIs.
pub proof fn law_saved_files_are_distinct(directory: Seq<u8>, p: u32, s: u64, q: u32, t: u64)
    requires
        p != q || s != t,
    ensures
        file_path(directory, p, s) != file_path(directory, q, t),
        file_uri(file_path(directory, p, s)) != file_uri(file_path(directory, q, t)),
{
    let a = encode_utf8(file_name(p, s));
    let b = encode_utf8(file_name(q, t));
    if joined(directory, a) == joined(directory, b) {
        let n = joined(directory, Seq::empty()).len() as int;
        assert(joined(directory, a).skip(n) == a);
        assert(joined(directory, b).skip(n) == b);
        encode_utf8_decode_utf8(file_name(p, s));
        encode_utf8_decode_utf8(file_name(q, t));
        law_file_names_are_distinct(p, s, q, t);
    }
    if file_uri(file_path(directory, p, s)) == file_uri(file_path(directory, q, t)) {
        law_uris_are_distinct(file_path(directory, p, s), file_path(directory, q, t));
    }
}

/// A region as large as its monitor shows all of the image.
pub proof fn law_whole_monitor_is_whole_image(region: CustomRegion, image: ImageView, logical: Size)
    requires
        logical.width > 0,
        logical.height > 0,
        region.x == 0,
        region.y == 0,
        region.width == logical.width,
        region.height == logical.height,
    ensures
        region_fits(region, image, logical),
        region_left(region, image, logical) == 0,
        region_top(region, image, logical) == 0,
        region_right(region, image, logical) == image.width,
        region_bottom(region, image, logical) == image.height,
{
    lemma_scaled_whole(image.width, logical.width);
    lemma_scaled_whole(image.height, logical.height);
}

proof fn lemma_scaled_whole(extent: u32, logical: u32)
    requires
        logical > 0,
    ensures
        scaled(logical as int, extent, logical) == extent,
        scaled(0, extent, logical) == 0,
{
    assert(logical * extent / logical as int == extent) by (nonlinear_arith)
        requires
            logical > 0,
    ;
    assert(0 * extent == 0);
    assert(0int / logical as int == 0) by (nonlinear_arith)
        requires
            logical > 0,
    ;
}

/// Where the image has the logical extent of its monitor, a region is cut out as it is.
pub proof fn law_unscaled_region_is_exact(value: int, extent: u32)
    requires
        extent > 0,
    ensures
        scaled(value, extent, extent) == value,
{
    assert(value * extent / extent as int == value) by (nonlinear_arith)
        requires
            extent > 0,
    ;
    assert(-value * extent / extent as int == -value) by (nonlinear_arith)
        requires
            extent > 0,
    ;
}

/// The far edges of every region can be computed for images of fewer than 2^31 rows and columns.
pub proof fn law_common_regions_fit(region: CustomRegion, image: ImageView, logical: Size)
    requires
        logical.width > 0,
        logical.height > 0,
        image.width <= i32::MAX,
        image.height <= i32::MAX,
    ensures
        region_fits(region, image, logical),
{
    lemma_scaled_bound(region.x as int, image.width, logical.width);
    lemma_scaled_bound(region.width as int, image.width, logical.width);
    lemma_scaled_bound(region.y as int, image.height, logical.height);
    lemma_scaled_bound(region.height as int, image.height, logical.height);
}

proof fn lemma_scaled_bound(value: int, extent: u32, logical: u32)
    requires
        i32::MIN <= value <= i32::MAX,
        extent <= i32::MAX,
        logical > 0,
    ensures
        -0x4000_0000_0000_0000 <= scaled(value, extent, logical) <= 0x3fff_ffff_ffff_ffff,
{
    let size = if value >= 0 {
        value
    } else {
        -value
    };
    assert(0 <= size * extent <= 0x8000_0000 * 0x7fff_ffff) by (nonlinear_arith)
        requires
            0 <= size <= 0x8000_0000,
            0 <= extent <= 0x7fff_ffff,
    ;
    assert(0 <= size * extent / logical as int <= size * extent) by (nonlinear_arith)
        requires
            0 <= size * extent,
            logical > 0,
    ;
}

/// A frame that was captured whole can be read: one with four bytes for each pixel, as every
/// session offers them, in a format that is chosen for screenshots.
pub proof fn law_captured_frames_can_be_read(format: ShmFormat, bytes: Seq<u8>)
    requires
        readable_preference().contains(format.format),
        format.stride == format.size.width * 4,
        bytes.len() == format.bytes(),
        format.bytes() <= isize::MAX,
    ensures
        frame_covers(bytes, format),
        frame_error(format) is None,
{
    let width = format.size.width as int;
    let height = format.size.height as int;
    assert(format.stride * height == width * height * 4) by (nonlinear_arith)
        requires
            format.stride == width * 4,
    ;
    assert(byte_count(format.size.width, format.size.height) == format.bytes());
    if width > 0 && height > 0 {
        assert((height - 1) * format.stride + (width - 1) * 4 + 4 == format.stride * height)
            by (nonlinear_arith)
            requires
                format.stride == width * 4,
        ;
    }
}

/// The words for why there is no screenshot.
pub proof fn law_screenshot_errors_are_told_apart(
    error: ScreenshotError,
    text: String,
    format: PixelFormat,
    name: String,
)
    requires
        call_ensures(ScreenshotError::message, (&error,), text),
        call_ensures(format_name, (format,), name),
    ensures
        error is NoReadableFormat ==> text@
            == "compositor advertised no readable SHM screenshot format"@,
        error is NotShm ==> text@ == "screenshot capture created a non-SHM buffer"@,
        error is ConstraintsChanged ==> text@
            == "screenshot buffer constraints changed during allocation"@,
        error is FrameTooLarge ==> text@ == "out of range integral type conversion attempted"@,
        error matches ScreenshotError::MonitorNotFound(monitor) ==> text@ == "selected monitor "@
            + monitor@ + " was not found"@,
        error is InvalidLogicalSize ==> text@ == "selected monitor has invalid logical dimensions"@,
        error == ScreenshotError::Image(ImageError::DimensionsOverflow) ==> text@
            == "screenshot dimensions overflow address space"@,
        error == ScreenshotError::Image(ImageError::EmptyRegion) ==> text@
            == "selected screenshot region is empty"@,
        error == ScreenshotError::Image(ImageError::UnsupportedFormat(format)) ==> text@
            == "unsupported screenshot SHM format "@ + name@,
        error matches ScreenshotError::Encoding(reason) ==> text@ == reason@,
{
}

/// A screenshot is captured in the format that is chosen among those of the probe, and not at all
/// where none can be chosen.
pub proof fn law_screenshots_have_a_format(
    probe: CaptureProbe,
    formats: &[ShmFormat],
    chosen: Option<ShmFormat>,
    format: Result<ShmFormat, ScreenshotError>,
)
    requires
        formats@ == probe.shm_formats@,
        call_ensures(choose_readable_shm_format, (formats,), chosen),
        call_ensures(capture_target, (&probe,), format),
    ensures
        chosen is None <==> format is Err,
        format matches Ok(f) ==> chosen == Some(f),
        format matches Err(error) ==> error is NoReadableFormat,
{
}

/// A buffer is accepted where it is shared memory and needs no more bytes than the format that
/// memory was made for. What is accepted is its own format.
pub proof fn law_smaller_buffers_are_accepted(
    format: ShmFormat,
    buffer: DirectCaptureBuffer,
    accepted: Result<ShmFormat, ScreenshotError>,
    len: Result<usize, ScreenshotError>,
)
    requires
        call_ensures(accept_buffer, (format, &buffer), accepted),
        call_ensures(frame_len, (format,), len),
    ensures
        buffer is Dmabuf ==> (accepted matches Err(error) && error is NotShm),
        buffer matches DirectCaptureBuffer::Shm { format: actual } ==> (if actual.stride
            * actual.size.height <= format.stride * format.size.height {
            accepted matches Ok(f) && f == actual
        } else {
            accepted matches Err(error) && error is ConstraintsChanged
        }),
        len is Ok <==> format.stride * format.size.height <= usize::MAX,
        len matches Ok(n) ==> n == format.stride * format.size.height,
        len matches Err(error) ==> error is FrameTooLarge,
{
    assert(0 <= format.stride * format.size.height) by (nonlinear_arith)
        requires
            format.stride >= 0,
            format.size.height >= 0,
    ;
}

/// For a region the first monitor of its name is captured, and the region is measured in the size
/// of that monitor. One that is not there is told by its name, and one without a size is refused.
pub proof fn law_regions_are_of_monitors(
    capture: DirectCapture,
    region: CustomRegion,
    i: int,
    target: Result<(CaptureTarget, Size), ScreenshotError>,
)
    requires
        call_ensures(capture_region, (&capture, &region), target),
    ensures
        (forall|j: int|
            0 <= j < capture.outputs@.len() ==> (#[trigger] capture.outputs@[j]).name@
                != region.monitor@) ==> (target matches Err(error) && (
        error matches ScreenshotError::MonitorNotFound(name) && name@ == region.monitor@)),
        0 <= i < capture.outputs@.len() && capture.outputs@[i].name@ == region.monitor@ && (forall|
            j: int,
        |
            0 <= j < i ==> (#[trigger] capture.outputs@[j]).name@ != region.monitor@) ==> (
        if capture.outputs@[i].size.width == 0 || capture.outputs@[i].size.height == 0 {
            target matches Err(error) && error is InvalidLogicalSize
        } else {
            target matches Ok((captured, logical)) && captured == CaptureTarget::Output(
                capture.outputs@[i].output,
            ) && logical == capture.outputs@[i].size
        }),
{
    let wanted = |o: OutputView| o.name == region.monitor@;
    let views = capture@.outputs;
    assert(views.len() == capture.outputs@.len());
    assert forall|j: int| 0 <= j < views.len() implies #[trigger] views[j]
        == capture.outputs@[j]@ by {}
    if forall|j: int|
        0 <= j < capture.outputs@.len() ==> (#[trigger] capture.outputs@[j]).name@
            != region.monitor@ {
        assert forall|j: int| 0 <= j < views.len() implies !wanted(#[trigger] views[j]) by {
            assert(capture.outputs@[j].name@ != region.monitor@);
        }
        lemma_is_first_index(views, wanted, views.len() as int);
    }
    if 0 <= i < capture.outputs@.len() && capture.outputs@[i].name@ == region.monitor@ && (forall|
        j: int,
    |
        0 <= j < i ==> (#[trigger] capture.outputs@[j]).name@ != region.monitor@) {
        assert(wanted(views[i]));
        assert forall|j: int| 0 <= j < i implies !wanted(#[trigger] views[j]) by {
            assert(capture.outputs@[j].name@ != region.monitor@);
        }
        lemma_is_first_index(views, wanted, i);
    }
}

/// Whether pixels are a logical coordinate times the extent of an image over that of its monitor,
/// with what is left over from the division dropped, on either side of zero.
pub open spec fn is_scaled(pixels: int, value: int, extent: u32, logical: u32) -> bool {
    &&& value >= 0 ==> pixels >= 0 && pixels * logical <= value * extent && value * extent < (pixels
        + 1) * logical
    &&& value <= 0 ==> pixels <= 0 && value * extent <= pixels * logical && (pixels - 1) * logical
        < value * extent
}

proof fn lemma_is_scaled(pixels: int, value: int, extent: u32, logical: u32)
    requires
        logical > 0,
        is_scaled(pixels, value, extent, logical),
    ensures
        pixels == scaled(value, extent, logical),
{
    let product = value * extent;
    assert(-value * extent == -product) by (nonlinear_arith)
        requires
            product == value * extent,
    ;
    if value >= 0 {
        let rest = product - pixels * logical;
        assert((pixels + 1) * logical == pixels * logical + logical) by (nonlinear_arith);
        lemma_fundamental_div_mod_converse_div(product, logical as int, pixels, rest);
    } else {
        let rest = pixels * logical - product;
        assert((pixels - 1) * logical == pixels * logical - logical) by (nonlinear_arith);
        assert(-pixels * logical == -(pixels * logical)) by (nonlinear_arith);
        lemma_fundamental_div_mod_converse_div(-product, logical as int, -pixels, rest);
    }
}

/// A region is cut out of the image of its monitor: each of its coordinates and extents is scaled
/// along its own axis. It is refused where nothing is left of it.
pub proof fn law_regions_are_scaled(
    image: RgbaImage,
    region: CustomRegion,
    logical: Size,
    cropped: Result<RgbaImage, ScreenshotError>,
    fits: bool,
    x: int,
    y: int,
    width: int,
    height: int,
)
    requires
        logical.width > 0,
        logical.height > 0,
        call_ensures(can_crop_region, (&region, &image, logical), fits),
        call_ensures(crop_region, (&image, &region, logical), cropped),
        is_scaled(x, region.x as int, image.width, logical.width),
        is_scaled(y, region.y as int, image.height, logical.height),
        is_scaled(width, region.width as int, image.width, logical.width),
        is_scaled(height, region.height as int, image.height, logical.height),
    ensures
        fits <==> -0x8000_0000_0000_0000 <= x + width <= 0x7fff_ffff_ffff_ffff
            && -0x8000_0000_0000_0000 <= y + height <= 0x7fff_ffff_ffff_ffff,
        cropped is Err <==> nothing_left(image, x, y, width, height),
        cropped matches Err(error) ==> error == ScreenshotError::Image(ImageError::EmptyRegion),
        cropped matches Ok(part) ==> is_cut_out(part, image, x, y, width, height),
{
    lemma_is_scaled(x, region.x as int, image.width, logical.width);
    lemma_is_scaled(y, region.y as int, image.height, logical.height);
    lemma_is_scaled(width, region.width as int, image.width, logical.width);
    lemma_is_scaled(height, region.height as int, image.height, logical.height);
    if let Ok(part) = cropped {
        lemma_cut_out(part, image, x, y, width, height);
    }
}

/// The encoder is handed the image as it is. One without a column or a row is refused for that, and
/// any other has a file.
pub proof fn law_images_are_encoded(
    image: RgbaImage,
    file: Result<Vec<u8>, ScreenshotError>,
)
    requires
        call_ensures(encode_png, (&image,), file),
    ensures
        file matches Ok(bytes) ==> png_file(image.width, image.height, image.pixels@) == Ok::<
            Seq<u8>,
            Seq<char>,
        >(bytes@),
        file matches Err(error) ==> (error matches ScreenshotError::Encoding(text) && png_file(
            image.width,
            image.height,
            image.pixels@,
        ) == Err::<Seq<u8>, Seq<char>>(text@)),
        file is Ok <==> image.width > 0 && image.height > 0,
        image.width == 0 ==> (file matches Err(error) && (
        error matches ScreenshotError::Encoding(text) && text@ == "Zero width not allowed"@)),
        image.width > 0 && image.height == 0 ==> (file matches Err(error) && (
        error matches ScreenshotError::Encoding(text) && text@ == "Zero height not allowed"@)),
{
}

/// Screenshots lie in a directory of their own below that of the session, or else below the one for
/// temporary files.
pub proof fn law_screenshots_have_a_directory(
    runtime_dir: Option<Vec<u8>>,
    temp_dir: Vec<u8>,
    path: Vec<u8>,
)
    requires
        call_ensures(screenshot_directory, (runtime_dir, temp_dir), path),
    ensures
        runtime_dir matches Some(dir) ==> path@ == continued(dir@)
            + "xdg-desktop-portal-shiny".spec_bytes(),
        runtime_dir is None ==> path@ == continued(temp_dir@)
            + "xdg-desktop-portal-shiny".spec_bytes(),
{
    if let Some(dir) = runtime_dir {
        lemma_joined_is_continued(dir@, "xdg-desktop-portal-shiny".spec_bytes());
    }
    lemma_joined_is_continued(temp_dir@, "xdg-desktop-portal-shiny".spec_bytes());
}

proof fn lemma_joined_is_continued(path: Seq<u8>, name: Seq<u8>)
    ensures
        joined(path, name) == continued(path) + name,
{
    assert('/' as u8 == 0x2f);
    assert(path.push(0x2f) == path + seq!['/' as u8]);
}

/// The name of a file is made of the numbers of the process and of the screenshot, in this order.
pub proof fn law_file_names_hold_both_numbers(process: u32, sequence: u64, name: String)
    requires
        call_ensures(screenshot_file_name, (process, sequence), name),
    ensures
        name@ == "shiny-screenshot-"@ + decimal(process as nat) + "-"@ + decimal(sequence as nat)
            + ".png"@,
{
}

/// A file has the bytes that it is given, a path of the directory and of the name of the
/// screenshot, and the URI of that path.
pub proof fn law_files_are_named(
    bytes: Vec<u8>,
    directory: Vec<u8>,
    process: u32,
    sequence: u64,
    name: String,
    file: ScreenshotFile,
    path: &[u8],
    uri: String,
)
    requires
        call_ensures(screenshot_file_name, (process, sequence), name),
        call_ensures(name_file, (bytes, &directory, process, sequence), file),
        path@ == file.path@,
        call_ensures(path_to_file_uri, (path,), uri),
    ensures
        file.bytes@ == bytes@,
        file.path@ == continued(directory@) + encode_utf8(name@),
        file.uri@ == uri@,
{
    lemma_joined_is_continued(directory@, encode_utf8(name@));
}

/// A file that is written holds what the encoder made of the image, under the name of the
/// screenshot. Where the encoder made nothing of it, its reason is handed on.
pub proof fn law_screenshots_are_written(
    image: RgbaImage,
    encoded: Result<Vec<u8>, ScreenshotError>,
    directory: Vec<u8>,
    process: u32,
    sequence: u64,
    written: Result<ScreenshotFile, ScreenshotError>,
    file: ScreenshotFile,
)
    requires
        call_ensures(encode_png, (&image,), encoded),
        call_ensures(write_png, (&image, &directory, process, sequence), written),
        encoded matches Ok(bytes) ==> call_ensures(
            name_file,
            (bytes, &directory, process, sequence),
            file,
        ),
    ensures
        written is Ok <==> encoded is Ok,
        written is Ok <==> image.width > 0 && image.height > 0,
        written matches Ok(f) ==> f.bytes@ == file.bytes@ && f.path@ == file.path@ && f.uri@
            == file.uri@,
        written matches Err(error) ==> (error matches ScreenshotError::Encoding(text) && (
        encoded matches Err(reason) && (reason matches ScreenshotError::Encoding(same) && text@
            == same@))),
{
}

} // verus!
