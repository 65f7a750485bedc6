//! Pixel formats and how the three naming schemes map onto each other: the codes of shared-memory
//! buffers, the four-character codes of DMA-BUFs and the video formats of the media server.

use vstd::prelude::*;
use vstd::string::StringSliceAdditionalSpecFns;

use crate::geometry::Size;
use crate::text::{decimal, push_decimal};

verus! {

/// The modifier of a buffer whose layout is implied.
pub const DRM_FORMAT_MOD_INVALID: u64 = 0x00ff_ffff_ffff_ffff;

/// The pixel format of a shared-memory buffer. The channels are named from the most to the least
/// significant bit of a pixel. `Other` holds the code of a format that is not interpreted here.
#[derive(Debug, Clone, Copy, PartialEq, Eq, Structural)]
pub enum PixelFormat {
    Argb8888,
    Xrgb8888,
    Rgba8888,
    Rgbx8888,
    Abgr8888,
    Xbgr8888,
    Bgra8888,
    Bgrx8888,
    Argb2101010,
    Xrgb2101010,
    Abgr2101010,
    Xbgr2101010,
    Other(u32),
}

/// A video format of the media server. The channels are named in memory order, but for those of
/// ten bits. `Other` holds the code of a format that is not interpreted here.
#[allow(non_camel_case_types)]
#[derive(Debug, Clone, Copy, PartialEq, Eq, Structural)]
pub enum VideoFormat {
    BGRA,
    BGRx,
    ABGR,
    xBGR,
    RGBA,
    RGBx,
    ARGB,
    xRGB,
    xRGB_210LE,
    xBGR_210LE,
    ARGB_210LE,
    ABGR_210LE,
    Other(u32),
}

/// A shared-memory format that a compositor offers for a capture.
#[derive(Debug, Clone, Copy, PartialEq, Eq, Structural)]
pub struct ShmFormat {
    pub format: PixelFormat,
    pub size: Size,
    pub stride: u32,
}

impl ShmFormat {
    /// The number of bytes of a buffer of this format.
    pub open spec fn bytes(self) -> int {
        self.stride * self.size.height
    }

    /// The number of bytes of a buffer of this format.
    pub fn byte_size(&self) -> (size: u64)
        ensures
            size == self.bytes(),
    {
        proof {
            assert(0 <= self.stride * self.size.height <= u32::MAX * u32::MAX) by (nonlinear_arith)
                requires
                    0 <= self.stride <= u32::MAX,
                    0 <= self.size.height <= u32::MAX,
            ;
        }
        self.stride as u64 * self.size.height as u64
    }
}

/// A DMA-BUF format that a compositor offers for a capture, with the layouts it can have.
#[derive(Debug, Clone, PartialEq, Eq)]
pub struct DmabufFormat {
    pub fourcc: u32,
    pub modifiers: Vec<u64>,
    pub size: Size,
}

/// What a DMA-BUF format holds.
#[verifier::ext_equal]
pub struct DmabufFormatView {
    pub fourcc: u32,
    pub modifiers: Seq<u64>,
    pub size: Size,
}

impl View for DmabufFormat {
    type V = DmabufFormatView;

    open spec fn view(&self) -> DmabufFormatView {
        DmabufFormatView { fourcc: self.fourcc, modifiers: self.modifiers@, size: self.size }
    }
}

impl DmabufFormat {
    /// A copy of the format.
    pub fn duplicate(&self) -> (copy: Self)
        ensures
            copy@ == self@,
    {
        let modifiers: Vec<u64> = self.modifiers.clone();
        assert(modifiers@ == self.modifiers@);
        DmabufFormat { fourcc: self.fourcc, modifiers, size: self.size }
    }
}

/// The number that four bytes stand for, the first one the lowest.
pub open spec fn code_of(bytes: Seq<u8>) -> int {
    bytes[0] + 0x100 * bytes[1] + 0x1_0000 * bytes[2] + 0x100_0000 * bytes[3]
}

/// The number that four ASCII characters stand for.
pub open spec fn char_code(a: char, b: char, c: char, d: char) -> int {
    a as int + 0x100 * (b as int) + 0x1_0000 * (c as int) + 0x100_0000 * (d as int)
}

/// The four-character code of a text. Only its first four bytes count.
pub fn fourcc(code: &str) -> (number: u32)
    requires
        code.spec_bytes().len() >= 4,
    ensures
        number == code_of(code.spec_bytes()),
{
    let bytes: &[u8] = code.as_bytes();
    let b0: u8 = bytes[0];
    let b1: u8 = bytes[1];
    let b2: u8 = bytes[2];
    let b3: u8 = bytes[3];
    assert((b0 as u32) | ((b1 as u32) << 8) | ((b2 as u32) << 16) | ((b3 as u32) << 24) == b0
        + 0x100 * b1 + 0x1_0000 * b2 + 0x100_0000 * b3) by (bit_vector);
    (b0 as u32) | ((b1 as u32) << 8) | ((b2 as u32) << 16) | ((b3 as u32) << 24)
}

/// The four-character code of an ASCII text is that of its characters.
pub proof fn law_fourcc_of_ascii(code: &str)
    requires
        vstd::string::is_ascii(code),
        code@.len() >= 4,
    ensures
        code.spec_bytes().len() >= 4,
        code_of(code.spec_bytes()) == char_code(code@[0], code@[1], code@[2], code@[3]),
{
    vstd::string::is_ascii_spec_bytes(code);
    let bytes = code.spec_bytes();
    assert(bytes == Seq::new(code@.len(), |i| code@.index(i) as u8));
    assert forall|i: int| 0 <= i < 4 implies bytes[i] == #[trigger] code@[i] as int by {
        assert(vstd::utf8::is_ascii_chars(code@));
    }
}

/// The video format of a DMA-BUF code.
pub open spec fn video_of_code(code: int) -> Option<VideoFormat> {
    if code == char_code('A', 'R', '2', '4') {
        Some(VideoFormat::BGRA)
    } else if code == char_code('X', 'R', '2', '4') {
        Some(VideoFormat::BGRx)
    } else if code == char_code('R', 'A', '2', '4') {
        Some(VideoFormat::ABGR)
    } else if code == char_code('R', 'X', '2', '4') {
        Some(VideoFormat::xBGR)
    } else if code == char_code('A', 'B', '2', '4') {
        Some(VideoFormat::RGBA)
    } else if code == char_code('X', 'B', '2', '4') {
        Some(VideoFormat::RGBx)
    } else if code == char_code('B', 'A', '2', '4') {
        Some(VideoFormat::ARGB)
    } else if code == char_code('B', 'X', '2', '4') {
        Some(VideoFormat::xRGB)
    } else if code == char_code('X', 'R', '3', '0') {
        Some(VideoFormat::xRGB_210LE)
    } else if code == char_code('X', 'B', '3', '0') {
        Some(VideoFormat::xBGR_210LE)
    } else if code == char_code('A', 'R', '3', '0') {
        Some(VideoFormat::ARGB_210LE)
    } else if code == char_code('A', 'B', '3', '0') {
        Some(VideoFormat::ABGR_210LE)
    } else {
        None
    }
}

/// The DMA-BUF code of a video format.
pub open spec fn code_of_video(format: VideoFormat) -> Option<int> {
    match format {
        VideoFormat::BGRA => Some(char_code('A', 'R', '2', '4')),
        VideoFormat::BGRx => Some(char_code('X', 'R', '2', '4')),
        VideoFormat::ABGR => Some(char_code('R', 'A', '2', '4')),
        VideoFormat::xBGR => Some(char_code('R', 'X', '2', '4')),
        VideoFormat::RGBA => Some(char_code('A', 'B', '2', '4')),
        VideoFormat::RGBx => Some(char_code('X', 'B', '2', '4')),
        VideoFormat::ARGB => Some(char_code('B', 'A', '2', '4')),
        VideoFormat::xRGB => Some(char_code('B', 'X', '2', '4')),
        VideoFormat::xRGB_210LE => Some(char_code('X', 'R', '3', '0')),
        VideoFormat::xBGR_210LE => Some(char_code('X', 'B', '3', '0')),
        VideoFormat::ARGB_210LE => Some(char_code('A', 'R', '3', '0')),
        VideoFormat::ABGR_210LE => Some(char_code('A', 'B', '3', '0')),
        VideoFormat::Other(_) => None,
    }
}

/// The video format of a shared-memory format.
pub open spec fn video_of_pixel(format: PixelFormat) -> Option<VideoFormat> {
    match format {
        PixelFormat::Argb8888 => Some(VideoFormat::BGRA),
        PixelFormat::Xrgb8888 => Some(VideoFormat::BGRx),
        PixelFormat::Rgba8888 => Some(VideoFormat::ABGR),
        PixelFormat::Rgbx8888 => Some(VideoFormat::xBGR),
        PixelFormat::Abgr8888 => Some(VideoFormat::RGBA),
        PixelFormat::Xbgr8888 => Some(VideoFormat::RGBx),
        PixelFormat::Bgra8888 => Some(VideoFormat::ARGB),
        PixelFormat::Bgrx8888 => Some(VideoFormat::xRGB),
        PixelFormat::Xrgb2101010 => Some(VideoFormat::xRGB_210LE),
        PixelFormat::Xbgr2101010 => Some(VideoFormat::xBGR_210LE),
        PixelFormat::Argb2101010 => Some(VideoFormat::ARGB_210LE),
        PixelFormat::Abgr2101010 => Some(VideoFormat::ABGR_210LE),
        PixelFormat::Other(_) => None,
    }
}

/// The shared-memory format of a video format.
pub open spec fn pixel_of_video(format: VideoFormat) -> Option<PixelFormat> {
    match format {
        VideoFormat::BGRA => Some(PixelFormat::Argb8888),
        VideoFormat::BGRx => Some(PixelFormat::Xrgb8888),
        VideoFormat::ABGR => Some(PixelFormat::Rgba8888),
        VideoFormat::xBGR => Some(PixelFormat::Rgbx8888),
        VideoFormat::RGBA => Some(PixelFormat::Abgr8888),
        VideoFormat::RGBx => Some(PixelFormat::Xbgr8888),
        VideoFormat::ARGB => Some(PixelFormat::Bgra8888),
        VideoFormat::xRGB => Some(PixelFormat::Bgrx8888),
        VideoFormat::xRGB_210LE => Some(PixelFormat::Xrgb2101010),
        VideoFormat::xBGR_210LE => Some(PixelFormat::Xbgr2101010),
        VideoFormat::ARGB_210LE => Some(PixelFormat::Argb2101010),
        VideoFormat::ABGR_210LE => Some(PixelFormat::Abgr2101010),
        VideoFormat::Other(_) => None,
    }
}

/// `fourcc` of a literal of four ASCII characters.
fn literal_code(code: &str) -> (number: u32)
    requires
        code@.len() == 4,
        vstd::string::is_ascii(code),
    ensures
        number == char_code(code@[0], code@[1], code@[2], code@[3]),
{
    proof {
        law_fourcc_of_ascii(code);
    }
    fourcc(code)
}

proof fn lemma_code_literals()
    ensures
        "AR24"@ == seq!['A', 'R', '2', '4'],
        "XR24"@ == seq!['X', 'R', '2', '4'],
        "RA24"@ == seq!['R', 'A', '2', '4'],
        "RX24"@ == seq!['R', 'X', '2', '4'],
        "AB24"@ == seq!['A', 'B', '2', '4'],
        "XB24"@ == seq!['X', 'B', '2', '4'],
        "BA24"@ == seq!['B', 'A', '2', '4'],
        "BX24"@ == seq!['B', 'X', '2', '4'],
        "XR30"@ == seq!['X', 'R', '3', '0'],
        "XB30"@ == seq!['X', 'B', '3', '0'],
        "AR30"@ == seq!['A', 'R', '3', '0'],
        "AB30"@ == seq!['A', 'B', '3', '0'],
{
    reveal_strlit("AR24");
    reveal_strlit("XR24");
    reveal_strlit("RA24");
    reveal_strlit("RX24");
    reveal_strlit("AB24");
    reveal_strlit("XB24");
    reveal_strlit("BA24");
    reveal_strlit("BX24");
    reveal_strlit("XR30");
    reveal_strlit("XB30");
    reveal_strlit("AR30");
    reveal_strlit("AB30");
}

/// The video format of a DMA-BUF code.
pub fn drm_fourcc_to_spa(fourcc_code: u32) -> (format: Option<VideoFormat>)
    ensures
        format == video_of_code(fourcc_code as int),
{
    proof {
        lemma_code_literals();
    }
    if fourcc_code == literal_code("AR24") {
        Some(VideoFormat::BGRA)
    } else if fourcc_code == literal_code("XR24") {
        Some(VideoFormat::BGRx)
    } else if fourcc_code == literal_code("RA24") {
        Some(VideoFormat::ABGR)
    } else if fourcc_code == literal_code("RX24") {
        Some(VideoFormat::xBGR)
    } else if fourcc_code == literal_code("AB24") {
        Some(VideoFormat::RGBA)
    } else if fourcc_code == literal_code("XB24") {
        Some(VideoFormat::RGBx)
    } else if fourcc_code == literal_code("BA24") {
        Some(VideoFormat::ARGB)
    } else if fourcc_code == literal_code("BX24") {
        Some(VideoFormat::xRGB)
    } else if fourcc_code == literal_code("XR30") {
        Some(VideoFormat::xRGB_210LE)
    } else if fourcc_code == literal_code("XB30") {
        Some(VideoFormat::xBGR_210LE)
    } else if fourcc_code == literal_code("AR30") {
        Some(VideoFormat::ARGB_210LE)
    } else if fourcc_code == literal_code("AB30") {
        Some(VideoFormat::ABGR_210LE)
    } else {
        None
    }
}

/// The DMA-BUF code of a video format.
pub fn spa_to_drm_fourcc(format: VideoFormat) -> (code: Option<u32>)
    ensures
        code matches Some(c) ==> code_of_video(format) == Some(c as int),
        code is None <==> code_of_video(format) is None,
{
    proof {
        lemma_code_literals();
    }
    match format {
        VideoFormat::BGRA => Some(literal_code("AR24")),
        VideoFormat::BGRx => Some(literal_code("XR24")),
        VideoFormat::ABGR => Some(literal_code("RA24")),
        VideoFormat::xBGR => Some(literal_code("RX24")),
        VideoFormat::RGBA => Some(literal_code("AB24")),
        VideoFormat::RGBx => Some(literal_code("XB24")),
        VideoFormat::ARGB => Some(literal_code("BA24")),
        VideoFormat::xRGB => Some(literal_code("BX24")),
        VideoFormat::xRGB_210LE => Some(literal_code("XR30")),
        VideoFormat::xBGR_210LE => Some(literal_code("XB30")),
        VideoFormat::ARGB_210LE => Some(literal_code("AR30")),
        VideoFormat::ABGR_210LE => Some(literal_code("AB30")),
        VideoFormat::Other(_) => None,
    }
}

/// The video format of a shared-memory format.
pub fn shm_format_to_spa(format: PixelFormat) -> (video: Option<VideoFormat>)
    ensures
        video == video_of_pixel(format),
{
    match format {
        PixelFormat::Argb8888 => Some(VideoFormat::BGRA),
        PixelFormat::Xrgb8888 => Some(VideoFormat::BGRx),
        PixelFormat::Rgba8888 => Some(VideoFormat::ABGR),
        PixelFormat::Rgbx8888 => Some(VideoFormat::xBGR),
        PixelFormat::Abgr8888 => Some(VideoFormat::RGBA),
        PixelFormat::Xbgr8888 => Some(VideoFormat::RGBx),
        PixelFormat::Bgra8888 => Some(VideoFormat::ARGB),
        PixelFormat::Bgrx8888 => Some(VideoFormat::xRGB),
        PixelFormat::Xrgb2101010 => Some(VideoFormat::xRGB_210LE),
        PixelFormat::Xbgr2101010 => Some(VideoFormat::xBGR_210LE),
        PixelFormat::Argb2101010 => Some(VideoFormat::ARGB_210LE),
        PixelFormat::Abgr2101010 => Some(VideoFormat::ABGR_210LE),
        PixelFormat::Other(_) => None,
    }
}

/// The shared-memory format of a video format.
pub fn spa_to_shm_format(format: VideoFormat) -> (pixel: Option<PixelFormat>)
    ensures
        pixel == pixel_of_video(format),
{
    match format {
        VideoFormat::BGRA => Some(PixelFormat::Argb8888),
        VideoFormat::BGRx => Some(PixelFormat::Xrgb8888),
        VideoFormat::ABGR => Some(PixelFormat::Rgba8888),
        VideoFormat::xBGR => Some(PixelFormat::Rgbx8888),
        VideoFormat::RGBA => Some(PixelFormat::Abgr8888),
        VideoFormat::RGBx => Some(PixelFormat::Xbgr8888),
        VideoFormat::ARGB => Some(PixelFormat::Bgra8888),
        VideoFormat::xRGB => Some(PixelFormat::Bgrx8888),
        VideoFormat::xRGB_210LE => Some(PixelFormat::Xrgb2101010),
        VideoFormat::xBGR_210LE => Some(PixelFormat::Xbgr2101010),
        VideoFormat::ARGB_210LE => Some(PixelFormat::Argb2101010),
        VideoFormat::ABGR_210LE => Some(PixelFormat::Abgr2101010),
        VideoFormat::Other(_) => None,
    }
}

/// The mapping between DMA-BUF codes and video formats is one to one: each direction undoes the
/// other.
pub proof fn law_codes_and_videos_invert(code: u32, format: VideoFormat)
    ensures
        video_of_code(code as int) == Some(format) <==> code_of_video(format) == Some(code as int),
{
}

/// The mapping between shared-memory formats and video formats is one to one: each direction
/// undoes the other.
pub proof fn law_pixels_and_videos_invert(pixel: PixelFormat, format: VideoFormat)
    ensures
        video_of_pixel(pixel) == Some(format) <==> pixel_of_video(format) == Some(pixel),
{
}

/// A video format has a DMA-BUF code exactly where it has a shared-memory format.
pub proof fn law_codes_and_pixels_agree(format: VideoFormat)
    ensures
        code_of_video(format) is Some <==> pixel_of_video(format) is Some,
{
}

/// The first of the formats with a given pixel format.
pub open spec fn first_with(formats: Seq<ShmFormat>, wanted: PixelFormat) -> Option<ShmFormat>
    decreases formats.len(),
{
    if formats.len() == 0 {
        None
    } else if formats[0].format == wanted {
        Some(formats[0])
    } else {
        first_with(formats.drop_first(), wanted)
    }
}

/// The first of the formats with the first of the preferred pixel formats that occurs at all.
pub open spec fn first_preferred(
    formats: Seq<ShmFormat>,
    preferred: Seq<PixelFormat>,
) -> Option<ShmFormat>
    decreases preferred.len(),
{
    if preferred.len() == 0 {
        None
    } else {
        match first_with(formats, preferred[0]) {
            Some(format) => Some(format),
            None => first_preferred(formats, preferred.drop_first()),
        }
    }
}

fn find_format(formats: &[ShmFormat], wanted: PixelFormat) -> (found: Option<ShmFormat>)
    ensures
        found == first_with(formats@, wanted),
{
    let mut i: usize = 0;
    assert(formats@.skip(0) == formats@);
    while i < formats.len()
        invariant
            i <= formats@.len(),
            first_with(formats@.skip(i as int), wanted) == first_with(formats@, wanted),
        decreases formats@.len() - i,
    {
        assert(formats@.skip(i as int).drop_first() == formats@.skip(i + 1));
        if formats[i].format == wanted {
            return Some(formats[i]);
        }
        i += 1;
    }
    None
}

fn find_preferred(formats: &[ShmFormat], preferred: &Vec<PixelFormat>) -> (found: Option<ShmFormat>)
    ensures
        found == first_preferred(formats@, preferred@),
{
    let mut i: usize = 0;
    assert(preferred@.skip(0) == preferred@);
    while i < preferred.len()
        invariant
            i <= preferred@.len(),
            first_preferred(formats@, preferred@.skip(i as int)) == first_preferred(
                formats@,
                preferred@,
            ),
        decreases preferred@.len() - i,
    {
        assert(preferred@.skip(i as int).drop_first() == preferred@.skip(i + 1));
        if let Some(format) = find_format(formats, preferred[i]) {
            return Some(format);
        }
        i += 1;
    }
    None
}

/// The pixel formats that a screen cast buffer prefers, best first.
pub open spec fn cast_preference() -> Seq<PixelFormat> {
    seq![
        PixelFormat::Xrgb8888,
        PixelFormat::Argb8888,
        PixelFormat::Xbgr8888,
        PixelFormat::Abgr8888,
        PixelFormat::Xrgb2101010,
        PixelFormat::Argb2101010,
        PixelFormat::Xbgr2101010,
        PixelFormat::Abgr2101010,
    ]
}

/// The pixel formats that a screenshot can be read from, best first.
pub open spec fn readable_preference() -> Seq<PixelFormat> {
    seq![
        PixelFormat::Argb8888,
        PixelFormat::Xrgb8888,
        PixelFormat::Abgr8888,
        PixelFormat::Xbgr8888,
        PixelFormat::Argb2101010,
        PixelFormat::Xrgb2101010,
        PixelFormat::Abgr2101010,
        PixelFormat::Xbgr2101010,
    ]
}

/// The format of a shared-memory buffer: the preferred one where it is offered, else the best of
/// those that a screen cast prefers, else the first.
pub open spec fn shm_choice(
    formats: Seq<ShmFormat>,
    preferred: Option<PixelFormat>,
) -> Option<ShmFormat> {
    let named = match preferred {
        Some(format) => first_with(formats, format),
        None => None,
    };
    if named is Some {
        named
    } else if first_preferred(formats, cast_preference()) is Some {
        first_preferred(formats, cast_preference())
    } else if formats.len() > 0 {
        Some(formats[0])
    } else {
        None
    }
}

/// Chooses the format of a shared-memory buffer.
pub fn choose_shm_format(
    formats: &[ShmFormat],
    preferred_format: Option<PixelFormat>,
) -> (chosen: Option<ShmFormat>)
    ensures
        chosen == shm_choice(formats@, preferred_format),
{
    if let Some(preferred) = preferred_format {
        if let Some(format) = find_format(formats, preferred) {
            return Some(format);
        }
    }
    let preferred: Vec<PixelFormat> = vec![
        PixelFormat::Xrgb8888,
        PixelFormat::Argb8888,
        PixelFormat::Xbgr8888,
        PixelFormat::Abgr8888,
        PixelFormat::Xrgb2101010,
        PixelFormat::Argb2101010,
        PixelFormat::Xbgr2101010,
        PixelFormat::Abgr2101010,
    ];
    assert(preferred@ == cast_preference());
    if let Some(format) = find_preferred(formats, &preferred) {
        return Some(format);
    }
    if formats.len() > 0 {
        Some(formats[0])
    } else {
        None
    }
}

/// Chooses the format of a screenshot: the best readable one that is offered.
pub fn choose_readable_shm_format(formats: &[ShmFormat]) -> (chosen: Option<ShmFormat>)
    ensures
        chosen == first_preferred(formats@, readable_preference()),
{
    let preferred: Vec<PixelFormat> = vec![
        PixelFormat::Argb8888,
        PixelFormat::Xrgb8888,
        PixelFormat::Abgr8888,
        PixelFormat::Xbgr8888,
        PixelFormat::Argb2101010,
        PixelFormat::Xrgb2101010,
        PixelFormat::Abgr2101010,
        PixelFormat::Xbgr2101010,
    ];
    assert(preferred@ == readable_preference());
    find_preferred(formats, &preferred)
}

proof fn lemma_first_with(formats: Seq<ShmFormat>, wanted: PixelFormat)
    ensures
        first_with(formats, wanted) matches Some(f) ==> f.format == wanted && formats.contains(f),
        first_with(formats, wanted) is None <==> forall|i: int|
            0 <= i < formats.len() ==> (#[trigger] formats[i]).format != wanted,
    decreases formats.len(),
{
    if formats.len() > 0 && formats[0].format != wanted {
        let rest = formats.drop_first();
        lemma_first_with(rest, wanted);
        assert forall|i: int| 0 <= i < rest.len() implies rest[i] == formats[i + 1] by {}
        if let Some(f) = first_with(rest, wanted) {
            let i = choose|i: int| 0 <= i < rest.len() && rest[i] == f;
            assert(formats[i + 1] == f);
        }
        if forall|i: int| 0 <= i < rest.len() ==> (#[trigger] rest[i]).format != wanted {
            assert forall|i: int| 0 <= i < formats.len() implies (#[trigger] formats[i]).format
                != wanted by {
                if i > 0 {
                    assert(rest[i - 1] == formats[i]);
                }
            }
        }
    }
}

proof fn lemma_first_preferred(formats: Seq<ShmFormat>, preferred: Seq<PixelFormat>)
    ensures
        first_preferred(formats, preferred) matches Some(f) ==> formats.contains(f)
            && preferred.contains(f.format),
        first_preferred(formats, preferred) is None <==> forall|i: int|
            0 <= i < formats.len() ==> !preferred.contains((#[trigger] formats[i]).format),
    decreases preferred.len(),
{
    if preferred.len() > 0 {
        let rest = preferred.drop_first();
        lemma_first_with(formats, preferred[0]);
        lemma_first_preferred(formats, rest);
        assert forall|p: PixelFormat| #[trigger] preferred.contains(p) <==> p == preferred[0]
            || rest.contains(p) by {
            if preferred.contains(p) && p != preferred[0] {
                let k = choose|k: int| 0 <= k < preferred.len() && preferred[k] == p;
                assert(rest[k - 1] == p);
            }
            if rest.contains(p) {
                let k = choose|k: int| 0 <= k < rest.len() && rest[k] == p;
                assert(preferred[k + 1] == p);
            }
        }
    }
}

/// A buffer format is chosen exactly where any is offered, and it is one of those offered. The
/// preferred pixel format is taken wherever it is offered.
pub proof fn law_shm_choice_is_offered(formats: Seq<ShmFormat>, preferred: Option<PixelFormat>)
    ensures
        shm_choice(formats, preferred) is Some <==> formats.len() > 0,
        shm_choice(formats, preferred) matches Some(f) ==> formats.contains(f),
        forall|i: int|
            0 <= i < formats.len() && preferred == Some((#[trigger] formats[i]).format)
                ==> shm_choice(formats, preferred)->0.format == formats[i].format,
{
    if let Some(p) = preferred {
        lemma_first_with(formats, p);
    }
    lemma_first_preferred(formats, cast_preference());
    if formats.len() > 0 {
        assert(formats.contains(formats[0]));
    }
}

/// A screenshot format is chosen exactly where a readable one is offered, and it is one of those
/// offered.
pub proof fn law_readable_choice_is_offered(formats: Seq<ShmFormat>)
    ensures
        first_preferred(formats, readable_preference()) matches Some(f) ==> formats.contains(f)
            && readable_preference().contains(f.format),
        first_preferred(formats, readable_preference()) is None <==> forall|i: int|
            0 <= i < formats.len() ==> !readable_preference().contains(
                (#[trigger] formats[i]).format,
            ),
{
    lemma_first_preferred(formats, readable_preference());
}

/// The name that `wl_shm::Format` of the `wayland-client` crate has for a code, as its `Debug`
/// writes it, and none for a code that is not in the protocol.
pub uninterp spec fn protocol_name(code: u32) -> Option<Seq<char>>;

/// `wl_shm::Format::try_from`: looks a code up in the list of the protocol, and writes the name of
/// the format that it finds.
#[verifier::external_body]
fn shm_format_name(code: u32) -> (name: Option<String>)
    ensures
        match name {
            Some(text) => protocol_name(code) == Some(text@),
            None => protocol_name(code) is None,
        },
{
    match wayland_client::protocol::wl_shm::Format::try_from(code) {
        Ok(format) => Some(format!("{format:?}")),
        Err(()) => None,
    }
}

/// The name of a code, or its number where it has none.
pub open spec fn name_or_number(code: u32, name: Option<Seq<char>>) -> Seq<char> {
    match name {
        Some(text) => text,
        None => decimal(code as nat),
    }
}

/// The name of a shared-memory format.
pub open spec fn name_of(format: PixelFormat) -> Seq<char> {
    match format {
        PixelFormat::Argb8888 => "Argb8888"@,
        PixelFormat::Xrgb8888 => "Xrgb8888"@,
        PixelFormat::Rgba8888 => "Rgba8888"@,
        PixelFormat::Rgbx8888 => "Rgbx8888"@,
        PixelFormat::Abgr8888 => "Abgr8888"@,
        PixelFormat::Xbgr8888 => "Xbgr8888"@,
        PixelFormat::Bgra8888 => "Bgra8888"@,
        PixelFormat::Bgrx8888 => "Bgrx8888"@,
        PixelFormat::Argb2101010 => "Argb2101010"@,
        PixelFormat::Xrgb2101010 => "Xrgb2101010"@,
        PixelFormat::Abgr2101010 => "Abgr2101010"@,
        PixelFormat::Xbgr2101010 => "Xbgr2101010"@,
        PixelFormat::Other(code) => name_or_number(code, protocol_name(code)),
    }
}

/// The name of a shared-memory format.
pub fn format_name(format: PixelFormat) -> (name: String)
    ensures
        name@ == name_of(format),
{
    match format {
        PixelFormat::Argb8888 => "Argb8888".to_owned(),
        PixelFormat::Xrgb8888 => "Xrgb8888".to_owned(),
        PixelFormat::Rgba8888 => "Rgba8888".to_owned(),
        PixelFormat::Rgbx8888 => "Rgbx8888".to_owned(),
        PixelFormat::Abgr8888 => "Abgr8888".to_owned(),
        PixelFormat::Xbgr8888 => "Xbgr8888".to_owned(),
        PixelFormat::Bgra8888 => "Bgra8888".to_owned(),
        PixelFormat::Bgrx8888 => "Bgrx8888".to_owned(),
        PixelFormat::Argb2101010 => "Argb2101010".to_owned(),
        PixelFormat::Xrgb2101010 => "Xrgb2101010".to_owned(),
        PixelFormat::Abgr2101010 => "Abgr2101010".to_owned(),
        PixelFormat::Xbgr2101010 => "Xbgr2101010".to_owned(),
        PixelFormat::Other(code) => named_or_numbered(code, shm_format_name(code)),
    }
}

/// The name of a code, or its number where it has none.
pub fn named_or_numbered(code: u32, name: Option<String>) -> (text: String)
    ensures
        text@ == name_or_number(
            code,
            match name {
                Some(name) => Some(name@),
                None => None,
            },
        ),
{
    match name {
        Some(name) => name,
        None => {
            let mut text: String = String::new();
            push_decimal(&mut text, code as u64);
            assert(text@ == decimal(code as nat));
            text
        },
    }
}

/// The channels of a shared-memory format with their bits, from the most to the least significant.
/// `X` is a channel that nothing is read from.
pub open spec fn channels(format: PixelFormat) -> Seq<(char, int)> {
    match format {
        PixelFormat::Argb8888 => seq![('A', 8), ('R', 8), ('G', 8), ('B', 8)],
        PixelFormat::Xrgb8888 => seq![('X', 8), ('R', 8), ('G', 8), ('B', 8)],
        PixelFormat::Rgba8888 => seq![('R', 8), ('G', 8), ('B', 8), ('A', 8)],
        PixelFormat::Rgbx8888 => seq![('R', 8), ('G', 8), ('B', 8), ('X', 8)],
        PixelFormat::Abgr8888 => seq![('A', 8), ('B', 8), ('G', 8), ('R', 8)],
        PixelFormat::Xbgr8888 => seq![('X', 8), ('B', 8), ('G', 8), ('R', 8)],
        PixelFormat::Bgra8888 => seq![('B', 8), ('G', 8), ('R', 8), ('A', 8)],
        PixelFormat::Bgrx8888 => seq![('B', 8), ('G', 8), ('R', 8), ('X', 8)],
        PixelFormat::Argb2101010 => seq![('A', 2), ('R', 10), ('G', 10), ('B', 10)],
        PixelFormat::Xrgb2101010 => seq![('X', 2), ('R', 10), ('G', 10), ('B', 10)],
        PixelFormat::Abgr2101010 => seq![('A', 2), ('B', 10), ('G', 10), ('R', 10)],
        PixelFormat::Xbgr2101010 => seq![('X', 2), ('B', 10), ('G', 10), ('R', 10)],
        PixelFormat::Other(_) => seq![],
    }
}

/// The channels of a video format of four bytes, from the first to the last byte.
pub open spec fn in_memory(format: VideoFormat) -> Seq<char> {
    match format {
        VideoFormat::BGRA => seq!['B', 'G', 'R', 'A'],
        VideoFormat::BGRx => seq!['B', 'G', 'R', 'X'],
        VideoFormat::ABGR => seq!['A', 'B', 'G', 'R'],
        VideoFormat::xBGR => seq!['X', 'B', 'G', 'R'],
        VideoFormat::RGBA => seq!['R', 'G', 'B', 'A'],
        VideoFormat::RGBx => seq!['R', 'G', 'B', 'X'],
        VideoFormat::ARGB => seq!['A', 'R', 'G', 'B'],
        VideoFormat::xRGB => seq!['X', 'R', 'G', 'B'],
        _ => seq![],
    }
}

/// The channels of a video format with their bits, from the most to the least significant. The last
/// byte in memory is the most significant one.
pub open spec fn video_channels(format: VideoFormat) -> Seq<(char, int)> {
    match format {
        VideoFormat::ARGB_210LE => seq![('A', 2), ('R', 10), ('G', 10), ('B', 10)],
        VideoFormat::xRGB_210LE => seq![('X', 2), ('R', 10), ('G', 10), ('B', 10)],
        VideoFormat::ABGR_210LE => seq![('A', 2), ('B', 10), ('G', 10), ('R', 10)],
        VideoFormat::xBGR_210LE => seq![('X', 2), ('B', 10), ('G', 10), ('R', 10)],
        VideoFormat::Other(_) => seq![],
        _ => seq![
            (in_memory(format)[3], 8),
            (in_memory(format)[2], 8),
            (in_memory(format)[1], 8),
            (in_memory(format)[0], 8),
        ],
    }
}

/// The channels that the letters of a DMA-BUF code name, from the most to the least significant.
/// The letters are the alpha channel, or the one that stands in for it, and the first colour, in
/// their order. The digits are the bits of the colours, all together.
pub open spec fn code_channels(a: char, b: char, c: char, d: char) -> Option<Seq<(char, int)>> {
    let leads = a == 'A' || a == 'X';
    let trails = b == 'A' || b == 'X';
    if c == '2' && d == '4' {
        if leads && b == 'R' {
            Some(seq![(a, 8), ('R', 8), ('G', 8), ('B', 8)])
        } else if leads && b == 'B' {
            Some(seq![(a, 8), ('B', 8), ('G', 8), ('R', 8)])
        } else if a == 'R' && trails {
            Some(seq![('R', 8), ('G', 8), ('B', 8), (b, 8)])
        } else if a == 'B' && trails {
            Some(seq![('B', 8), ('G', 8), ('R', 8), (b, 8)])
        } else {
            None
        }
    } else if c == '3' && d == '0' {
        if leads && b == 'R' {
            Some(seq![(a, 2), ('R', 10), ('G', 10), ('B', 10)])
        } else if leads && b == 'B' {
            Some(seq![(a, 2), ('B', 10), ('G', 10), ('R', 10)])
        } else {
            None
        }
    } else {
        None
    }
}

/// The video format of a shared-memory format has the same channels in the same bits. Every format
/// that is interpreted here has one.
pub proof fn law_shm_videos_have_the_same_channels(format: PixelFormat, video: Option<VideoFormat>)
    requires
        call_ensures(shm_format_to_spa, (format,), video),
    ensures
        video is None <==> format is Other,
        video matches Some(v) ==> video_channels(v) == channels(format),
{
    if let Some(v) = video {
        lemma_channels(format, v);
    }
}

proof fn lemma_channels(format: PixelFormat, video: VideoFormat)
    requires
        video_of_pixel(format) == Some(video),
    ensures
        video_channels(video) == channels(format),
{
    assert(video_channels(video).len() == 4);
    assert(channels(format).len() == 4);
    assert(video_channels(video)[0] == channels(format)[0]);
    assert(video_channels(video)[1] == channels(format)[1]);
    assert(video_channels(video)[2] == channels(format)[2]);
    assert(video_channels(video)[3] == channels(format)[3]);
}

/// The shared-memory format of a video format has the same channels in the same bits. Every format
/// that is interpreted here has one.
pub proof fn law_video_memory_has_the_same_channels(
    video: VideoFormat,
    format: Option<PixelFormat>,
)
    requires
        call_ensures(spa_to_shm_format, (video,), format),
    ensures
        format is None <==> video is Other,
        format matches Some(f) ==> channels(f) == video_channels(video),
{
    if let Some(f) = format {
        law_pixels_and_videos_invert(f, video);
        lemma_channels(f, video);
    }
}

/// The video format of a DMA-BUF code has the channels that its letters name, in the same bits. A
/// code whose letters name none has no video format.
pub proof fn law_code_videos_have_the_named_channels(
    code: u32,
    b0: u8,
    b1: u8,
    b2: u8,
    b3: u8,
    video: Option<VideoFormat>,
)
    requires
        call_ensures(drm_fourcc_to_spa, (code,), video),
        code == b0 + 0x100 * b1 + 0x1_0000 * b2 + 0x100_0000 * b3,
    ensures
        video is Some <==> code_channels(b0 as char, b1 as char, b2 as char, b3 as char) is Some,
        video matches Some(v) ==> code_channels(
            b0 as char,
            b1 as char,
            b2 as char,
            b3 as char,
        ) == Some(video_channels(v)),
{
    lemma_code_channels(code, b0, b1, b2, b3);
}

proof fn lemma_code_channels(code: u32, b0: u8, b1: u8, b2: u8, b3: u8)
    requires
        code == b0 + 0x100 * b1 + 0x1_0000 * b2 + 0x100_0000 * b3,
    ensures
        video_of_code(code as int) is Some <==> code_channels(
            b0 as char,
            b1 as char,
            b2 as char,
            b3 as char,
        ) is Some,
        video_of_code(code as int) matches Some(v) ==> code_channels(
            b0 as char,
            b1 as char,
            b2 as char,
            b3 as char,
        ) == Some(video_channels(v)),
{
    let named = code_channels(b0 as char, b1 as char, b2 as char, b3 as char);
    if let Some(v) = video_of_code(code as int) {
        assert(named is Some);
        let list = named->0;
        assert(list.len() == 4);
        assert(video_channels(v).len() == 4);
        assert(video_channels(v)[0] == list[0]);
        assert(video_channels(v)[1] == list[1]);
        assert(video_channels(v)[2] == list[2]);
        assert(video_channels(v)[3] == list[3]);
        assert(video_channels(v) == list);
    }
}

/// The letters of the DMA-BUF code of a video format name its channels. Every format that is
/// interpreted here has one.
pub proof fn law_video_codes_name_the_channels(
    video: VideoFormat,
    code: Option<u32>,
    b0: u8,
    b1: u8,
    b2: u8,
    b3: u8,
)
    requires
        call_ensures(spa_to_drm_fourcc, (video,), code),
        code matches Some(c) ==> c == b0 + 0x100 * b1 + 0x1_0000 * b2 + 0x100_0000 * b3,
    ensures
        code is None <==> video is Other,
        code is Some ==> code_channels(b0 as char, b1 as char, b2 as char, b3 as char) == Some(
            video_channels(video),
        ),
{
    if let Some(c) = code {
        law_codes_and_videos_invert(c, video);
        lemma_code_channels(c, b0, b1, b2, b3);
    }
}

/// The code of a text is made of its first four bytes, the first of them the lowest.
pub proof fn law_codes_are_made_of_bytes(code: &str, number: u32)
    requires
        code.spec_bytes().len() >= 4,
        call_ensures(fourcc, (code,), number),
    ensures
        number == code.spec_bytes()[0] + 0x100 * code.spec_bytes()[1] + 0x1_0000
            * code.spec_bytes()[2] + 0x100_0000 * code.spec_bytes()[3],
{
}

/// A buffer has a stride of bytes for each of its rows.
pub proof fn law_rows_make_the_buffer(format: ShmFormat, size: u64)
    requires
        call_ensures(ShmFormat::byte_size, (&format,), size),
    ensures
        size == format.stride * format.size.height,
{
}

/// A copy of a DMA-BUF format has its code, its size and its layouts.
pub proof fn law_copies_are_the_same(format: DmabufFormat, copy: DmabufFormat)
    requires
        call_ensures(DmabufFormat::duplicate, (&format,), copy),
    ensures
        copy.fourcc == format.fourcc,
        copy.size == format.size,
        copy.modifiers@ == format.modifiers@,
{
}

/// How a pixel format ranks among those with a leading alpha channel or one that stands in for it,
/// the lowest first: eight bits come before ten, then red comes before blue as the first colour,
/// and then it is asked whether alpha comes before the channel that stands in for it.
pub open spec fn rank(format: PixelFormat, alpha_first: bool) -> Option<int> {
    let list = channels(format);
    if list.len() == 4 && (list[0].0 == 'A' || list[0].0 == 'X') {
        Some(
            (if list[0].1 == 2 {
                4int
            } else {
                0
            }) + (if list[1].0 == 'B' {
                2int
            } else {
                0
            }) + (if (list[0].0 == 'A') == alpha_first {
                0int
            } else {
                1
            }),
        )
    } else {
        None
    }
}

/// Whether a format is the first of the offered ones with its pixel format.
pub open spec fn is_first(formats: Seq<ShmFormat>, chosen: ShmFormat) -> bool {
    exists|k: int|
        0 <= k < formats.len() && #[trigger] formats[k] == chosen && forall|i: int|
            0 <= i < k ==> (#[trigger] formats[i]).format != chosen.format
}

proof fn lemma_first_with_place(formats: Seq<ShmFormat>, wanted: PixelFormat)
    ensures
        first_with(formats, wanted) matches Some(f) ==> f.format == wanted && is_first(formats, f),
    decreases formats.len(),
{
    if formats.len() > 0 {
        let rest = formats.drop_first();
        if formats[0].format == wanted {
            assert(formats[0] == first_with(formats, wanted)->0);
        } else {
            lemma_first_with_place(rest, wanted);
            if let Some(f) = first_with(rest, wanted) {
                let k = choose|k: int|
                    0 <= k < rest.len() && #[trigger] rest[k] == f && forall|i: int|
                        0 <= i < k ==> (#[trigger] rest[i]).format != f.format;
                assert(formats[k + 1] == f);
                assert forall|i: int| 0 <= i < k + 1 implies (#[trigger] formats[i]).format
                    != f.format by {
                    if i > 0 {
                        assert(rest[i - 1] == formats[i]);
                    }
                }
            }
        }
    }
}

proof fn lemma_first_preferred_place(formats: Seq<ShmFormat>, preferred: Seq<PixelFormat>)
    ensures
        first_preferred(formats, preferred) matches Some(f) ==> is_first(formats, f) && exists|r:
            int|
            0 <= r < preferred.len() && #[trigger] preferred[r] == f.format && forall|j: int, i: int|
                0 <= j < r && 0 <= i < formats.len() ==> #[trigger] preferred[j] != (
                #[trigger] formats[i]).format,
    decreases preferred.len(),
{
    if preferred.len() > 0 {
        let rest = preferred.drop_first();
        lemma_first_with(formats, preferred[0]);
        lemma_first_with_place(formats, preferred[0]);
        lemma_first_preferred_place(formats, rest);
        if first_with(formats, preferred[0]) is Some {
            assert(preferred[0] == first_with(formats, preferred[0])->0.format);
        } else if let Some(f) = first_preferred(formats, rest) {
            let r = choose|r: int|
                0 <= r < rest.len() && #[trigger] rest[r] == f.format && forall|j: int, i: int|
                    0 <= j < r && 0 <= i < formats.len() ==> #[trigger] rest[j] != (
                    #[trigger] formats[i]).format;
            assert(preferred[r + 1] == f.format);
            assert forall|j: int, i: int|
                0 <= j < r + 1 && 0 <= i < formats.len() implies #[trigger] preferred[j] != (
            #[trigger] formats[i]).format by {
                if j > 0 {
                    assert(rest[j - 1] == preferred[j]);
                }
            }
        }
    }
}

proof fn lemma_ranked(preferred: Seq<PixelFormat>, alpha_first: bool)
    requires
        preferred == if alpha_first {
            readable_preference()
        } else {
            cast_preference()
        },
    ensures
        preferred.len() == 8,
        forall|j: int| 0 <= j < 8 ==> rank(#[trigger] preferred[j], alpha_first) == Some(j),
        forall|p: PixelFormat|
            (#[trigger] rank(p, alpha_first)) is Some <==> preferred.contains(p),
{
    assert forall|j: int| 0 <= j < 8 implies rank(#[trigger] preferred[j], alpha_first) == Some(
        j,
    ) by {
        assert(channels(preferred[j]).len() == 4);
    }
    assert forall|p: PixelFormat|
        (#[trigger] rank(p, alpha_first)) is Some <==> preferred.contains(p) by {
        assert(preferred[0] == preferred[0]);
        assert(preferred.contains(preferred[0]));
        assert(preferred.contains(preferred[1]));
        assert(preferred.contains(preferred[2]));
        assert(preferred.contains(preferred[3]));
        assert(preferred.contains(preferred[4]));
        assert(preferred.contains(preferred[5]));
        assert(preferred.contains(preferred[6]));
        assert(preferred.contains(preferred[7]));
        assert(p is Other ==> channels(p).len() == 0);
        assert(!(p is Other) ==> channels(p).len() == 4);
    }
}

proof fn lemma_best(formats: Seq<ShmFormat>, alpha_first: bool)
    ensures
        ({
            let chosen = first_preferred(
                formats,
                if alpha_first {
                    readable_preference()
                } else {
                    cast_preference()
                },
            );
            &&& chosen is None <==> forall|i: int|
                0 <= i < formats.len() ==> rank((#[trigger] formats[i]).format, alpha_first) is None
            &&& chosen matches Some(f) ==> is_first(formats, f) && is_best(formats, f, alpha_first)
        }),
{
    let preferred = if alpha_first {
        readable_preference()
    } else {
        cast_preference()
    };
    let chosen = first_preferred(formats, preferred);
    lemma_ranked(preferred, alpha_first);
    lemma_first_preferred(formats, preferred);
    lemma_first_preferred_place(formats, preferred);
    if forall|i: int|
        0 <= i < formats.len() ==> rank((#[trigger] formats[i]).format, alpha_first) is None {
        assert forall|i: int| 0 <= i < formats.len() implies !preferred.contains(
            (#[trigger] formats[i]).format,
        ) by {
            assert(rank(formats[i].format, alpha_first) is None);
        }
    }
    if chosen is None {
        assert forall|i: int| 0 <= i < formats.len() implies rank(
            (#[trigger] formats[i]).format,
            alpha_first,
        ) is None by {
            assert(!preferred.contains(formats[i].format));
        }
    }
    if let Some(f) = chosen {
        let r = choose|r: int|
            0 <= r < preferred.len() && #[trigger] preferred[r] == f.format && forall|
                j: int,
                i: int,
            |
                0 <= j < r && 0 <= i < formats.len() ==> #[trigger] preferred[j] != (
                #[trigger] formats[i]).format;
        assert(rank(f.format, alpha_first) == Some(r));
        assert forall|i: int|
            0 <= i < formats.len() && rank(
                (#[trigger] formats[i]).format,
                alpha_first,
            ) is Some implies rank(formats[i].format, alpha_first)->0 >= r by {
            assert(preferred.contains(formats[i].format));
            let j = choose|j: int| 0 <= j < preferred.len() && preferred[j] == formats[i].format;
            assert(rank(preferred[j], alpha_first) == Some(j));
        }
    }
}

/// Whether no offered format ranks before one that has a rank.
pub open spec fn is_best(formats: Seq<ShmFormat>, chosen: ShmFormat, alpha_first: bool) -> bool {
    &&& rank(chosen.format, alpha_first) is Some
    &&& forall|i: int|
        0 <= i < formats.len() && rank((#[trigger] formats[i]).format, alpha_first) is Some ==> rank(
            chosen.format,
            alpha_first,
        )->0 <= rank(formats[i].format, alpha_first)->0
}

/// A screenshot is taken in the best ranking of the offered formats, with alpha first, and in the
/// first of them where several are the same. Nothing is chosen exactly where none has a rank.
pub proof fn law_screenshots_take_the_best_format(
    formats: &[ShmFormat],
    chosen: Option<ShmFormat>,
)
    requires
        call_ensures(choose_readable_shm_format, (formats,), chosen),
    ensures
        chosen is None <==> forall|i: int|
            0 <= i < formats@.len() ==> rank((#[trigger] formats@[i]).format, true) is None,
        chosen matches Some(f) ==> is_first(formats@, f) && is_best(formats@, f, true),
{
    lemma_best(formats@, true);
}

/// A buffer takes the preferred pixel format where it is offered. Otherwise it takes the best
/// ranking of the offered formats, with alpha last, and where none has a rank the first. The first
/// of several that are the same is taken. Nothing is chosen exactly where nothing is offered.
pub proof fn law_buffers_take_the_preferred_format(
    formats: &[ShmFormat],
    preferred: Option<PixelFormat>,
    chosen: Option<ShmFormat>,
)
    requires
        call_ensures(choose_shm_format, (formats, preferred), chosen),
    ensures
        chosen is None <==> formats@.len() == 0,
        chosen matches Some(f) ==> is_first(formats@, f),
        forall|i: int|
            0 <= i < formats@.len() && preferred == Some((#[trigger] formats@[i]).format) ==> (
            chosen matches Some(f) && f.format == formats@[i].format),
        (forall|i: int|
            0 <= i < formats@.len() ==> preferred != Some((#[trigger] formats@[i]).format)) ==> {
            &&& chosen matches Some(f) ==> is_best(formats@, f, false) || f == formats@[0]
            &&& chosen matches Some(f) ==> (forall|i: int|
                0 <= i < formats@.len() ==> rank((#[trigger] formats@[i]).format, false) is None)
                || is_best(formats@, f, false)
        },
{
    lemma_best(formats@, false);
    if let Some(p) = preferred {
        lemma_first_with(formats@, p);
        lemma_first_with_place(formats@, p);
    }
    if let Some(f) = chosen {
        if f == formats@[0] {
            assert(formats@[0] == f);
            assert(is_first(formats@, f));
        }
    }
}

/// A letter in lower case.
pub open spec fn lower(letter: char) -> char {
    (letter as int + 0x20) as char
}

/// The name of a format spells its channels, and then their bits.
pub proof fn law_names_spell_the_channels(format: PixelFormat, name: String)
    requires
        call_ensures(format_name, (format,), name),
    ensures
        !(format is Other) ==> {
            let list = channels(format);
            &&& name@.len() == (if list[0].1 == 2 {
                11int
            } else {
                8
            })
            &&& name@[0] == list[0].0
            &&& name@[1] == lower(list[1].0)
            &&& name@[2] == lower(list[2].0)
            &&& name@[3] == lower(list[3].0)
            &&& list[0].1 == 8 ==> name@.skip(4) == seq!['8', '8', '8', '8']
            &&& list[0].1 == 2 ==> name@.skip(4) == seq!['2', '1', '0', '1', '0', '1', '0']
        },
        format matches PixelFormat::Other(code) ==> (protocol_name(code) matches Some(text)
            ==> name@ == text) && (protocol_name(code) is None ==> name@ == decimal(code as nat)),
{
    reveal_strlit("Argb8888");
    reveal_strlit("Xrgb8888");
    reveal_strlit("Rgba8888");
    reveal_strlit("Rgbx8888");
    reveal_strlit("Abgr8888");
    reveal_strlit("Xbgr8888");
    reveal_strlit("Bgra8888");
    reveal_strlit("Bgrx8888");
    reveal_strlit("Argb2101010");
    reveal_strlit("Xrgb2101010");
    reveal_strlit("Abgr2101010");
    reveal_strlit("Xbgr2101010");
    let list = channels(format);
    if !(format is Other) {
        assert(list.len() == 4);
        if list[0].1 == 8 {
            assert(name@.skip(4) == seq!['8', '8', '8', '8']);
        } else {
            assert(name@.skip(4) == seq!['2', '1', '0', '1', '0', '1', '0']);
        }
    }
}

/// A code goes by its name, and by its number where it has none.
pub proof fn law_codes_go_by_name_or_number(code: u32, name: Option<String>, text: String)
    requires
        call_ensures(named_or_numbered, (code, name), text),
    ensures
        name matches Some(n) ==> text@ == n@,
        name is None ==> text@ == decimal(code as nat),
{
}

} // verus!
