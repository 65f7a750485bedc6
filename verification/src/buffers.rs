//! Capture buffers: which formats to try for a DMA-BUF, how to hand its planes to the compositor,
//! and how to lay out a shared-memory pool.

use vstd::prelude::*;
use vstd::string::StringExecFns;
use vstd::utf8::{decode_utf8, valid_utf8};

use crate::capture::{same_format, BufferCreateState, CaptureProbe};
use crate::damage::{DamageRect, DamageSet};
use crate::formats::{
    choose_shm_format,
    shm_choice,
    DmabufFormat,
    DmabufFormatView,
    PixelFormat,
    ShmFormat,
    DRM_FORMAT_MOD_INVALID,
};
use crate::geometry::Size;
use crate::search::are_places;
use crate::text::{decimal, hexadecimal, push_decimal, push_hexadecimal};

verus! {

/// A buffer that frames are captured into.
#[allow(inconsistent_fields)]
#[derive(Debug, Clone)]
pub enum DirectCaptureBuffer {
    Dmabuf { format: DmabufFormat, modifier: u64 },
    Shm { format: ShmFormat },
}

/// What a buffer is made of.
#[allow(inconsistent_fields)]
pub enum BufferView {
    Dmabuf { format: DmabufFormatView, modifier: u64 },
    Shm { format: ShmFormat },
}

impl View for DirectCaptureBuffer {
    type V = BufferView;

    open spec fn view(&self) -> BufferView {
        match self {
            DirectCaptureBuffer::Dmabuf { format, modifier } => BufferView::Dmabuf {
                format: format@,
                modifier: *modifier,
            },
            DirectCaptureBuffer::Shm { format } => BufferView::Shm { format: *format },
        }
    }
}

impl BufferView {
    /// The extent of the frames that the buffer holds.
    pub open spec fn extent(self) -> Size {
        match self {
            BufferView::Dmabuf { format, .. } => format.size,
            BufferView::Shm { format } => format.size,
        }
    }
}

impl DirectCaptureBuffer {
    /// The extent of the frames that the buffer holds.
    pub fn size(&self) -> (size: Size)
        ensures
            size == self@.extent(),
    {
        match self {
            DirectCaptureBuffer::Dmabuf { format, .. } => format.size,
            DirectCaptureBuffer::Shm { format } => format.size,
        }
    }

    /// The format of a DMA-BUF.
    pub fn dmabuf_format(&self) -> (found: Option<DmabufFormat>)
        ensures
            match self@ {
                BufferView::Dmabuf { format, .. } => found matches Some(f) && f@ == format,
                BufferView::Shm { .. } => found is None,
            },
    {
        match self {
            DirectCaptureBuffer::Dmabuf { format, .. } => Some(format.duplicate()),
            DirectCaptureBuffer::Shm { .. } => None,
        }
    }

    /// The layout of a DMA-BUF.
    pub fn modifier(&self) -> (found: Option<u64>)
        ensures
            found == match self@ {
                BufferView::Dmabuf { modifier, .. } => Some(modifier),
                BufferView::Shm { .. } => None,
            },
    {
        match self {
            DirectCaptureBuffer::Dmabuf { modifier, .. } => Some(*modifier),
            DirectCaptureBuffer::Shm { .. } => None,
        }
    }

    /// The format of a shared-memory buffer.
    pub fn shm_format(&self) -> (found: Option<ShmFormat>)
        ensures
            found == match self@ {
                BufferView::Dmabuf { .. } => None,
                BufferView::Shm { format } => Some(format),
            },
    {
        match self {
            DirectCaptureBuffer::Dmabuf { .. } => None,
            DirectCaptureBuffer::Shm { format } => Some(*format),
        }
    }

    /// The rectangles to capture into the buffer, given what it has missed.
    pub fn damage_to_capture(&self, damage: &DamageSet) -> (rects: Vec<DamageRect>)
        ensures
            rects@ == damage@.rects_for(self@.extent()),
    {
        damage.rects_for_frame(self.size())
    }
}

/// Why no buffer was made.
#[allow(inconsistent_fields)]
#[derive(Debug, Clone, Copy, PartialEq, Eq, Structural)]
pub enum BufferError {
    /// There is no device to allocate DMA-BUFs on.
    NoDevice,
    /// No layout is offered for any DMA-BUF format.
    NoModifiers,
    /// No shared-memory format is offered.
    NoShmFormat,
    /// The shared-memory pool would be larger than the protocol can say.
    PoolTooLarge,
    /// The allocator does not know the format.
    UnknownFourcc(u32),
    /// The allocator chose another layout.
    WrongModifier { actual: u64, expected: u64 },
    /// The allocator chose another format.
    WrongFourcc { actual: u32, expected: u32 },
    /// The compositor rejected the buffer.
    Rejected { fourcc: u32, size: Size, modifier: u64 },
}

/// The bytes that a format code is spelled with.
pub open spec fn code_bytes(fourcc: u32) -> Seq<u8> {
    seq![
        (fourcc % 0x100) as u8,
        (fourcc / 0x100 % 0x100) as u8,
        (fourcc / 0x1_0000 % 0x100) as u8,
        (fourcc / 0x100_0000) as u8,
    ]
}

/// Whether a byte is an ASCII letter or digit.
pub open spec fn alphanumeric(byte: u8) -> bool {
    0x30 <= byte <= 0x39 || 0x41 <= byte <= 0x5a || 0x61 <= byte <= 0x7a
}

/// A byte of a format code, with a space for zero.
pub open spec fn spaced(byte: u8) -> u8 {
    if byte == 0 {
        0x20
    } else {
        byte
    }
}

/// The letters of a format code, where it has any: the first two are ASCII letters or digits, and
/// the rest is text too.
pub open spec fn spelling(fourcc: u32) -> Option<Seq<char>> {
    let bytes = code_bytes(fourcc);
    if alphanumeric(bytes[0]) && alphanumeric(bytes[1]) && valid_utf8(bytes.skip(2)) {
        Some(
            seq![bytes[0] as char, bytes[1] as char] + decode_utf8(
                seq![spaced(bytes[2]), spaced(bytes[3])],
            ),
        )
    } else {
        None
    }
}

/// Whether the bytes of a format code are one character in UTF-8.
pub open spec fn is_one_char(fourcc: u32) -> bool {
    let bytes = code_bytes(fourcc);
    &&& 0x80 <= bytes[2] <= 0xbf
    &&& 0x80 <= bytes[3] <= 0xbf
    &&& {
        ||| bytes[0] == 0xf0 && 0x90 <= bytes[1] <= 0xbf
        ||| 0xf1 <= bytes[0] <= 0xf3 && 0x80 <= bytes[1] <= 0xbf
        ||| bytes[0] == 0xf4 && 0x80 <= bytes[1] <= 0x8f
    }
}

/// The words for a format code that is not known: its letters where it has any, and its number.
pub open spec fn unknown_words(fourcc: u32) -> Seq<char> {
    "UnrecognizedFourcc("@ + match spelling(fourcc) {
        Some(letters) => letters + ", "@,
        None => Seq::empty(),
    } + decimal(fourcc as nat) + ")"@
}

/// `UnrecognizedFourcc` of the `drm` crate, as its `Display` writes it: the name of the type, with
/// the letters of the code where it has any, and its number. Codes that are one character in UTF-8
/// are left out: the crate panics on them.
#[verifier::external_body]
fn unrecognized_fourcc(fourcc: u32) -> (text: String)
    requires
        !is_one_char(fourcc),
    ensures
        text@ == unknown_words(fourcc),
{
    drm::buffer::UnrecognizedFourcc(fourcc).to_string()
}

impl BufferError {
    /// The words for what went wrong.
    pub open spec fn words(self) -> Seq<char> {
        match self {
            BufferError::NoDevice => "compositor did not provide a DMA-BUF device"@,
            BufferError::NoModifiers => "no DMA-BUF modifiers were advertised"@,
            BufferError::NoShmFormat => "no compatible SHM format was advertised"@,
            BufferError::PoolTooLarge => "out of range integral type conversion attempted"@,
            BufferError::UnknownFourcc(fourcc) => unknown_words(fourcc),
            BufferError::WrongModifier { actual, expected } => "GBM returned modifier 0x"@
                + hexadecimal(actual as nat, 16) + ", expected 0x"@ + hexadecimal(
                expected as nat,
                16,
            ),
            BufferError::WrongFourcc { actual, expected } => "GBM returned fourcc=0x"@
                + hexadecimal(actual as nat, 8) + ", expected 0x"@ + hexadecimal(
                expected as nat,
                8,
            ),
            BufferError::Rejected { fourcc, size, modifier } => {
                "compositor rejected DMA-BUF buffer for fourcc=0x"@ + hexadecimal(
                    fourcc as nat,
                    8,
                ) + ", size="@ + decimal(size.width as nat) + "x"@ + decimal(size.height as nat)
                    + ", modifier=0x"@ + hexadecimal(modifier as nat, 16)
            },
        }
    }

    /// Whether there are words for what went wrong: a format code that is one character in UTF-8
    /// has none.
    pub open spec fn has_words(self) -> bool {
        self matches BufferError::UnknownFourcc(fourcc) ==> !is_one_char(fourcc)
    }

    /// Whether there are words for what went wrong.
    pub fn can_say(&self) -> (can: bool)
        ensures
            can == self.has_words(),
    {
        match self {
            BufferError::UnknownFourcc(fourcc) => {
                let b0: u32 = *fourcc % 0x100;
                let b1: u32 = *fourcc / 0x100 % 0x100;
                let b2: u32 = *fourcc / 0x1_0000 % 0x100;
                let b3: u32 = *fourcc / 0x100_0000;
                let first: bool = b0 == 0xf0 && 0x90 <= b1 && b1 <= 0xbf || 0xf1 <= b0 && b0 <= 0xf3
                    && 0x80 <= b1 && b1 <= 0xbf || b0 == 0xf4 && 0x80 <= b1 && b1 <= 0x8f;
                !(first && 0x80 <= b2 && b2 <= 0xbf && 0x80 <= b3 && b3 <= 0xbf)
            },
            _ => true,
        }
    }

    /// Says what went wrong.
    pub fn message(&self) -> (text: String)
        requires
            self.has_words(),
        ensures
            text@ == self.words(),
    {
        match self {
            BufferError::NoDevice => "compositor did not provide a DMA-BUF device".to_owned(),
            BufferError::NoModifiers => "no DMA-BUF modifiers were advertised".to_owned(),
            BufferError::NoShmFormat => "no compatible SHM format was advertised".to_owned(),
            BufferError::PoolTooLarge => {
                "out of range integral type conversion attempted".to_owned()
            },
            BufferError::UnknownFourcc(fourcc) => unrecognized_fourcc(*fourcc),
            BufferError::WrongModifier { actual, expected } => {
                let mut text: String = "GBM returned modifier 0x".to_owned();
                push_hexadecimal(&mut text, *actual, 16);
                text.append(", expected 0x");
                push_hexadecimal(&mut text, *expected, 16);
                text
            },
            BufferError::WrongFourcc { actual, expected } => {
                let mut text: String = "GBM returned fourcc=0x".to_owned();
                push_hexadecimal(&mut text, *actual as u64, 8);
                text.append(", expected 0x");
                push_hexadecimal(&mut text, *expected as u64, 8);
                text
            },
            BufferError::Rejected { fourcc, size, modifier } => {
                let mut text: String =
                    "compositor rejected DMA-BUF buffer for fourcc=0x".to_owned();
                push_hexadecimal(&mut text, *fourcc as u64, 8);
                text.append(", size=");
                push_decimal(&mut text, size.width as u64);
                text.append("x");
                push_decimal(&mut text, size.height as u64);
                text.append(", modifier=0x");
                push_hexadecimal(&mut text, *modifier, 16);
                text
            },
        }
    }
}

fn has_modifier(modifiers: &Vec<u64>, wanted: u64) -> (found: bool)
    ensures
        found == modifiers@.contains(wanted),
{
    let mut i: usize = 0;
    while i < modifiers.len()
        invariant
            i <= modifiers@.len(),
            forall|j: int| 0 <= j < i ==> modifiers@[j] != wanted,
        decreases modifiers@.len() - i,
    {
        if modifiers[i] == wanted {
            return true;
        }
        i += 1;
    }
    false
}

fn same_modifiers(a: &Vec<u64>, b: &Vec<u64>) -> (same: bool)
    ensures
        same == (a@ == b@),
{
    if a.len() != b.len() {
        return false;
    }
    let mut i: usize = 0;
    while i < a.len()
        invariant
            i <= a@.len(),
            a@.len() == b@.len(),
            forall|j: int| 0 <= j < i ==> a@[j] == b@[j],
        decreases a@.len() - i,
    {
        if a[i] != b[i] {
            return false;
        }
        i += 1;
    }
    assert(a@ == b@);
    true
}

fn same_dmabuf_format(a: &DmabufFormat, b: &DmabufFormat) -> (same: bool)
    ensures
        same == (a@ == b@),
{
    a.fourcc == b.fourcc && a.size == b.size && same_modifiers(&a.modifiers, &b.modifiers)
}

/// The first layout of the first format that has any.
pub open spec fn first_modifier(formats: Seq<DmabufFormatView>) -> Option<u64>
    decreases formats.len(),
{
    if formats.len() == 0 {
        None
    } else if formats[0].modifiers.len() > 0 {
        Some(formats[0].modifiers[0])
    } else {
        first_modifier(formats.drop_first())
    }
}

/// The formats of one code that have a layout, in order.
pub open spec fn with_code_and_modifier(
    formats: Seq<DmabufFormatView>,
    fourcc: u32,
    modifier: u64,
) -> Seq<DmabufFormatView> {
    formats.filter(|f: DmabufFormatView| f.fourcc == fourcc && f.modifiers.contains(modifier))
}

/// The formats that have a layout, in order, each only once.
pub open spec fn distinct_with_modifier(
    formats: Seq<DmabufFormatView>,
    modifier: u64,
) -> Seq<DmabufFormatView>
    decreases formats.len(),
{
    if formats.len() == 0 {
        Seq::empty()
    } else {
        let init = distinct_with_modifier(formats.drop_last(), modifier);
        if formats.last().modifiers.contains(modifier) && !init.contains(formats.last()) {
            init.push(formats.last())
        } else {
            init
        }
    }
}

/// The layout that a DMA-BUF will have: the preferred one, or the first that is offered.
pub open spec fn chosen_modifier(
    formats: Seq<DmabufFormatView>,
    preferred: Option<u64>,
) -> Option<u64> {
    match preferred {
        Some(modifier) => Some(modifier),
        None => first_modifier(formats),
    }
}

/// The formats to try for a DMA-BUF with a layout, in order.
pub open spec fn dmabuf_candidates(
    formats: Seq<DmabufFormatView>,
    preferred_fourcc: Option<u32>,
    modifier: u64,
) -> Seq<DmabufFormatView> {
    match preferred_fourcc {
        Some(fourcc) => with_code_and_modifier(formats, fourcc, modifier),
        None => distinct_with_modifier(formats, modifier),
    }
}

/// The attempts to make a DMA-BUF: which formats remain to be tried, and how the last attempt
/// failed.
pub struct DmabufSearch {
    pub modifier: u64,
    pub candidates: Vec<DmabufFormat>,
    pub tried: usize,
    pub last_error: Option<String>,
}

/// Where a search stands.
#[verifier::ext_equal]
pub struct SearchView {
    pub modifier: u64,
    pub candidates: Seq<DmabufFormatView>,
    pub tried: int,
    pub last_error: Option<Seq<char>>,
}

impl View for DmabufSearch {
    type V = SearchView;

    open spec fn view(&self) -> SearchView {
        SearchView {
            modifier: self.modifier,
            candidates: self.candidates@.map_values(|f: DmabufFormat| f@),
            tried: self.tried as int,
            last_error: match self.last_error {
                Some(text) => Some(text@),
                None => None,
            },
        }
    }
}

/// What to do next to get a DMA-BUF.
pub enum Attempt {
    /// Make a buffer of this format.
    Try(DmabufFormat),
    /// Give up, for this reason.
    GiveUp(String),
}

impl SearchView {
    /// No more formats are tried than there are.
    pub open spec fn wf(self) -> bool {
        0 <= self.tried <= self.candidates.len()
    }

    /// Why a search without a success ended.
    pub open spec fn reason(self) -> Seq<char> {
        match self.last_error {
            Some(text) => text,
            None => "no DMA-BUF formats were advertised"@,
        }
    }
}

impl DmabufSearch {
    /// Starts the search for a DMA-BUF on what a probe found.
    pub fn start(
        probe: &CaptureProbe,
        preferred_fourcc: Option<u32>,
        preferred_modifier: Option<u64>,
    ) -> (search: Result<Self, BufferError>)
        ensures
            match search {
                Ok(s) => {
                    &&& probe@.has_dmabuf_device
                    &&& chosen_modifier(probe@.dmabuf_formats, preferred_modifier) == Some(
                        s@.modifier,
                    )
                    &&& s@ == (SearchView {
                        modifier: s@.modifier,
                        candidates: dmabuf_candidates(
                            probe@.dmabuf_formats,
                            preferred_fourcc,
                            s@.modifier,
                        ),
                        tried: 0,
                        last_error: None,
                    })
                },
                Err(BufferError::NoDevice) => !probe@.has_dmabuf_device,
                Err(BufferError::NoModifiers) => probe@.has_dmabuf_device && chosen_modifier(
                    probe@.dmabuf_formats,
                    preferred_modifier,
                ) is None,
                Err(_) => false,
            },
    {
        if !probe.has_dmabuf_device {
            return Err(BufferError::NoDevice);
        }
        let modifier: u64 = match preferred_modifier {
            Some(modifier) => modifier,
            None => match find_first_modifier(&probe.dmabuf_formats) {
                Some(modifier) => modifier,
                None => {
                    assert(probe@.dmabuf_formats == probe.dmabuf_formats@.map_values(
                        |f: DmabufFormat| f@,
                    ));
                    return Err(BufferError::NoModifiers);
                },
            },
        };
        let candidates: Vec<DmabufFormat> = match preferred_fourcc {
            Some(fourcc) => collect_with_code(&probe.dmabuf_formats, fourcc, modifier),
            None => collect_distinct(&probe.dmabuf_formats, modifier),
        };
        Ok(DmabufSearch { modifier, candidates, tried: 0, last_error: None })
    }

    /// The next step of the search.
    pub fn next(&mut self) -> (attempt: Attempt)
        requires
            old(self)@.wf(),
        ensures
            final(self)@.wf(),
            old(self)@.tried < old(self)@.candidates.len() ==> {
                &&& attempt matches Attempt::Try(format)
                &&& format@ == old(self)@.candidates[old(self)@.tried]
                &&& final(self)@ == (SearchView { tried: old(self)@.tried + 1, ..old(self)@ })
            },
            old(self)@.tried == old(self)@.candidates.len() ==> {
                &&& attempt matches Attempt::GiveUp(text)
                &&& text@ == old(self)@.reason()
                &&& final(self)@ == old(self)@
            },
    {
        let ghost before = self@;
        if self.tried < self.candidates.len() {
            let format: DmabufFormat = self.candidates[self.tried].duplicate();
            assert(format@ == before.candidates[before.tried]);
            self.tried = self.tried + 1;
            Attempt::Try(format)
        } else {
            match &self.last_error {
                Some(text) => Attempt::GiveUp(text.clone()),
                None => Attempt::GiveUp("no DMA-BUF formats were advertised".to_owned()),
            }
        }
    }

    /// The last attempt failed.
    pub fn failed(&mut self, error: String)
        ensures
            final(self)@ == (SearchView { last_error: Some(error@), ..old(self)@ }),
    {
        self.last_error = Some(error);
    }
}

fn find_first_modifier(formats: &Vec<DmabufFormat>) -> (found: Option<u64>)
    ensures
        found == first_modifier(formats@.map_values(|f: DmabufFormat| f@)),
{
    let ghost views = formats@.map_values(|f: DmabufFormat| f@);
    let mut i: usize = 0;
    assert(views.skip(0) == views);
    while i < formats.len()
        invariant
            i <= formats@.len(),
            views == formats@.map_values(|f: DmabufFormat| f@),
            first_modifier(views.skip(i as int)) == first_modifier(views),
        decreases formats@.len() - i,
    {
        assert(views.skip(i as int).drop_first() == views.skip(i + 1));
        assert(views.skip(i as int)[0] == formats@[i as int]@);
        if formats[i].modifiers.len() > 0 {
            return Some(formats[i].modifiers[0]);
        }
        i += 1;
    }
    None
}

fn collect_with_code(formats: &Vec<DmabufFormat>, fourcc: u32, modifier: u64) -> (found: Vec<
    DmabufFormat,
>)
    ensures
        found@.map_values(|f: DmabufFormat| f@) == with_code_and_modifier(
            formats@.map_values(|f: DmabufFormat| f@),
            fourcc,
            modifier,
        ),
{
    let ghost views = formats@.map_values(|f: DmabufFormat| f@);
    let ghost wanted = |f: DmabufFormatView|
        f.fourcc == fourcc && f.modifiers.contains(modifier);
    let mut found: Vec<DmabufFormat> = Vec::new();
    let mut i: usize = 0;
    assert(found@.map_values(|f: DmabufFormat| f@) == Seq::<DmabufFormatView>::empty());
    assert(views.take(0) == Seq::<DmabufFormatView>::empty());
    reveal(Seq::filter);
    while i < formats.len()
        invariant
            i <= formats@.len(),
            views == formats@.map_values(|f: DmabufFormat| f@),
            wanted == (|f: DmabufFormatView|
                f.fourcc == fourcc && f.modifiers.contains(modifier)),
            found@.map_values(|f: DmabufFormat| f@) == views.take(i as int).filter(wanted),
        decreases formats@.len() - i,
    {
        reveal(Seq::filter);
        assert(views.take(i + 1).drop_last() == views.take(i as int));
        assert(views.take(i + 1).last() == formats@[i as int]@);
        if formats[i].fourcc == fourcc && has_modifier(&formats[i].modifiers, modifier) {
            let ghost before = found@;
            let format: DmabufFormat = formats[i].duplicate();
            found.push(format);
            assert(found@.map_values(|f: DmabufFormat| f@) == before.map_values(
                |f: DmabufFormat| f@,
            ).push(format@));
        }
        i += 1;
    }
    assert(views.take(i as int) == views);
    found
}

fn collect_distinct(formats: &Vec<DmabufFormat>, modifier: u64) -> (found: Vec<DmabufFormat>)
    ensures
        found@.map_values(|f: DmabufFormat| f@) == distinct_with_modifier(
            formats@.map_values(|f: DmabufFormat| f@),
            modifier,
        ),
{
    let ghost views = formats@.map_values(|f: DmabufFormat| f@);
    let mut found: Vec<DmabufFormat> = Vec::new();
    let mut i: usize = 0;
    assert(found@.map_values(|f: DmabufFormat| f@) == Seq::<DmabufFormatView>::empty());
    while i < formats.len()
        invariant
            i <= formats@.len(),
            views == formats@.map_values(|f: DmabufFormat| f@),
            found@.map_values(|f: DmabufFormat| f@) == distinct_with_modifier(
                views.take(i as int),
                modifier,
            ),
        decreases formats@.len() - i,
    {
        assert(views.take(i + 1).drop_last() == views.take(i as int));
        assert(views.take(i + 1).last() == formats@[i as int]@);
        if has_modifier(&formats[i].modifiers, modifier) && !holds_format(&found, &formats[i]) {
            let ghost before = found@;
            let format: DmabufFormat = formats[i].duplicate();
            found.push(format);
            assert(found@.map_values(|f: DmabufFormat| f@) == before.map_values(
                |f: DmabufFormat| f@,
            ).push(format@));
        }
        i += 1;
    }
    assert(views.take(i as int) == views);
    found
}

fn holds_format(formats: &Vec<DmabufFormat>, wanted: &DmabufFormat) -> (found: bool)
    ensures
        found == formats@.map_values(|f: DmabufFormat| f@).contains(wanted@),
{
    let ghost views = formats@.map_values(|f: DmabufFormat| f@);
    let mut i: usize = 0;
    while i < formats.len()
        invariant
            i <= formats@.len(),
            views == formats@.map_values(|f: DmabufFormat| f@),
            forall|j: int| 0 <= j < i ==> views[j] != wanted@,
        decreases formats@.len() - i,
    {
        assert(views[i as int] == formats@[i as int]@);
        if same_dmabuf_format(&formats[i], wanted) {
            return true;
        }
        i += 1;
    }
    false
}

/// A shared-memory pool and the one buffer in it, in the integers of the protocol.
#[derive(Debug, Clone, Copy, PartialEq, Eq, Structural)]
pub struct PoolLayout {
    pub format: ShmFormat,
    pub pool_size: i32,
    pub width: i32,
    pub height: i32,
    pub stride: i32,
}

/// Lays out a shared-memory buffer of the best of the offered formats.
pub fn create_shm_buffer(
    formats: &[ShmFormat],
    preferred_format: Option<PixelFormat>,
) -> (layout: Result<PoolLayout, BufferError>)
    ensures
        match shm_choice(formats@, preferred_format) {
            None => layout == Err::<PoolLayout, _>(BufferError::NoShmFormat),
            Some(format) => if format.bytes() > i32::MAX {
                layout == Err::<PoolLayout, _>(BufferError::PoolTooLarge)
            } else {
                layout == Ok::<_, BufferError>(
                    PoolLayout {
                        format,
                        pool_size: format.bytes() as i32,
                        width: format.size.width as i32,
                        height: format.size.height as i32,
                        stride: format.stride as i32,
                    },
                )
            },
        },
{
    let format: ShmFormat = match choose_shm_format(formats, preferred_format) {
        Some(format) => format,
        None => {
            return Err(BufferError::NoShmFormat);
        },
    };
    let size: u64 = format.byte_size();
    if size > i32::MAX as u64 {
        return Err(BufferError::PoolTooLarge);
    }
    Ok(
        PoolLayout {
            format,
            pool_size: size as i32,
            width: format.size.width as i32,
            height: format.size.height as i32,
            stride: format.stride as i32,
        },
    )
}

/// Whether the allocator knows a format, as `DrmFourcc::try_from` of the `drm` crate answers it.
pub uninterp spec fn allocator_knows(fourcc: u32) -> bool;

/// `DrmFourcc::try_from`: looks a code up in the fixed list of formats of the crate.
#[verifier::external_body]
fn is_drm_fourcc(fourcc: u32) -> (known: bool)
    ensures
        known == allocator_knows(fourcc),
{
    drm::buffer::DrmFourcc::try_from(fourcc).is_ok()
}

/// What the allocator is asked for. Without a layout it is free to choose one.
#[derive(Debug, Clone, Copy, PartialEq, Eq, Structural)]
pub struct Allocation {
    pub width: u32,
    pub height: u32,
    pub fourcc: u32,
    pub modifier: Option<u64>,
}

/// Where a plane lies in its allocation.
#[derive(Debug, Clone, Copy, PartialEq, Eq, Structural)]
pub struct Plane {
    pub offset: u32,
    pub stride: u32,
}

/// A plane as the compositor is told of it. The layout comes in two halves.
#[derive(Debug, Clone, Copy, PartialEq, Eq, Structural)]
pub struct PlaneParams {
    pub plane: u32,
    pub offset: u32,
    pub stride: u32,
    pub modifier_high: u32,
    pub modifier_low: u32,
}

/// A request to the compositor to make a buffer of planes.
#[derive(Debug)]
pub struct Submission {
    pub planes: Vec<PlaneParams>,
    pub width: i32,
    pub height: i32,
    pub fourcc: u32,
}

/// The request that asks the allocator for a buffer with a layout.
pub open spec fn allocation_for(format: DmabufFormatView, modifier: u64) -> Allocation {
    Allocation {
        width: format.size.width,
        height: format.size.height,
        fourcc: format.fourcc,
        modifier: if modifier == DRM_FORMAT_MOD_INVALID {
            None
        } else {
            Some(modifier)
        },
    }
}

/// What is wrong with what the allocator brought.
pub open spec fn allocation_fault(
    format: DmabufFormatView,
    modifier: u64,
    actual_modifier: u64,
    actual_fourcc: u32,
) -> Option<BufferError> {
    if actual_modifier != modifier {
        Some(BufferError::WrongModifier { actual: actual_modifier, expected: modifier })
    } else if actual_fourcc != format.fourcc {
        Some(BufferError::WrongFourcc { actual: actual_fourcc, expected: format.fourcc })
    } else {
        None
    }
}

/// The planes as the compositor is told of them.
pub open spec fn plane_params(planes: Seq<Plane>, modifier: u64) -> Seq<PlaneParams> {
    planes.map(
        |i: int, p: Plane|
            PlaneParams {
                plane: i as u32,
                offset: p.offset,
                stride: p.stride,
                modifier_high: (modifier / 0x1_0000_0000) as u32,
                modifier_low: (modifier % 0x1_0000_0000) as u32,
            },
    )
}

/// What to ask the allocator for, to get a DMA-BUF of a format with a layout.
pub fn request_allocation(format: &DmabufFormat, modifier: u64) -> (request: Result<
    Allocation,
    BufferError,
>)
    ensures
        request == if allocator_knows(format@.fourcc) {
            Ok(allocation_for(format@, modifier))
        } else {
            Err(BufferError::UnknownFourcc(format@.fourcc))
        },
{
    let known: bool = is_drm_fourcc(format.fourcc);
    plan_allocation(format, modifier, known)
}

/// What to ask the allocator for, given whether it knows the format.
pub fn plan_allocation(format: &DmabufFormat, modifier: u64, known: bool) -> (request: Result<
    Allocation,
    BufferError,
>)
    ensures
        request == if known {
            Ok(allocation_for(format@, modifier))
        } else {
            Err(BufferError::UnknownFourcc(format@.fourcc))
        },
{
    if !known {
        return Err(BufferError::UnknownFourcc(format.fourcc));
    }
    Ok(
        Allocation {
            width: format.size.width,
            height: format.size.height,
            fourcc: format.fourcc,
            modifier: if modifier == DRM_FORMAT_MOD_INVALID {
                None
            } else {
                Some(modifier)
            },
        },
    )
}

/// Checks what the allocator brought.
pub fn check_allocation(
    format: &DmabufFormat,
    modifier: u64,
    actual_modifier: u64,
    actual_fourcc: u32,
) -> (checked: Result<(), BufferError>)
    ensures
        checked == match allocation_fault(format@, modifier, actual_modifier, actual_fourcc) {
            None => Ok::<(), _>(()),
            Some(error) => Err(error),
        },
{
    if actual_modifier != modifier {
        return Err(BufferError::WrongModifier { actual: actual_modifier, expected: modifier });
    }
    if actual_fourcc != format.fourcc {
        return Err(BufferError::WrongFourcc { actual: actual_fourcc, expected: format.fourcc });
    }
    Ok(())
}

/// The request that hands the planes of an allocation to the compositor.
pub fn submit_planes(format: &DmabufFormat, modifier: u64, planes: &Vec<Plane>) -> (submission:
    Submission)
    requires
        planes@.len() <= u32::MAX,
    ensures
        submission.planes@ == plane_params(planes@, modifier),
        submission.width == format@.size.width as i32,
        submission.height == format@.size.height as i32,
        submission.fourcc == format@.fourcc,
{
    let mut params: Vec<PlaneParams> = Vec::new();
    let mut i: usize = 0;
    assert((modifier >> 32) as u32 == modifier / 0x1_0000_0000) by (bit_vector);
    assert((modifier & 0xffff_ffff) as u32 == modifier % 0x1_0000_0000) by (bit_vector);
    while i < planes.len()
        invariant
            i <= planes@.len() <= u32::MAX,
            (modifier >> 32) as u32 == modifier / 0x1_0000_0000,
            (modifier & 0xffff_ffff) as u32 == modifier % 0x1_0000_0000,
            params@ == plane_params(planes@, modifier).take(i as int),
        decreases planes@.len() - i,
    {
        params.push(
            PlaneParams {
                plane: i as u32,
                offset: planes[i].offset,
                stride: planes[i].stride,
                modifier_high: (modifier >> 32) as u32,
                modifier_low: (modifier & 0xffff_ffff) as u32,
            },
        );
        i += 1;
    }
    Submission {
        planes: params,
        width: format.size.width as i32,
        height: format.size.height as i32,
        fourcc: format.fourcc,
    }
}

/// What the answer of the compositor comes to: nothing yet, a buffer or a rejection.
pub fn finish_buffer(
    format: DmabufFormat,
    modifier: u64,
    answer: Option<BufferCreateState>,
) -> (outcome: Option<Result<DirectCaptureBuffer, BufferError>>)
    ensures
        match answer {
            None => outcome is None,
            Some(BufferCreateState::Created) => outcome matches Some(Ok(buffer)) && buffer@
                == (BufferView::Dmabuf { format: format@, modifier }),
            Some(BufferCreateState::Failed) => outcome matches Some(Err(error)) && error == (
            BufferError::Rejected { fourcc: format@.fourcc, size: format@.size, modifier }),
        },
{
    match answer {
        None => None,
        Some(BufferCreateState::Created) => Some(
            Ok(DirectCaptureBuffer::Dmabuf { format, modifier }),
        ),
        Some(BufferCreateState::Failed) => Some(
            Err(BufferError::Rejected { fourcc: format.fourcc, size: format.size, modifier }),
        ),
    }
}

/// The two halves of a layout name it in full.
pub proof fn law_plane_layouts_are_whole(planes: Seq<Plane>, modifier: u64, i: int)
    requires
        0 <= i < planes.len() <= u32::MAX,
    ensures
        ({
            let p = plane_params(planes, modifier)[i];
            &&& p.plane == i
            &&& p.modifier_high * 0x1_0000_0000 + p.modifier_low == modifier
        }),
{
}

/// Every format that is tried for a DMA-BUF is offered and has the layout, and the preferred code
/// where there is one. None that qualifies is passed over, and without a preferred code none is
/// tried twice.
pub proof fn law_candidates_are_those_offered(
    formats: Seq<DmabufFormatView>,
    preferred_fourcc: Option<u32>,
    modifier: u64,
)
    ensures
        forall|f: DmabufFormatView| #[trigger]
            dmabuf_candidates(formats, preferred_fourcc, modifier).contains(f) <==> {
                &&& formats.contains(f)
                &&& f.modifiers.contains(modifier)
                &&& preferred_fourcc matches Some(fourcc) ==> f.fourcc == fourcc
            },
        preferred_fourcc is None ==> dmabuf_candidates(
            formats,
            preferred_fourcc,
            modifier,
        ).no_duplicates(),
{
    match preferred_fourcc {
        Some(fourcc) => {
            lemma_filter_members(
                formats,
                |f: DmabufFormatView| f.fourcc == fourcc && f.modifiers.contains(modifier),
            );
        },
        None => {
            lemma_distinct_members(formats, modifier);
        },
    }
}

proof fn lemma_filter_members(
    formats: Seq<DmabufFormatView>,
    wanted: spec_fn(DmabufFormatView) -> bool,
)
    ensures
        forall|f: DmabufFormatView| #[trigger]
            formats.filter(wanted).contains(f) <==> formats.contains(f) && wanted(f),
    decreases formats.len(),
{
    reveal(Seq::filter);
    if formats.len() > 0 {
        let rest = formats.drop_last();
        lemma_filter_members(rest, wanted);
        lemma_push_members(rest, formats.last());
        assert(rest.push(formats.last()) == formats);
        lemma_push_members(rest.filter(wanted), formats.last());
    }
}

proof fn lemma_distinct_members(formats: Seq<DmabufFormatView>, modifier: u64)
    ensures
        distinct_with_modifier(formats, modifier).no_duplicates(),
        forall|f: DmabufFormatView| #[trigger]
            distinct_with_modifier(formats, modifier).contains(f) <==> formats.contains(f)
                && f.modifiers.contains(modifier),
    decreases formats.len(),
{
    if formats.len() > 0 {
        let rest = formats.drop_last();
        let init = distinct_with_modifier(rest, modifier);
        lemma_distinct_members(rest, modifier);
        lemma_push_members(rest, formats.last());
        assert(rest.push(formats.last()) == formats);
        lemma_push_members(init, formats.last());
    }
}

proof fn lemma_push_members(s: Seq<DmabufFormatView>, last: DmabufFormatView)
    ensures
        forall|f: DmabufFormatView| #[trigger]
            s.push(last).contains(f) <==> s.contains(f) || f == last,
{
    assert forall|f: DmabufFormatView| #[trigger]
        s.push(last).contains(f) <==> s.contains(f) || f == last by {
        if s.contains(f) {
            let i = choose|i: int| 0 <= i < s.len() && s[i] == f;
            assert(s.push(last)[i] == f);
        }
        assert(s.push(last)[s.len() as int] == last);
    }
}

/// A buffer tells what it is made of: a DMA-BUF its format and layout, shared memory its format. It
/// captures what it has missed of frames of its own size.
pub proof fn law_buffers_tell_what_they_are(
    buffer: DirectCaptureBuffer,
    size: Size,
    dmabuf: Option<DmabufFormat>,
    modifier: Option<u64>,
    shm: Option<ShmFormat>,
    damage: DamageSet,
    rects: Vec<DamageRect>,
    frame_rects: Vec<DamageRect>,
)
    requires
        call_ensures(DirectCaptureBuffer::size, (&buffer,), size),
        call_ensures(DirectCaptureBuffer::dmabuf_format, (&buffer,), dmabuf),
        call_ensures(DirectCaptureBuffer::modifier, (&buffer,), modifier),
        call_ensures(DirectCaptureBuffer::shm_format, (&buffer,), shm),
        call_ensures(DirectCaptureBuffer::damage_to_capture, (&buffer, &damage), rects),
        call_ensures(DamageSet::rects_for_frame, (&damage, size), frame_rects),
    ensures
        buffer matches DirectCaptureBuffer::Dmabuf { format, modifier: layout } ==> size
            == format.size && (dmabuf matches Some(f) && same_format(f, format)) && modifier
            == Some(layout) && shm is None,
        buffer matches DirectCaptureBuffer::Shm { format } ==> size == format.size && dmabuf is None
            && modifier is None && shm == Some(format),
        rects@ == frame_rects@,
{
}

proof fn lemma_first_modifier(formats: Seq<DmabufFormatView>, i: int)
    ensures
        0 <= i < formats.len() && formats[i].modifiers.len() > 0 && (forall|j: int|
            0 <= j < i ==> (#[trigger] formats[j]).modifiers.len() == 0) ==> first_modifier(formats)
            == Some(formats[i].modifiers[0]),
        (forall|j: int| 0 <= j < formats.len() ==> (#[trigger] formats[j]).modifiers.len() == 0)
            <==> first_modifier(formats) is None,
    decreases formats.len(),
{
    if formats.len() > 0 {
        let rest = formats.drop_first();
        assert forall|j: int| 0 <= j < rest.len() implies #[trigger] rest[j] == formats[j + 1] by {}
        lemma_first_modifier(rest, i - 1);
        if formats[0].modifiers.len() == 0 {
            if 0 < i < formats.len() && (forall|j: int|
                0 <= j < i ==> (#[trigger] formats[j]).modifiers.len() == 0) {
                assert forall|j: int| 0 <= j < i - 1 implies (
                #[trigger] rest[j]).modifiers.len() == 0 by {
                    assert(formats[j + 1].modifiers.len() == 0);
                }
                assert(rest[i - 1] == formats[i]);
            }
            if forall|j: int|
                0 <= j < rest.len() ==> (#[trigger] rest[j]).modifiers.len() == 0 {
                assert forall|j: int| 0 <= j < formats.len() implies (
                #[trigger] formats[j]).modifiers.len() == 0 by {
                    if j > 0 {
                        assert(rest[j - 1] == formats[j]);
                    }
                }
            }
            if forall|j: int|
                0 <= j < formats.len() ==> (#[trigger] formats[j]).modifiers.len() == 0 {
                assert forall|j: int| 0 <= j < rest.len() implies (
                #[trigger] rest[j]).modifiers.len() == 0 by {
                    assert(formats[j + 1].modifiers.len() == 0);
                }
            }
        } else {
            assert(formats[0].modifiers.len() != 0);
        }
    }
}

/// A search starts with nothing tried. Its layout is the one asked for, whether or not it is
/// offered, or else the first one of the first offered format that has any. It is refused where
/// there is no device, and where no layout is asked for and none is offered, for just these
/// reasons.
pub proof fn law_searches_start_with_a_layout(
    probe: CaptureProbe,
    fourcc: Option<u32>,
    modifier: Option<u64>,
    search: Result<DmabufSearch, BufferError>,
    i: int,
)
    requires
        call_ensures(DmabufSearch::start, (&probe, fourcc, modifier), search),
    ensures
        search == Err::<DmabufSearch, BufferError>(BufferError::NoDevice)
            <==> !probe.has_dmabuf_device,
        search == Err::<DmabufSearch, BufferError>(BufferError::NoModifiers)
            <==> probe.has_dmabuf_device && modifier is None && forall|j: int|
            0 <= j < probe.dmabuf_formats@.len() ==> (
            #[trigger] probe.dmabuf_formats@[j]).modifiers@.len() == 0,
        search matches Err(error) ==> error is NoDevice || error is NoModifiers,
        search matches Ok(s) ==> s.tried == 0 && s.last_error is None,
        search matches Ok(s) ==> (modifier matches Some(m) ==> s.modifier == m),
        search matches Ok(s) ==> (modifier is None && 0 <= i < probe.dmabuf_formats@.len()
            && probe.dmabuf_formats@[i].modifiers@.len() > 0 && (forall|j: int|
            0 <= j < i ==> (#[trigger] probe.dmabuf_formats@[j]).modifiers@.len() == 0)
            ==> s.modifier == probe.dmabuf_formats@[i].modifiers@[0]),
{
    let views = probe@.dmabuf_formats;
    assert(views.len() == probe.dmabuf_formats@.len());
    assert forall|k: int| 0 <= k < views.len() implies #[trigger] views[k]
        == probe.dmabuf_formats@[k]@ by {}
    lemma_first_modifier(views, i);
    if forall|j: int|
        0 <= j < probe.dmabuf_formats@.len() ==> (
        #[trigger] probe.dmabuf_formats@[j]).modifiers@.len() == 0 {
        assert forall|j: int| 0 <= j < views.len() implies (
        #[trigger] views[j]).modifiers.len() == 0 by {
            assert(probe.dmabuf_formats@[j].modifiers@.len() == 0);
        }
    }
    if forall|j: int| 0 <= j < views.len() ==> (#[trigger] views[j]).modifiers.len() == 0 {
        assert forall|j: int| 0 <= j < probe.dmabuf_formats@.len() implies (
        #[trigger] probe.dmabuf_formats@[j]).modifiers@.len() == 0 by {
            assert(views[j].modifiers.len() == 0);
        }
    }
    if 0 <= i < probe.dmabuf_formats@.len() && (forall|j: int|
        0 <= j < i ==> (#[trigger] probe.dmabuf_formats@[j]).modifiers@.len() == 0) {
        assert forall|j: int| 0 <= j < i implies (#[trigger] views[j]).modifiers.len() == 0 by {
            assert(probe.dmabuf_formats@[j].modifiers@.len() == 0);
        }
        assert(views[i].modifiers == probe.dmabuf_formats@[i].modifiers@);
    }
    if let Ok(s) = search {
        assert(s@.tried == s.tried);
    }
}

proof fn lemma_filter_places(
    formats: Seq<DmabufFormatView>,
    wanted: spec_fn(DmabufFormatView) -> bool,
) -> (places: Seq<int>)
    ensures
        are_places(places, formats.len() as int),
        places.len() == formats.filter(wanted).len(),
        forall|j: int|
            0 <= j < places.len() ==> formats.filter(wanted)[j] == formats[#[trigger] places[j]],
        forall|i: int|
            0 <= i < formats.len() && wanted(#[trigger] formats[i]) ==> places.contains(i),
    decreases formats.len(),
{
    reveal(Seq::filter);
    if formats.len() == 0 {
        Seq::empty()
    } else {
        let init = lemma_filter_places(formats.drop_last(), wanted);
        let last = formats.len() - 1;
        let places = if wanted(formats.last()) {
            init.push(last)
        } else {
            init
        };
        assert forall|i: int| 0 <= i < formats.len() && wanted(
            #[trigger] formats[i],
        ) implies places.contains(i) by {
            if i < last {
                assert(formats.drop_last()[i] == formats[i]);
                let j = choose|j: int| 0 <= j < init.len() && init[j] == i;
                assert(places[j] == i);
            } else {
                assert(places[init.len() as int] == last);
            }
        }
        places
    }
}

proof fn lemma_distinct_places(formats: Seq<DmabufFormatView>, modifier: u64) -> (places: Seq<int>)
    ensures
        are_places(places, formats.len() as int),
        places.len() == distinct_with_modifier(formats, modifier).len(),
        forall|j: int|
            0 <= j < places.len() ==> distinct_with_modifier(formats, modifier)[j]
                == formats[#[trigger] places[j]],
        forall|i: int|
            0 <= i < formats.len() ==> (places.contains(i) <==> (
            #[trigger] formats[i]).modifiers.contains(modifier) && forall|k: int|
                0 <= k < i ==> #[trigger] formats[k] != formats[i]),
    decreases formats.len(),
{
    if formats.len() == 0 {
        Seq::empty()
    } else {
        let rest = formats.drop_last();
        let kept = distinct_with_modifier(rest, modifier);
        let init = lemma_distinct_places(rest, modifier);
        let last = formats.len() - 1;
        lemma_distinct_members(rest, modifier);
        let places = if formats.last().modifiers.contains(modifier) && !kept.contains(
            formats.last(),
        ) {
            init.push(last)
        } else {
            init
        };
        assert forall|i: int| 0 <= i < formats.len() implies (places.contains(i) <==> (
        #[trigger] formats[i]).modifiers.contains(modifier) && forall|k: int|
            0 <= k < i ==> #[trigger] formats[k] != formats[i]) by {
            if i < last {
                assert(rest[i] == formats[i]);
                assert forall|k: int| 0 <= k < i implies #[trigger] rest[k] == formats[k] by {}
                if places.contains(i) {
                    let j = choose|j: int| 0 <= j < places.len() && places[j] == i;
                    assert(init[j] == i);
                    assert forall|k: int| 0 <= k < i implies #[trigger] formats[k]
                        != formats[i] by {
                        assert(rest[k] != rest[i]);
                    }
                }
                if formats[i].modifiers.contains(modifier) && forall|k: int|
                    0 <= k < i ==> #[trigger] formats[k] != formats[i] {
                    assert forall|k: int| 0 <= k < i implies #[trigger] rest[k] != rest[i] by {
                        assert(formats[k] != formats[i]);
                    }
                    let j = choose|j: int| 0 <= j < init.len() && init[j] == i;
                    assert(places[j] == i);
                }
            } else {
                if places.contains(i) {
                    let j = choose|j: int| 0 <= j < places.len() && places[j] == i;
                    assert(j == init.len());
                    assert forall|k: int| 0 <= k < i implies #[trigger] formats[k]
                        != formats[i] by {
                        assert(rest[k] == formats[k]);
                        if formats[k] == formats[i] {
                            assert(rest.contains(formats[i]));
                        }
                    }
                }
                if formats[i].modifiers.contains(modifier) && forall|k: int|
                    0 <= k < i ==> #[trigger] formats[k] != formats[i] {
                    if kept.contains(formats[i]) {
                        assert(rest.contains(formats[i]));
                        let k = choose|k: int| 0 <= k < rest.len() && rest[k] == formats[i];
                        assert(formats[k] == formats[i]);
                    }
                    assert(places[init.len() as int] == last);
                }
            }
        }
        places
    }
}

/// Whether an offered format has a layout and the code that is asked for. Without one, a format
/// that was offered before already does not qualify again.
pub open spec fn qualifies(
    formats: Seq<DmabufFormat>,
    i: int,
    fourcc: Option<u32>,
    modifier: u64,
) -> bool {
    &&& formats[i].modifiers@.contains(modifier)
    &&& fourcc matches Some(code) ==> formats[i].fourcc == code
    &&& fourcc is None ==> forall|k: int|
        0 <= k < i ==> !same_format(#[trigger] formats[k], formats[i])
}

/// The formats that a search tries are the offered ones that qualify, every one of them, in the
/// order of the offer.
pub proof fn law_searches_try_what_qualifies(
    probe: CaptureProbe,
    fourcc: Option<u32>,
    modifier: Option<u64>,
    search: DmabufSearch,
) -> (places: Seq<int>)
    requires
        call_ensures(
            DmabufSearch::start,
            (&probe, fourcc, modifier),
            Ok::<DmabufSearch, BufferError>(search),
        ),
    ensures
        are_places(places, probe.dmabuf_formats@.len() as int),
        places.len() == search.candidates@.len(),
        forall|j: int|
            0 <= j < places.len() ==> same_format(
                search.candidates@[j],
                probe.dmabuf_formats@[#[trigger] places[j]],
            ),
        forall|i: int|
            0 <= i < probe.dmabuf_formats@.len() ==> (#[trigger] places.contains(i) <==> qualifies(
                probe.dmabuf_formats@,
                i,
                fourcc,
                search.modifier,
            )),
{
    let views = probe@.dmabuf_formats;
    let tried = search@.candidates;
    let layout = search.modifier;
    assert(views.len() == probe.dmabuf_formats@.len());
    assert(tried.len() == search.candidates@.len());
    assert forall|k: int| 0 <= k < views.len() implies #[trigger] views[k]
        == probe.dmabuf_formats@[k]@ by {}
    assert forall|k: int| 0 <= k < tried.len() implies #[trigger] tried[k]
        == search.candidates@[k]@ by {}
    let places = match fourcc {
        Some(code) => {
            let wanted = |f: DmabufFormatView| f.fourcc == code && f.modifiers.contains(layout);
            let places = lemma_filter_places(views, wanted);
            lemma_filter_members(views, wanted);
            assert forall|i: int| 0 <= i < views.len() && #[trigger] places.contains(
                i,
            ) implies wanted(views[i]) by {
                let j = choose|j: int| 0 <= j < places.len() && places[j] == i;
                assert(views.filter(wanted)[j] == views[places[j]]);
                assert(views.filter(wanted).contains(views[i]));
            }
            places
        },
        None => lemma_distinct_places(views, layout),
    };
    assert forall|j: int| 0 <= j < places.len() implies same_format(
        search.candidates@[j],
        probe.dmabuf_formats@[#[trigger] places[j]],
    ) by {
        assert(tried[j] == views[places[j]]);
    }
    assert forall|i: int| 0 <= i < probe.dmabuf_formats@.len() implies (#[trigger] places.contains(
        i,
    ) <==> qualifies(probe.dmabuf_formats@, i, fourcc, layout)) by {
        assert(views[i] == probe.dmabuf_formats@[i]@);
        assert forall|k: int| 0 <= k < i implies (same_format(
            #[trigger] probe.dmabuf_formats@[k],
            probe.dmabuf_formats@[i],
        ) <==> views[k] == views[i]) by {
            assert(views[k] == probe.dmabuf_formats@[k]@);
        }
        if fourcc is None && qualifies(probe.dmabuf_formats@, i, fourcc, layout) {
            assert forall|k: int| 0 <= k < i implies #[trigger] views[k] != views[i] by {
                assert(!same_format(probe.dmabuf_formats@[k], probe.dmabuf_formats@[i]));
            }
        }
        if fourcc is None && places.contains(i) {
            assert forall|k: int| 0 <= k < i implies !same_format(
                #[trigger] probe.dmabuf_formats@[k],
                probe.dmabuf_formats@[i],
            ) by {
                assert(views[k] != views[i]);
            }
        }
    }
    places
}

/// A search tries one format after the other. Once all were tried, it gives up with the words of
/// the last failure, or with its own where nothing failed because nothing was tried.
pub proof fn law_searches_go_on_in_order(search: &mut DmabufSearch, attempt: Attempt)
    requires
        call_ensures(DmabufSearch::next, (search,), attempt),
        old(search).tried <= old(search).candidates@.len(),
    ensures
        final(search).modifier == old(search).modifier,
        final(search).candidates@.len() == old(search).candidates@.len(),
        forall|i: int|
            0 <= i < old(search).candidates@.len() ==> same_format(
                #[trigger] final(search).candidates@[i],
                old(search).candidates@[i],
            ),
        old(search).tried < old(search).candidates@.len() ==> (attempt matches Attempt::Try(format)
            && same_format(format, old(search).candidates@[old(search).tried as int])),
        old(search).tried < old(search).candidates@.len() ==> final(search).tried
            == old(search).tried + 1,
        old(search).tried == old(search).candidates@.len() ==> final(search).tried
            == old(search).tried,
        old(search).tried == old(search).candidates@.len() ==> (
        attempt matches Attempt::GiveUp(text) && (old(search).last_error matches Some(error)
            ==> text@ == error@) && (old(search).last_error is None ==> text@
            == "no DMA-BUF formats were advertised"@)),
        final(search).last_error is None <==> old(search).last_error is None,
        old(search).last_error matches Some(error) ==> (final(search).last_error matches Some(kept)
            && kept@ == error@),
{
    lemma_same_candidates(*old(search), *final(search));
    assert(old(search)@.candidates.len() == old(search).candidates@.len());
    if old(search).tried < old(search).candidates@.len() {
        let next = old(search).tried as int;
        assert(old(search)@.candidates[next] == old(search).candidates@[next]@);
    }
}

proof fn lemma_same_candidates(a: DmabufSearch, b: DmabufSearch)
    requires
        a@.candidates == b@.candidates,
    ensures
        a.candidates@.len() == b.candidates@.len(),
        forall|i: int|
            0 <= i < a.candidates@.len() ==> same_format(
                #[trigger] b.candidates@[i],
                a.candidates@[i],
            ),
{
    assert(a@.candidates.len() == a.candidates@.len());
    assert(b@.candidates.len() == b.candidates@.len());
    assert forall|i: int| 0 <= i < a.candidates@.len() implies same_format(
        #[trigger] b.candidates@[i],
        a.candidates@[i],
    ) by {
        assert(a@.candidates[i] == a.candidates@[i]@);
        assert(b@.candidates[i] == b.candidates@[i]@);
    }
}

/// A search remembers the last failure, and nothing else of it changes.
pub proof fn law_searches_remember_failures(search: &mut DmabufSearch, error: String)
    requires
        call_ensures(DmabufSearch::failed, (search, error), ()),
    ensures
        final(search).last_error matches Some(text) && text@ == error@,
        final(search).modifier == old(search).modifier,
        final(search).tried == old(search).tried,
        final(search).candidates@.len() == old(search).candidates@.len(),
        forall|i: int|
            0 <= i < old(search).candidates@.len() ==> same_format(
                #[trigger] final(search).candidates@[i],
                old(search).candidates@[i],
            ),
{
    lemma_same_candidates(*old(search), *final(search));
}

/// A pool of shared memory holds one buffer of the chosen format. There is none without a format,
/// and none where its bytes are more than the protocol can say.
pub proof fn law_pools_hold_one_buffer(
    formats: &[ShmFormat],
    preferred: Option<PixelFormat>,
    chosen: Option<ShmFormat>,
    layout: Result<PoolLayout, BufferError>,
)
    requires
        call_ensures(choose_shm_format, (formats, preferred), chosen),
        call_ensures(create_shm_buffer, (formats, preferred), layout),
    ensures
        chosen is None <==> layout == Err::<PoolLayout, BufferError>(BufferError::NoShmFormat),
        layout matches Err(error) ==> error is NoShmFormat || error is PoolTooLarge,
        chosen matches Some(f) ==> (f.stride * f.size.height > 0x7fff_ffff <==> layout == Err::<
            PoolLayout,
            BufferError,
        >(BufferError::PoolTooLarge)),
        layout matches Ok(pool) ==> {
            &&& chosen == Some(pool.format)
            &&& pool.pool_size == pool.format.stride * pool.format.size.height
            &&& pool.width == pool.format.size.width as i32
            &&& pool.height == pool.format.size.height as i32
            &&& pool.stride == pool.format.stride as i32
        },
{
    if let Ok(pool) = layout {
        let f = pool.format;
        assert(0 <= f.stride * f.size.height) by (nonlinear_arith)
            requires
                f.stride >= 0,
                f.size.height >= 0,
        ;
    }
}

/// The allocator is asked for a buffer of the size and the code of the format, with the layout. The
/// layout that stands for none is left to the allocator. A code that it does not know is told.
pub proof fn law_allocations_are_of_the_format(
    format: DmabufFormat,
    modifier: u64,
    known: bool,
    planned: Result<Allocation, BufferError>,
    requested: Result<Allocation, BufferError>,
)
    requires
        call_ensures(plan_allocation, (&format, modifier, known), planned),
        call_ensures(request_allocation, (&format, modifier), requested),
    ensures
        !known <==> planned is Err,
        planned matches Err(error) ==> error == BufferError::UnknownFourcc(format.fourcc),
        planned matches Ok(request) ==> {
            &&& request.width == format.size.width
            &&& request.height == format.size.height
            &&& request.fourcc == format.fourcc
            &&& modifier == 0xff_ffff_ffff_ffff ==> request.modifier is None
            &&& modifier != 0xff_ffff_ffff_ffff ==> request.modifier == Some(modifier)
        },
        known == allocator_knows(format.fourcc) ==> requested == planned,
{
}

/// What the allocator brought is taken where it has the layout and the code that were asked for.
/// What differs is told, the layout before the code.
pub proof fn law_allocations_are_compared(
    format: DmabufFormat,
    modifier: u64,
    actual_modifier: u64,
    actual_fourcc: u32,
    checked: Result<(), BufferError>,
)
    requires
        call_ensures(
            check_allocation,
            (&format, modifier, actual_modifier, actual_fourcc),
            checked,
        ),
    ensures
        checked is Ok <==> actual_modifier == modifier && actual_fourcc == format.fourcc,
        actual_modifier != modifier ==> checked == Err::<(), BufferError>(
            BufferError::WrongModifier { actual: actual_modifier, expected: modifier },
        ),
        actual_modifier == modifier && actual_fourcc != format.fourcc ==> checked == Err::<
            (),
            BufferError,
        >(BufferError::WrongFourcc { actual: actual_fourcc, expected: format.fourcc }),
{
}

/// The compositor is told of every plane, in order and by its number, with its own offset and
/// stride and with the layout of the buffer, and of the size and the code of the format.
pub proof fn law_planes_are_submitted(
    format: DmabufFormat,
    modifier: u64,
    planes: Vec<Plane>,
    submission: Submission,
    i: int,
)
    requires
        call_ensures(submit_planes, (&format, modifier, &planes), submission),
        planes@.len() <= u32::MAX,
    ensures
        submission.planes@.len() == planes@.len(),
        0 <= i < planes@.len() ==> {
            &&& submission.planes@[i].plane == i
            &&& submission.planes@[i].offset == planes@[i].offset
            &&& submission.planes@[i].stride == planes@[i].stride
            &&& submission.planes@[i].modifier_high * 0x1_0000_0000
                + submission.planes@[i].modifier_low == modifier
        },
        submission.fourcc == format.fourcc,
        submission.width == format.size.width as i32,
        submission.height == format.size.height as i32,
{
}

/// Without an answer there is no outcome. A buffer that was made has the format and the layout that
/// were asked for, and one that was not is told by its code, size and layout.
pub proof fn law_answers_become_buffers(
    format: DmabufFormat,
    modifier: u64,
    answer: Option<BufferCreateState>,
    outcome: Option<Result<DirectCaptureBuffer, BufferError>>,
)
    requires
        call_ensures(finish_buffer, (format, modifier, answer), outcome),
    ensures
        answer is None <==> outcome is None,
        answer == Some(BufferCreateState::Created) ==> (outcome matches Some(Ok(buffer)) && (
        buffer matches DirectCaptureBuffer::Dmabuf { format: made, modifier: layout }
            && same_format(made, format) && layout == modifier)),
        answer == Some(BufferCreateState::Failed) ==> (outcome matches Some(Err(error)) && error
            == BufferError::Rejected { fourcc: format.fourcc, size: format.size, modifier }),
{
}

/// There are words for every failure but for an unknown code whose bytes are one character of four
/// bytes.
pub proof fn law_failures_that_have_words(
    error: BufferError,
    can: bool,
    b0: u8,
    b1: u8,
    b2: u8,
    b3: u8,
)
    requires
        call_ensures(BufferError::can_say, (&error,), can),
        error matches BufferError::UnknownFourcc(code) ==> code == b0 + 0x100 * b1 + 0x1_0000 * b2
            + 0x100_0000 * b3,
    ensures
        !(error is UnknownFourcc) ==> can,
        error is UnknownFourcc ==> (can <==> !({
            &&& 0xf0 <= b0 <= 0xf4
            &&& 0x80 <= b1 <= 0xbf
            &&& b0 == 0xf0 ==> 0x90 <= b1
            &&& b0 == 0xf4 ==> b1 <= 0x8f
            &&& 0x80 <= b2 <= 0xbf
            &&& 0x80 <= b3 <= 0xbf
        })),
{
    if let BufferError::UnknownFourcc(code) = error {
        lemma_code_bytes(code, b0, b1, b2, b3);
        let bytes = code_bytes(code);
        assert(bytes[0] == b0 && bytes[1] == b1 && bytes[2] == b2 && bytes[3] == b3);
    }
}

proof fn lemma_code_bytes(code: u32, b0: u8, b1: u8, b2: u8, b3: u8)
    requires
        code == b0 + 0x100 * b1 + 0x1_0000 * b2 + 0x100_0000 * b3,
    ensures
        code_bytes(code) == seq![b0, b1, b2, b3],
{
    let rest3 = b3 as int;
    let rest2 = b2 + 0x100 * rest3;
    let rest1 = b1 + 0x100 * rest2;
    let whole = code as int;
    assert(whole == b0 + 0x100 * rest1);
    assert(whole / 0x100 == rest1 && whole % 0x100 == b0);
    assert(rest1 / 0x100 == rest2 && rest1 % 0x100 == b1);
    assert(rest2 / 0x100 == rest3 && rest2 % 0x100 == b2);
    assert(whole / 0x1_0000 == rest2);
    assert(whole / 0x100_0000 == rest3);
}

/// The words for an unknown code hold its number, and in front of it its four letters where the
/// first two are plain and the rest is text. A zero stands for a space among them.
pub proof fn law_unknown_codes_are_spelled(code: u32, b0: u8, b1: u8, b2: u8, b3: u8)
    requires
        code == b0 + 0x100 * b1 + 0x1_0000 * b2 + 0x100_0000 * b3,
    ensures
        ({
            let plain = |b: u8|
                'a' <= b as char && b as char <= 'z' || 'A' <= b as char && b as char <= 'Z' || '0'
                    <= b as char && b as char <= '9';
            let space = |b: u8|
                if b == 0 {
                    ' ' as u8
                } else {
                    b
                };
            let number = decimal(code as nat) + ")"@;
            if plain(b0) && plain(b1) && valid_utf8(seq![b2, b3]) {
                unknown_words(code) == "UnrecognizedFourcc("@ + (seq![b0 as char, b1 as char]
                    + decode_utf8(seq![space(b2), space(b3)]) + ", "@) + number
            } else {
                unknown_words(code) == "UnrecognizedFourcc("@ + number
            }
        }),
{
    lemma_code_bytes(code, b0, b1, b2, b3);
    assert(seq![b0, b1, b2, b3].skip(2) == seq![b2, b3]);
    assert("UnrecognizedFourcc("@ + Seq::<char>::empty() == "UnrecognizedFourcc("@);
}

/// The words for why no buffer was made.
pub proof fn law_buffer_errors_are_told_apart(error: BufferError, text: String)
    requires
        call_ensures(BufferError::message, (&error,), text),
    ensures
        error is NoDevice ==> text@ == "compositor did not provide a DMA-BUF device"@,
        error is NoModifiers ==> text@ == "no DMA-BUF modifiers were advertised"@,
        error is NoShmFormat ==> text@ == "no compatible SHM format was advertised"@,
        error is PoolTooLarge ==> text@ == "out of range integral type conversion attempted"@,
        error matches BufferError::UnknownFourcc(code) ==> text@ == unknown_words(code),
        error matches BufferError::WrongModifier { actual, expected } ==> text@
            == "GBM returned modifier 0x"@ + hexadecimal(actual as nat, 16) + ", expected 0x"@
            + hexadecimal(expected as nat, 16),
        error matches BufferError::WrongFourcc { actual, expected } ==> text@
            == "GBM returned fourcc=0x"@ + hexadecimal(actual as nat, 8) + ", expected 0x"@
            + hexadecimal(expected as nat, 8),
        error matches BufferError::Rejected { fourcc, size, modifier } ==> text@
            == "compositor rejected DMA-BUF buffer for fourcc=0x"@ + hexadecimal(fourcc as nat, 8)
            + ", size="@ + decimal(size.width as nat) + "x"@ + decimal(size.height as nat)
            + ", modifier=0x"@ + hexadecimal(modifier as nat, 16),
{
}

} // verus!
