//! Parameters of a video stream: which formats it offers, which one was settled on, and what
//! buffers it needs. They are plain objects here; the media server has its own encoding for them.

use vstd::prelude::*;

use crate::formats::VideoFormat;
use crate::geometry::Size;
use crate::search::{first_index, first_of, lemma_first_index, lemma_is_first_index};

verus! {

/// The number that the media server gives to memory behind a file descriptor.
pub const SPA_DATA_MEM_FD: u32 = 2;

/// The number that the media server gives to DMA-BUFs.
pub const SPA_DATA_DMA_BUF: u32 = 3;

/// What a property of a parameter is about.
#[derive(Debug, Clone, Copy, PartialEq, Eq, Structural)]
pub enum PodKey {
    BuffersDataType,
    BuffersAlign,
    BuffersBlocks,
    BuffersBuffers,
    BuffersSize,
    BuffersStride,
    MediaType,
    MediaSubtype,
    VideoSize,
    VideoFramerate,
    VideoMaxFramerate,
    VideoFormat,
    VideoModifier,
    Other(u32),
}

/// How a property takes part in a negotiation.
#[derive(Debug, Clone, Copy, PartialEq, Eq, Structural)]
pub struct PropertyFlags {
    /// Both sides must know the property.
    pub mandatory: bool,
    /// The other side must not settle on a value by itself.
    pub dont_fixate: bool,
}

/// A rate in frames per second.
#[derive(Debug, Clone, Copy, PartialEq, Eq, Structural)]
pub struct Fraction {
    pub num: u32,
    pub denom: u32,
}

/// The value of a property, or the values to choose from.
#[allow(inconsistent_fields)]
#[derive(Debug)]
pub enum PodValue {
    MediaVideo,
    MediaRaw,
    Format(VideoFormat),
    Int(i32),
    Long(i64),
    Rectangle(Size),
    Fraction(Fraction),
    IntFlags { default: i32, flags: Vec<i32> },
    IntRange { default: i32, min: i32, max: i32 },
    RectangleRange { default: Size, min: Size, max: Size },
    FractionRange { default: Fraction, min: Fraction, max: Fraction },
    LongEnum { default: i64, alternatives: Vec<i64> },
}

/// What a value is.
#[allow(inconsistent_fields)]
pub enum PodValueView {
    MediaVideo,
    MediaRaw,
    Format(VideoFormat),
    Int(i32),
    Long(i64),
    Rectangle(Size),
    Fraction(Fraction),
    IntFlags { default: i32, flags: Seq<i32> },
    IntRange { default: i32, min: i32, max: i32 },
    RectangleRange { default: Size, min: Size, max: Size },
    FractionRange { default: Fraction, min: Fraction, max: Fraction },
    LongEnum { default: i64, alternatives: Seq<i64> },
}

impl View for PodValue {
    type V = PodValueView;

    open spec fn view(&self) -> PodValueView {
        match self {
            PodValue::MediaVideo => PodValueView::MediaVideo,
            PodValue::MediaRaw => PodValueView::MediaRaw,
            PodValue::Format(format) => PodValueView::Format(*format),
            PodValue::Int(value) => PodValueView::Int(*value),
            PodValue::Long(value) => PodValueView::Long(*value),
            PodValue::Rectangle(size) => PodValueView::Rectangle(*size),
            PodValue::Fraction(fraction) => PodValueView::Fraction(*fraction),
            PodValue::IntFlags { default, flags } => PodValueView::IntFlags {
                default: *default,
                flags: flags@,
            },
            PodValue::IntRange { default, min, max } => PodValueView::IntRange {
                default: *default,
                min: *min,
                max: *max,
            },
            PodValue::RectangleRange { default, min, max } => PodValueView::RectangleRange {
                default: *default,
                min: *min,
                max: *max,
            },
            PodValue::FractionRange { default, min, max } => PodValueView::FractionRange {
                default: *default,
                min: *min,
                max: *max,
            },
            PodValue::LongEnum { default, alternatives } => PodValueView::LongEnum {
                default: *default,
                alternatives: alternatives@,
            },
        }
    }
}

/// A property of a parameter.
#[derive(Debug)]
pub struct PodProperty {
    pub key: PodKey,
    pub flags: PropertyFlags,
    pub value: PodValue,
}

/// What a property says.
pub struct PropertyView {
    pub key: PodKey,
    pub flags: PropertyFlags,
    pub value: PodValueView,
}

impl View for PodProperty {
    type V = PropertyView;

    open spec fn view(&self) -> PropertyView {
        PropertyView { key: self.key, flags: self.flags, value: self.value@ }
    }
}

/// The kinds of parameters.
#[derive(Debug, Clone, Copy, PartialEq, Eq, Structural)]
pub enum PodKind {
    /// A video format that a stream offers.
    FormatOffer,
    /// The buffers that a stream needs.
    Buffers,
}

/// A parameter of a stream.
#[derive(Debug)]
pub struct PodObject {
    pub kind: PodKind,
    pub properties: Vec<PodProperty>,
}

/// What a parameter says.
#[verifier::ext_equal]
pub struct PodView {
    pub kind: PodKind,
    pub properties: Seq<PropertyView>,
}

impl View for PodObject {
    type V = PodView;

    open spec fn view(&self) -> PodView {
        PodView { kind: self.kind, properties: self.properties@.map_values(|p: PodProperty| p@) }
    }
}

/// A property that takes part in a negotiation like any other.
pub open spec fn plain(key: PodKey, value: PodValueView) -> PropertyView {
    PropertyView { key, flags: PropertyFlags { mandatory: false, dont_fixate: false }, value }
}

/// The bit of the kind of memory that buffers are made of.
pub open spec fn data_type_bit(use_dmabuf: bool) -> i32 {
    if use_dmabuf {
        8
    } else {
        4
    }
}

/// Whether the bytes of a frame, and of a row, can be counted in the integers of a parameter.
pub open spec fn countable(width: u32, height: u32) -> bool {
    &&& i32::MIN <= (width as i32) * (height as i32) <= i32::MAX
    &&& i32::MIN <= (width as i32) * (height as i32) * 4 <= i32::MAX
    &&& i32::MIN <= (width as i32) * 4 <= i32::MAX
}

/// Whether the bytes of a frame, and of a row, can be counted in the integers of a parameter.
pub fn is_countable(width: u32, height: u32) -> (fits: bool)
    ensures
        fits == countable(width, height),
{
    let columns: i32 = width as i32;
    let rows: i32 = height as i32;
    match columns.checked_mul(rows) {
        Some(pixels) => pixels.checked_mul(4).is_some() && columns.checked_mul(4).is_some(),
        None => false,
    }
}

/// The buffers that a stream needs: four bytes for each pixel, one to thirty-two buffers.
pub open spec fn buffers_needed(width: u32, height: u32, blocks: u32, use_dmabuf: bool) -> PodView {
    PodView {
        kind: PodKind::Buffers,
        properties: seq![
            plain(
                PodKey::BuffersDataType,
                PodValueView::IntFlags {
                    default: data_type_bit(use_dmabuf),
                    flags: seq![data_type_bit(use_dmabuf)],
                },
            ),
            plain(PodKey::BuffersAlign, PodValueView::Int(16)),
            plain(PodKey::BuffersBlocks, PodValueView::Int(blocks as i32)),
            plain(
                PodKey::BuffersBuffers,
                PodValueView::IntRange { default: 4, min: 1, max: 32 },
            ),
            plain(
                PodKey::BuffersSize,
                PodValueView::Int(((width as i32) * (height as i32) * 4) as i32),
            ),
            plain(PodKey::BuffersStride, PodValueView::Int(((width as i32) * 4) as i32)),
        ],
    }
}

/// The limit of the frame rate. Zero means that there is none.
pub open spec fn rate_limit(max_fps: u32) -> Seq<PropertyView> {
    if max_fps > 0 {
        seq![
            plain(
                PodKey::VideoMaxFramerate,
                PodValueView::FractionRange {
                    default: Fraction { num: max_fps, denom: 1 },
                    min: Fraction { num: 1, denom: 1 },
                    max: Fraction { num: max_fps, denom: 1 },
                },
            ),
        ]
    } else {
        Seq::empty()
    }
}

/// The layouts to choose from. The choice is left open, and the first is the default.
pub open spec fn layout_choice(modifiers: Seq<u64>) -> Seq<PropertyView> {
    if modifiers.len() > 0 {
        seq![
            PropertyView {
                key: PodKey::VideoModifier,
                flags: PropertyFlags { mandatory: true, dont_fixate: true },
                value: PodValueView::LongEnum {
                    default: modifiers[0] as i64,
                    alternatives: modifiers.map_values(|m: u64| m as i64),
                },
            },
        ]
    } else {
        Seq::empty()
    }
}

/// A format that a stream offers: one size, any rate up to the limit, and the layouts to choose
/// from.
pub open spec fn format_offer(
    size: Size,
    format: VideoFormat,
    modifiers: Seq<u64>,
    max_fps: u32,
) -> PodView {
    PodView {
        kind: PodKind::FormatOffer,
        properties: seq![
            plain(PodKey::MediaType, PodValueView::MediaVideo),
            plain(PodKey::MediaSubtype, PodValueView::MediaRaw),
            plain(
                PodKey::VideoSize,
                PodValueView::RectangleRange { default: size, min: size, max: size },
            ),
            plain(PodKey::VideoFramerate, PodValueView::Fraction(Fraction { num: 0, denom: 1 })),
        ] + rate_limit(max_fps) + seq![plain(PodKey::VideoFormat, PodValueView::Format(format))]
            + layout_choice(modifiers),
    }
}

/// A format with the layout that was settled on.
pub open spec fn settled_format(
    size: Size,
    format: VideoFormat,
    modifier: u64,
    max_fps: u32,
) -> PodView {
    PodView {
        kind: PodKind::FormatOffer,
        properties: seq![
            plain(PodKey::MediaType, PodValueView::MediaVideo),
            plain(PodKey::MediaSubtype, PodValueView::MediaRaw),
            plain(PodKey::VideoSize, PodValueView::Rectangle(size)),
            plain(PodKey::VideoFramerate, PodValueView::Fraction(Fraction { num: 0, denom: 1 })),
            plain(PodKey::VideoFormat, PodValueView::Format(format)),
            PropertyView {
                key: PodKey::VideoModifier,
                flags: PropertyFlags { mandatory: true, dont_fixate: false },
                value: PodValueView::Long(modifier as i64),
            },
        ] + rate_limit(max_fps),
    }
}

fn plain_property(key: PodKey, value: PodValue) -> (property: PodProperty)
    ensures
        property@ == plain(key, value@),
{
    PodProperty { key, flags: PropertyFlags { mandatory: false, dont_fixate: false }, value }
}

fn rate_property(max_fps: u32) -> (property: PodProperty)
    requires
        max_fps > 0,
    ensures
        seq![property@] == rate_limit(max_fps),
{
    plain_property(
        PodKey::VideoMaxFramerate,
        PodValue::FractionRange {
            default: Fraction { num: max_fps, denom: 1 },
            min: Fraction { num: 1, denom: 1 },
            max: Fraction { num: max_fps, denom: 1 },
        },
    )
}

/// Appends a property and keeps track of what the list says.
fn add_property(properties: &mut Vec<PodProperty>, property: PodProperty)
    ensures
        final(properties)@.map_values(|p: PodProperty| p@) == old(properties)@.map_values(
            |p: PodProperty| p@,
        ).push(property@),
{
    properties.push(property);
    assert(properties@.map_values(|p: PodProperty| p@) == old(properties)@.map_values(
        |p: PodProperty| p@,
    ).push(property@));
}

fn no_properties() -> (properties: Vec<PodProperty>)
    ensures
        properties@.map_values(|p: PodProperty| p@) == Seq::<PropertyView>::empty(),
{
    let properties: Vec<PodProperty> = Vec::new();
    assert(properties@.map_values(|p: PodProperty| p@) == Seq::<PropertyView>::empty());
    properties
}

/// The buffers that a stream needs.
pub fn buffer_param(width: u32, height: u32, blocks: u32, use_dmabuf: bool) -> (param: PodObject)
    requires
        countable(width, height),
    ensures
        param@ == buffers_needed(width, height, blocks, use_dmabuf),
{
    assert(1i32 << SPA_DATA_DMA_BUF == 8) by (bit_vector);
    assert(1i32 << SPA_DATA_MEM_FD == 4) by (bit_vector);
    let data_type: i32 = if use_dmabuf {
        1i32 << SPA_DATA_DMA_BUF
    } else {
        1i32 << SPA_DATA_MEM_FD
    };
    let flags: Vec<i32> = vec![data_type];
    assert(flags@ == seq![data_type]);
    let mut properties: Vec<PodProperty> = no_properties();
    add_property(
        &mut properties,
        plain_property(PodKey::BuffersDataType, PodValue::IntFlags { default: data_type, flags }),
    );
    add_property(&mut properties, plain_property(PodKey::BuffersAlign, PodValue::Int(16)));
    add_property(
        &mut properties,
        plain_property(PodKey::BuffersBlocks, PodValue::Int(blocks as i32)),
    );
    add_property(
        &mut properties,
        plain_property(
            PodKey::BuffersBuffers,
            PodValue::IntRange { default: 4, min: 1, max: 32 },
        ),
    );
    add_property(
        &mut properties,
        plain_property(PodKey::BuffersSize, PodValue::Int(width as i32 * height as i32 * 4)),
    );
    add_property(
        &mut properties,
        plain_property(PodKey::BuffersStride, PodValue::Int(width as i32 * 4)),
    );
    let param = PodObject { kind: PodKind::Buffers, properties };
    assert(param@ == buffers_needed(width, height, blocks, use_dmabuf));
    param
}

/// A format that a stream offers.
pub fn format_param(
    width: u32,
    height: u32,
    video_format: VideoFormat,
    dmabuf_modifiers: &Vec<u64>,
    max_fps: u32,
) -> (param: PodObject)
    ensures
        param@ == format_offer(Size { width, height }, video_format, dmabuf_modifiers@, max_fps),
{
    let size = Size { width, height };
    let mut properties: Vec<PodProperty> = no_properties();
    add_property(&mut properties, plain_property(PodKey::MediaType, PodValue::MediaVideo));
    add_property(&mut properties, plain_property(PodKey::MediaSubtype, PodValue::MediaRaw));
    add_property(
        &mut properties,
        plain_property(
            PodKey::VideoSize,
            PodValue::RectangleRange { default: size, min: size, max: size },
        ),
    );
    add_property(
        &mut properties,
        plain_property(
            PodKey::VideoFramerate,
            PodValue::Fraction(Fraction { num: 0, denom: 1 }),
        ),
    );
    if max_fps > 0 {
        add_property(&mut properties, rate_property(max_fps));
    }
    add_property(
        &mut properties,
        plain_property(PodKey::VideoFormat, PodValue::Format(video_format)),
    );
    if dmabuf_modifiers.len() > 0 {
        let alternatives: Vec<i64> = as_longs(dmabuf_modifiers);
        add_property(
            &mut properties,
            PodProperty {
                key: PodKey::VideoModifier,
                flags: PropertyFlags { mandatory: true, dont_fixate: true },
                value: PodValue::LongEnum { default: dmabuf_modifiers[0] as i64, alternatives },
            },
        );
    }
    let param = PodObject { kind: PodKind::FormatOffer, properties };
    assert(param@ == format_offer(size, video_format, dmabuf_modifiers@, max_fps));
    param
}

fn as_longs(modifiers: &Vec<u64>) -> (longs: Vec<i64>)
    ensures
        longs@ == modifiers@.map_values(|m: u64| m as i64),
{
    let mut longs: Vec<i64> = Vec::new();
    let mut i: usize = 0;
    while i < modifiers.len()
        invariant
            i <= modifiers@.len(),
            longs@ == modifiers@.map_values(|m: u64| m as i64).take(i as int),
        decreases modifiers@.len() - i,
    {
        longs.push(modifiers[i] as i64);
        i += 1;
    }
    longs
}

/// A format with the layout that was settled on.
pub fn fixed_format_param(
    width: u32,
    height: u32,
    video_format: VideoFormat,
    modifier: u64,
    max_fps: u32,
) -> (param: PodObject)
    ensures
        param@ == settled_format(Size { width, height }, video_format, modifier, max_fps),
{
    let size = Size { width, height };
    let mut properties: Vec<PodProperty> = no_properties();
    add_property(&mut properties, plain_property(PodKey::MediaType, PodValue::MediaVideo));
    add_property(&mut properties, plain_property(PodKey::MediaSubtype, PodValue::MediaRaw));
    add_property(
        &mut properties,
        plain_property(PodKey::VideoSize, PodValue::Rectangle(size)),
    );
    add_property(
        &mut properties,
        plain_property(
            PodKey::VideoFramerate,
            PodValue::Fraction(Fraction { num: 0, denom: 1 }),
        ),
    );
    add_property(
        &mut properties,
        plain_property(PodKey::VideoFormat, PodValue::Format(video_format)),
    );
    add_property(
        &mut properties,
        PodProperty {
            key: PodKey::VideoModifier,
            flags: PropertyFlags { mandatory: true, dont_fixate: false },
            value: PodValue::Long(modifier as i64),
        },
    );
    if max_fps > 0 {
        add_property(&mut properties, rate_property(max_fps));
    }
    let param = PodObject { kind: PodKind::FormatOffer, properties };
    assert(param@ == settled_format(size, video_format, modifier, max_fps));
    param
}

/// The flags of the first property on the layout.
pub open spec fn modifier_flags(headers: Seq<(PodKey, PropertyFlags)>) -> Option<PropertyFlags> {
    match first_of(headers, |h: (PodKey, PropertyFlags)| h.0 == PodKey::VideoModifier) {
        Some(header) => Some(header.1),
        None => None,
    }
}

/// The keys and flags of the properties of a parameter.
pub open spec fn headers_of(properties: Seq<PropertyView>) -> Seq<(PodKey, PropertyFlags)> {
    properties.map_values(|p: PropertyView| (p.key, p.flags))
}

/// The flags of the property on the layout, given the keys and flags of all properties.
pub fn pod_modifier_flags(headers: &Vec<(PodKey, PropertyFlags)>) -> (flags: Option<PropertyFlags>)
    ensures
        flags == modifier_flags(headers@),
{
    let ghost wanted = |h: (PodKey, PropertyFlags)| h.0 == PodKey::VideoModifier;
    let mut i: usize = 0;
    while i < headers.len()
        invariant
            i <= headers@.len(),
            wanted == (|h: (PodKey, PropertyFlags)| h.0 == PodKey::VideoModifier),
            forall|j: int| 0 <= j < i ==> !wanted(#[trigger] headers@[j]),
        decreases headers@.len() - i,
    {
        if headers[i].0 == PodKey::VideoModifier {
            proof {
                lemma_is_first_index(headers@, wanted, i as int);
            }
            return Some(headers[i].1);
        }
        i += 1;
    }
    proof {
        lemma_is_first_index(headers@, wanted, i as int);
    }
    None
}

/// An offer leaves the choice of a layout open exactly where it has layouts; otherwise it does not
/// speak of layouts at all.
pub proof fn law_offers_leave_layout_open(
    size: Size,
    format: VideoFormat,
    modifiers: Seq<u64>,
    max_fps: u32,
)
    ensures
        modifier_flags(headers_of(format_offer(size, format, modifiers, max_fps).properties))
            == if modifiers.len() > 0 {
            Some(PropertyFlags { mandatory: true, dont_fixate: true })
        } else {
            None
        },
{
    let headers = headers_of(format_offer(size, format, modifiers, max_fps).properties);
    let wanted = |h: (PodKey, PropertyFlags)| h.0 == PodKey::VideoModifier;
    let k = (if max_fps > 0 {
        6int
    } else {
        5int
    });
    lemma_is_first_index(headers, wanted, k);
}

/// A settled format does not leave the choice of a layout open: settling a format once is enough.
pub proof fn law_settled_format_is_settled(
    size: Size,
    format: VideoFormat,
    modifier: u64,
    max_fps: u32,
)
    ensures
        modifier_flags(headers_of(settled_format(size, format, modifier, max_fps).properties))
            == Some(PropertyFlags { mandatory: true, dont_fixate: false }),
{
    let headers = headers_of(settled_format(size, format, modifier, max_fps).properties);
    let wanted = |h: (PodKey, PropertyFlags)| h.0 == PodKey::VideoModifier;
    lemma_is_first_index(headers, wanted, 5);
}

/// A layout survives the way into a signed number: no two layouts look the same.
pub proof fn law_layouts_stay_distinct(a: u64, b: u64)
    requires
        a as i64 == b as i64,
    ensures
        a == b,
{
    assert(a as i64 == b as i64 ==> a == b) by (bit_vector);
}

/// Whether a parameter has exactly one property of a key, with these flags and a fitting value.
pub open spec fn has_one(
    param: PodObject,
    key: PodKey,
    flags: PropertyFlags,
    fits: spec_fn(PodValue) -> bool,
) -> bool {
    exists|i: int|
        0 <= i < param.properties@.len() && (#[trigger] param.properties@[i]).key == key
            && param.properties@[i].flags == flags && fits(param.properties@[i].value)
            && forall|j: int|
            0 <= j < param.properties@.len() && (#[trigger] param.properties@[j]).key == key ==> j
                == i
}

/// Whether a parameter has no property of a key.
pub open spec fn has_none(param: PodObject, key: PodKey) -> bool {
    forall|j: int|
        0 <= j < param.properties@.len() ==> (#[trigger] param.properties@[j]).key != key
}

/// The keys of a parameter, in order.
pub open spec fn keys_of(param: PodObject) -> Seq<PodKey> {
    param.properties@.map_values(|p: PodProperty| p.key)
}

/// The flags of a property that takes part in a negotiation like any other.
pub open spec fn no_flags() -> PropertyFlags {
    PropertyFlags { mandatory: false, dont_fixate: false }
}

proof fn lemma_properties_shown(param: PodObject)
    ensures
        param@.kind == param.kind,
        param@.properties.len() == param.properties@.len(),
        forall|i: int|
            0 <= i < param.properties@.len() ==> #[trigger] param.properties@[i]@
                == param@.properties[i],
{
    assert forall|i: int| 0 <= i < param.properties@.len() implies #[trigger] param.properties@[i]@
        == param@.properties[i] by {}
}

proof fn lemma_has_one(param: PodObject, i: int, fits: spec_fn(PodValue) -> bool)
    requires
        0 <= i < param.properties@.len(),
        fits(param.properties@[i].value),
        forall|j: int|
            0 <= j < param@.properties.len() && j != i ==> (#[trigger] param@.properties[j]).key
                != param@.properties[i].key,
    ensures
        has_one(param, param.properties@[i].key, param.properties@[i].flags, fits),
{
    lemma_properties_shown(param);
    let key = param.properties@[i].key;
    assert(param.properties@[i]@ == param@.properties[i]);
    assert forall|j: int|
        0 <= j < param.properties@.len() && (#[trigger] param.properties@[j]).key
            == key implies j == i by {
        assert(param.properties@[j]@ == param@.properties[j]);
    }
}

proof fn lemma_has_none(param: PodObject, key: PodKey)
    requires
        forall|j: int|
            0 <= j < param@.properties.len() ==> (#[trigger] param@.properties[j]).key != key,
    ensures
        has_none(param, key),
{
    lemma_properties_shown(param);
    assert forall|j: int| 0 <= j < param.properties@.len() implies (
    #[trigger] param.properties@[j]).key != key by {
        assert(param.properties@[j]@ == param@.properties[j]);
    }
}

/// Whether a parameter is about raw video of a format.
pub open spec fn is_raw_video(param: PodObject, format: VideoFormat) -> bool {
    &&& param.kind == PodKind::FormatOffer
    &&& has_one(
        param,
        PodKey::VideoFormat,
        no_flags(),
        |v: PodValue| v matches PodValue::Format(f) && f == format,
    )
    &&& has_one(param, PodKey::MediaType, no_flags(), |v: PodValue| v is MediaVideo)
    &&& has_one(param, PodKey::MediaSubtype, no_flags(), |v: PodValue| v is MediaRaw)
}

/// Whether the rate in a parameter is variable, with a limit exactly where there is one: any rate
/// from one frame a second up to the limit, and the limit by default.
pub open spec fn has_rate(param: PodObject, max_fps: u32) -> bool {
    &&& has_one(
        param,
        PodKey::VideoFramerate,
        no_flags(),
        |v: PodValue| v matches PodValue::Fraction(rate) && rate.num == 0 && rate.denom == 1,
    )
    &&& max_fps == 0 ==> has_none(param, PodKey::VideoMaxFramerate)
    &&& max_fps > 0 ==> has_one(
        param,
        PodKey::VideoMaxFramerate,
        no_flags(),
        |v: PodValue|
            v matches PodValue::FractionRange { default, min, max } && default.num == max_fps
                && default.denom == 1 && min.num == 1 && min.denom == 1 && max == default,
    )
}

/// Whether a parameter offers one size: a range whose ends and default are the same.
pub open spec fn offers_size(param: PodObject, width: u32, height: u32) -> bool {
    has_one(
        param,
        PodKey::VideoSize,
        no_flags(),
        |v: PodValue|
            v matches PodValue::RectangleRange { default, min, max } && default.width == width
                && default.height == height && min == default && max == default,
    )
}

/// Whether a parameter has a size.
pub open spec fn fixes_size(param: PodObject, width: u32, height: u32) -> bool {
    has_one(
        param,
        PodKey::VideoSize,
        no_flags(),
        |v: PodValue|
            v matches PodValue::Rectangle(size) && size.width == width && size.height == height,
    )
}

/// Whether a parameter lists layouts in order, the first by default, and leaves the choice open.
/// Without layouts it says nothing of them.
pub open spec fn offers_layouts(param: PodObject, modifiers: Seq<u64>) -> bool {
    &&& modifiers.len() == 0 ==> has_none(param, PodKey::VideoModifier)
    &&& modifiers.len() > 0 ==> has_one(
        param,
        PodKey::VideoModifier,
        PropertyFlags { mandatory: true, dont_fixate: true },
        |v: PodValue|
            v matches PodValue::LongEnum { default, alternatives } && default
                == modifiers[0] as i64 && alternatives@.len() == modifiers.len() && forall|i: int|
                0 <= i < modifiers.len() ==> #[trigger] alternatives@[i] == modifiers[i] as i64,
    )
}

/// Whether a parameter has a layout, and leaves no choice.
pub open spec fn fixes_layout(param: PodObject, modifier: u64) -> bool {
    has_one(
        param,
        PodKey::VideoModifier,
        PropertyFlags { mandatory: true, dont_fixate: false },
        |v: PodValue| v matches PodValue::Long(layout) && layout == modifier as i64,
    )
}

/// Whether a parameter needs buffers that hold a frame of four bytes for each pixel without
/// padding, in so many blocks, of one kind of memory: four buffers by default, and one to
/// thirty-two.
pub open spec fn needs_buffers(
    param: PodObject,
    width: u32,
    height: u32,
    blocks: u32,
    use_dmabuf: bool,
) -> bool {
    &&& param.kind == PodKind::Buffers
    &&& keys_of(param) == seq![
        PodKey::BuffersDataType,
        PodKey::BuffersAlign,
        PodKey::BuffersBlocks,
        PodKey::BuffersBuffers,
        PodKey::BuffersSize,
        PodKey::BuffersStride,
    ]
    &&& has_one(
        param,
        PodKey::BuffersSize,
        no_flags(),
        |v: PodValue|
            v matches PodValue::Int(n) && n == (width as i32) * (height as i32) * 4,
    )
    &&& has_one(
        param,
        PodKey::BuffersStride,
        no_flags(),
        |v: PodValue| v matches PodValue::Int(n) && n == (width as i32) * 4,
    )
    &&& has_one(
        param,
        PodKey::BuffersBlocks,
        no_flags(),
        |v: PodValue| v matches PodValue::Int(n) && n == blocks as i32,
    )
    &&& has_one(
        param,
        PodKey::BuffersDataType,
        no_flags(),
        |v: PodValue|
            v matches PodValue::IntFlags { default, flags } && flags@ == seq![default] && default
                == if use_dmabuf {
                8i32
            } else {
                4i32
            },
    )
    &&& has_one(
        param,
        PodKey::BuffersBuffers,
        no_flags(),
        |v: PodValue|
            v matches PodValue::IntRange { default, min, max } && default == 4 && min == 1 && max
                == 32,
    )
    &&& has_one(
        param,
        PodKey::BuffersAlign,
        no_flags(),
        |v: PodValue| v matches PodValue::Int(n) && n == 16,
    )
}

pub(crate) proof fn lemma_offer(
    param: PodObject,
    size: Size,
    format: VideoFormat,
    modifiers: Seq<u64>,
    max_fps: u32,
)
    requires
        param@ == format_offer(size, format, modifiers, max_fps),
    ensures
        is_raw_video(param, format),
        has_rate(param, max_fps),
        offers_size(param, size.width, size.height),
        offers_layouts(param, modifiers),
        keys_of(param) == seq![
            PodKey::MediaType,
            PodKey::MediaSubtype,
            PodKey::VideoSize,
            PodKey::VideoFramerate,
        ] + (if max_fps > 0 {
            seq![PodKey::VideoMaxFramerate]
        } else {
            seq![]
        }) + seq![PodKey::VideoFormat] + (if modifiers.len() > 0 {
            seq![PodKey::VideoModifier]
        } else {
            seq![]
        }),
{
    lemma_properties_shown(param);
    let r = (if max_fps > 0 {
        1int
    } else {
        0int
    });
    assert(param.properties@[0]@ == param@.properties[0]);
    assert(param.properties@[1]@ == param@.properties[1]);
    assert(param.properties@[2]@ == param@.properties[2]);
    assert(param.properties@[3]@ == param@.properties[3]);
    assert(param.properties@[4 + r]@ == param@.properties[4 + r]);
    lemma_has_one(param, 0, |v: PodValue| v is MediaVideo);
    lemma_has_one(param, 1, |v: PodValue| v is MediaRaw);
    lemma_has_one(
        param,
        2,
        |v: PodValue|
            v matches PodValue::RectangleRange { default, min, max } && default.width == size.width
                && default.height == size.height && min == default && max == default,
    );
    lemma_has_one(
        param,
        3,
        |v: PodValue| v matches PodValue::Fraction(rate) && rate.num == 0 && rate.denom == 1,
    );
    lemma_has_one(param, 4 + r, |v: PodValue| v matches PodValue::Format(f) && f == format);
    if max_fps > 0 {
        assert(param.properties@[4]@ == param@.properties[4]);
        lemma_has_one(
            param,
            4,
            |v: PodValue|
                v matches PodValue::FractionRange { default, min, max } && default.num == max_fps
                    && default.denom == 1 && min.num == 1 && min.denom == 1 && max == default,
        );
    } else {
        lemma_has_none(param, PodKey::VideoMaxFramerate);
    }
    if modifiers.len() > 0 {
        assert(param.properties@[5 + r]@ == param@.properties[5 + r]);
        lemma_has_one(
            param,
            5 + r,
            |v: PodValue|
                v matches PodValue::LongEnum { default, alternatives } && default
                    == modifiers[0] as i64 && alternatives@.len() == modifiers.len() && forall|
                    i: int,
                |
                    0 <= i < modifiers.len() ==> #[trigger] alternatives@[i] == modifiers[i] as i64,
        );
    } else {
        lemma_has_none(param, PodKey::VideoModifier);
    }
}

pub(crate) proof fn lemma_settled(
    param: PodObject,
    size: Size,
    format: VideoFormat,
    modifier: u64,
    max_fps: u32,
)
    requires
        param@ == settled_format(size, format, modifier, max_fps),
    ensures
        is_raw_video(param, format),
        has_rate(param, max_fps),
        fixes_size(param, size.width, size.height),
        fixes_layout(param, modifier),
        keys_of(param) == seq![
            PodKey::MediaType,
            PodKey::MediaSubtype,
            PodKey::VideoSize,
            PodKey::VideoFramerate,
            PodKey::VideoFormat,
            PodKey::VideoModifier,
        ] + (if max_fps > 0 {
            seq![PodKey::VideoMaxFramerate]
        } else {
            seq![]
        }),
{
    lemma_properties_shown(param);
    assert(param.properties@[0]@ == param@.properties[0]);
    assert(param.properties@[1]@ == param@.properties[1]);
    assert(param.properties@[2]@ == param@.properties[2]);
    assert(param.properties@[3]@ == param@.properties[3]);
    assert(param.properties@[4]@ == param@.properties[4]);
    assert(param.properties@[5]@ == param@.properties[5]);
    lemma_has_one(param, 0, |v: PodValue| v is MediaVideo);
    lemma_has_one(param, 1, |v: PodValue| v is MediaRaw);
    lemma_has_one(
        param,
        2,
        |v: PodValue|
            v matches PodValue::Rectangle(s) && s.width == size.width && s.height == size.height,
    );
    lemma_has_one(
        param,
        3,
        |v: PodValue| v matches PodValue::Fraction(rate) && rate.num == 0 && rate.denom == 1,
    );
    lemma_has_one(param, 4, |v: PodValue| v matches PodValue::Format(f) && f == format);
    lemma_has_one(
        param,
        5,
        |v: PodValue| v matches PodValue::Long(layout) && layout == modifier as i64,
    );
    if max_fps > 0 {
        assert(param.properties@[6]@ == param@.properties[6]);
        lemma_has_one(
            param,
            6,
            |v: PodValue|
                v matches PodValue::FractionRange { default, min, max } && default.num == max_fps
                    && default.denom == 1 && min.num == 1 && min.denom == 1 && max == default,
        );
    } else {
        lemma_has_none(param, PodKey::VideoMaxFramerate);
    }
}

pub(crate) proof fn lemma_buffers(
    param: PodObject,
    width: u32,
    height: u32,
    blocks: u32,
    use_dmabuf: bool,
)
    requires
        countable(width, height),
        param@ == buffers_needed(width, height, blocks, use_dmabuf),
    ensures
        needs_buffers(param, width, height, blocks, use_dmabuf),
{
    lemma_properties_shown(param);
    assert(param.properties@[0]@ == param@.properties[0]);
    assert(param.properties@[1]@ == param@.properties[1]);
    assert(param.properties@[2]@ == param@.properties[2]);
    assert(param.properties@[3]@ == param@.properties[3]);
    assert(param.properties@[4]@ == param@.properties[4]);
    assert(param.properties@[5]@ == param@.properties[5]);
    lemma_has_one(
        param,
        4,
        |v: PodValue|
            v matches PodValue::Int(n) && n == (width as i32) * (height as i32) * 4,
    );
    lemma_has_one(
        param,
        5,
        |v: PodValue| v matches PodValue::Int(n) && n == (width as i32) * 4,
    );
    lemma_has_one(param, 2, |v: PodValue| v matches PodValue::Int(n) && n == blocks as i32);
    lemma_has_one(
        param,
        0,
        |v: PodValue|
            v matches PodValue::IntFlags { default, flags } && flags@ == seq![default] && default
                == if use_dmabuf {
                8i32
            } else {
                4i32
            },
    );
    lemma_has_one(
        param,
        3,
        |v: PodValue|
            v matches PodValue::IntRange { default, min, max } && default == 4 && min == 1 && max
                == 32,
    );
    lemma_has_one(param, 1, |v: PodValue| v matches PodValue::Int(n) && n == 16);
    assert(keys_of(param) == seq![
        PodKey::BuffersDataType,
        PodKey::BuffersAlign,
        PodKey::BuffersBlocks,
        PodKey::BuffersBuffers,
        PodKey::BuffersSize,
        PodKey::BuffersStride,
    ]);
}

/// An offer is raw video of its format, of the one size, at any rate up to the limit, with the
/// layouts to choose from. It says nothing else.
pub proof fn law_offers_say_what_is_offered(
    width: u32,
    height: u32,
    format: VideoFormat,
    modifiers: Vec<u64>,
    max_fps: u32,
    offer: PodObject,
)
    requires
        call_ensures(format_param, (width, height, format, &modifiers, max_fps), offer),
    ensures
        is_raw_video(offer, format),
        has_rate(offer, max_fps),
        offers_size(offer, width, height),
        offers_layouts(offer, modifiers@),
        keys_of(offer) == seq![
            PodKey::MediaType,
            PodKey::MediaSubtype,
            PodKey::VideoSize,
            PodKey::VideoFramerate,
        ] + (if max_fps > 0 {
            seq![PodKey::VideoMaxFramerate]
        } else {
            seq![]
        }) + seq![PodKey::VideoFormat] + (if modifiers@.len() > 0 {
            seq![PodKey::VideoModifier]
        } else {
            seq![]
        }),
{
    lemma_offer(offer, Size { width, height }, format, modifiers@, max_fps);
}

/// A settled format is raw video of its format, of its size, at any rate up to the limit, with the
/// one layout that was settled on. It says nothing else.
pub proof fn law_settled_formats_say_what_was_settled(
    width: u32,
    height: u32,
    format: VideoFormat,
    modifier: u64,
    max_fps: u32,
    settled: PodObject,
)
    requires
        call_ensures(fixed_format_param, (width, height, format, modifier, max_fps), settled),
    ensures
        is_raw_video(settled, format),
        has_rate(settled, max_fps),
        fixes_size(settled, width, height),
        fixes_layout(settled, modifier),
        keys_of(settled) == seq![
            PodKey::MediaType,
            PodKey::MediaSubtype,
            PodKey::VideoSize,
            PodKey::VideoFramerate,
            PodKey::VideoFormat,
            PodKey::VideoModifier,
        ] + (if max_fps > 0 {
            seq![PodKey::VideoMaxFramerate]
        } else {
            seq![]
        }),
{
    lemma_settled(settled, Size { width, height }, format, modifier, max_fps);
}

/// The buffers of a stream hold a frame, in the blocks and the memory that were asked for.
pub proof fn law_buffers_hold_a_frame(
    width: u32,
    height: u32,
    blocks: u32,
    use_dmabuf: bool,
    param: PodObject,
)
    requires
        countable(width, height),
        call_ensures(buffer_param, (width, height, blocks, use_dmabuf), param),
    ensures
        needs_buffers(param, width, height, blocks, use_dmabuf),
{
    lemma_buffers(param, width, height, blocks, use_dmabuf);
}

/// A frame can be counted exactly where its bytes and those of a row fit into a signed number of 32
/// bits. An extent that does not fit itself counts as the negative number of the same bits.
pub proof fn law_countable_frames(width: u32, height: u32, fits: bool)
    requires
        call_ensures(is_countable, (width, height), fits),
    ensures
        width <= 0x7fff_ffff && height <= 0x7fff_ffff ==> (fits <==> width * height * 4
            <= 0x7fff_ffff && width * 4 <= 0x7fff_ffff),
        fits <==> -0x8000_0000 <= (width as i32) * (height as i32) * 4 <= 0x7fff_ffff
            && -0x8000_0000 <= (width as i32) * 4 <= 0x7fff_ffff,
{
    assert(width <= 0x7fff_ffff ==> width as i32 == width);
    assert(height <= 0x7fff_ffff ==> height as i32 == height);
    assert(0 <= width * height) by (nonlinear_arith)
        requires
            width >= 0,
            height >= 0,
    ;
}

/// The flags on the layout are those of the first property on it, wherever it stands.
pub proof fn law_layout_flags_are_found(
    headers: Vec<(PodKey, PropertyFlags)>,
    flags: Option<PropertyFlags>,
)
    requires
        call_ensures(pod_modifier_flags, (&headers,), flags),
    ensures
        flags is None <==> forall|i: int|
            0 <= i < headers@.len() ==> (#[trigger] headers@[i]).0 != PodKey::VideoModifier,
        forall|i: int|
            0 <= i < headers@.len() && (#[trigger] headers@[i]).0 == PodKey::VideoModifier && (
            forall|j: int| 0 <= j < i ==> (#[trigger] headers@[j]).0 != PodKey::VideoModifier)
                ==> flags == Some(headers@[i].1),
{
    let wanted = |h: (PodKey, PropertyFlags)| h.0 == PodKey::VideoModifier;
    lemma_first_index(headers@, wanted);
    let k = first_index(headers@, wanted);
    if k < headers@.len() {
        assert(wanted(headers@[k]));
    }
    assert forall|i: int|
        0 <= i < headers@.len() && (#[trigger] headers@[i]).0 == PodKey::VideoModifier && (forall|
            j: int,
        |
            0 <= j < i ==> (#[trigger] headers@[j]).0 != PodKey::VideoModifier) implies flags
        == Some(headers@[i].1) by {
        lemma_is_first_index(headers@, wanted, i);
    }
    if flags is None {
        assert forall|i: int| 0 <= i < headers@.len() implies (#[trigger] headers@[i]).0
            != PodKey::VideoModifier by {
            assert(!wanted(headers@[i]));
        }
    }
}

/// An offer and a settled format of the same extent say the same of their size: each has one property
/// on it, and what the one allows is exactly what the other has.
pub proof fn law_sizes_agree(
    width: u32,
    height: u32,
    format: VideoFormat,
    modifiers: Vec<u64>,
    modifier: u64,
    max_fps: u32,
    offer: PodObject,
    settled: PodObject,
    i: int,
    j: int,
)
    requires
        call_ensures(format_param, (width, height, format, &modifiers, max_fps), offer),
        call_ensures(fixed_format_param, (width, height, format, modifier, max_fps), settled),
        0 <= i < offer.properties@.len(),
        offer.properties@[i].key == PodKey::VideoSize,
        0 <= j < settled.properties@.len(),
        settled.properties@[j].key == PodKey::VideoSize,
    ensures
        offer.properties@[i].value matches PodValue::RectangleRange { default, min, max } && (
        settled.properties@[j].value matches PodValue::Rectangle(size) && default == size && min
            == size && max == size && size.width == width && size.height == height),
        i == 2 && j == 2,
{
    law_offers_say_what_is_offered(width, height, format, modifiers, max_fps, offer);
    law_settled_formats_say_what_was_settled(width, height, format, modifier, max_fps, settled);
    assert(keys_of(offer)[i] == PodKey::VideoSize);
    assert(keys_of(settled)[j] == PodKey::VideoSize);
    assert(keys_of(offer)[2] == PodKey::VideoSize);
    assert(keys_of(settled)[2] == PodKey::VideoSize);
}

} // verus!
