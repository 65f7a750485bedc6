//! The formats that a screen cast offers to its consumers.

use vstd::prelude::*;

use crate::capture::{CaptureProbe, ProbeView};
use crate::formats::{
    drm_fourcc_to_spa,
    shm_format_to_spa,
    video_of_code,
    video_of_pixel,
    DmabufFormat,
    DmabufFormatView,
    ShmFormat,
    VideoFormat,
};
use crate::geometry::Size;
use crate::pod::{
    format_offer,
    format_param,
    has_rate,
    is_raw_video,
    lemma_offer,
    offers_layouts,
    offers_size,
    PodObject,
    PodView,
};
use crate::search::{are_places, first_of, lemma_is_first_index};

verus! {

/// A format on offer. Without layouts it stands for shared memory.
#[derive(Debug)]
pub struct StreamFormatOffer {
    pub spa_format: VideoFormat,
    pub modifiers: Vec<u64>,
}

/// What is on offer.
#[verifier::ext_equal]
pub struct OfferView {
    pub spa_format: VideoFormat,
    pub modifiers: Seq<u64>,
}

impl View for StreamFormatOffer {
    type V = OfferView;

    open spec fn view(&self) -> OfferView {
        OfferView { spa_format: self.spa_format, modifiers: self.modifiers@ }
    }
}

/// The formats that a screen cast offers.
#[derive(Debug)]
pub struct StreamFormatState {
    pub size: Size,
    pub offers: Vec<StreamFormatOffer>,
    pub dmabuf_supported: bool,
}

/// What a screen cast offers.
#[verifier::ext_equal]
pub struct FormatsView {
    pub size: Size,
    pub offers: Seq<OfferView>,
    pub dmabuf_supported: bool,
}

impl View for StreamFormatState {
    type V = FormatsView;

    open spec fn view(&self) -> FormatsView {
        FormatsView {
            size: self.size,
            offers: self.offers@.map_values(|o: StreamFormatOffer| o@),
            dmabuf_supported: self.dmabuf_supported,
        }
    }
}

/// Why a screen cast has nothing to offer.
#[derive(Debug, Clone, Copy, PartialEq, Eq, Structural)]
pub enum FormatError {
    /// There is no device for DMA-BUFs, or no DMA-BUF format.
    NoDmabufPath,
    /// No DMA-BUF format has both a layout and a video format.
    NoDmabufFormats,
    /// No format at all has a video format.
    NoFormats,
}

impl FormatError {
    /// The words for an error.
    pub open spec fn words(self) -> Seq<char> {
        match self {
            FormatError::NoDmabufPath => {
                "compositor did not advertise a usable dma-buf capture path"@
            },
            FormatError::NoDmabufFormats => {
                "compositor did not advertise usable dma-buf formats and modifiers"@
            },
            FormatError::NoFormats => {
                "no capture formats could be mapped to pw spa video formats"@
            },
        }
    }

    /// Says what went wrong.
    pub fn message(&self) -> (text: &'static str)
        ensures
            text@ == self.words(),
    {
        match self {
            FormatError::NoDmabufPath => {
                "compositor did not advertise a usable dma-buf capture path"
            },
            FormatError::NoDmabufFormats => {
                "compositor did not advertise usable dma-buf formats and modifiers"
            },
            FormatError::NoFormats => {
                "no capture formats could be mapped to pw spa video formats"
            },
        }
    }
}

/// The offers of DMA-BUF formats: those with a layout and a video format, in order.
pub open spec fn dmabuf_offers(formats: Seq<DmabufFormatView>) -> Seq<OfferView>
    decreases formats.len(),
{
    if formats.len() == 0 {
        Seq::empty()
    } else {
        let init = dmabuf_offers(formats.drop_last());
        let last = formats.last();
        match video_of_code(last.fourcc as int) {
            Some(video) => if last.modifiers.len() > 0 {
                init.push(OfferView { spa_format: video, modifiers: last.modifiers })
            } else {
                init
            },
            None => init,
        }
    }
}

/// Whether shared memory of a video format is on offer.
pub open spec fn offers_shm(offers: Seq<OfferView>, video: VideoFormat) -> bool {
    exists|i: int|
        0 <= i < offers.len() && (#[trigger] offers[i]).spa_format == video
            && offers[i].modifiers.len() == 0
}

/// Offers together with those of shared-memory formats: those with a video format, each once.
pub open spec fn with_shm_offers(offers: Seq<OfferView>, formats: Seq<ShmFormat>) -> Seq<OfferView>
    decreases formats.len(),
{
    if formats.len() == 0 {
        offers
    } else {
        let init = with_shm_offers(offers, formats.drop_last());
        match video_of_pixel(formats.last().format) {
            Some(video) => if offers_shm(init, video) {
                init
            } else {
                init.push(OfferView { spa_format: video, modifiers: Seq::empty() })
            },
            None => init,
        }
    }
}

/// Whether DMA-BUFs can be had at all.
pub open spec fn dmabuf_available(probe: ProbeView) -> bool {
    probe.has_dmabuf_device && probe.dmabuf_formats.len() > 0
}

/// The DMA-BUF offers of a probe.
pub open spec fn probed_dmabuf_offers(probe: ProbeView) -> Seq<OfferView> {
    if dmabuf_available(probe) {
        dmabuf_offers(probe.dmabuf_formats)
    } else {
        Seq::empty()
    }
}

/// What a probe lets a screen cast offer, or why it has nothing to offer.
pub open spec fn formats_of_probe(probe: ProbeView, allow_shm: bool) -> Result<
    FormatsView,
    FormatError,
> {
    let dmabuf = probed_dmabuf_offers(probe);
    let offers = if allow_shm {
        with_shm_offers(dmabuf, probe.shm_formats)
    } else {
        dmabuf
    };
    if !dmabuf_available(probe) && !allow_shm {
        Err(FormatError::NoDmabufPath)
    } else if dmabuf.len() == 0 && !allow_shm {
        Err(FormatError::NoDmabufFormats)
    } else if offers.len() == 0 {
        Err(FormatError::NoFormats)
    } else {
        Ok(FormatsView { size: probe.size, offers, dmabuf_supported: dmabuf.len() > 0 })
    }
}

impl FormatsView {
    /// The parameters that offer the formats.
    pub open spec fn params(self, max_fps: u32) -> Seq<PodView> {
        self.offers.map_values(
            |o: OfferView| format_offer(self.size, o.spa_format, o.modifiers, max_fps),
        )
    }

    /// The first layout of the first offer of a format.
    pub open spec fn fallback(self, format: VideoFormat) -> Option<u64> {
        match first_of(self.offers, |o: OfferView| o.spa_format == format) {
            Some(offer) => if offer.modifiers.len() > 0 {
                Some(offer.modifiers[0])
            } else {
                None
            },
            None => None,
        }
    }
}

impl StreamFormatState {
    /// What a probe lets a screen cast offer. Shared memory is offered only where it is allowed.
    pub fn from_probe(probe: CaptureProbe, allow_shm_fallback: bool) -> (formats: Result<
        Self,
        FormatError,
    >)
        ensures
            match formats_of_probe(probe@, allow_shm_fallback) {
                Ok(view) => formats matches Ok(f) && f@ == view,
                Err(error) => formats matches Err(e) && e == error,
            },
    {
        let available: bool = probe.has_dmabuf_device && probe.dmabuf_formats.len() > 0;
        if !available && !allow_shm_fallback {
            return Err(FormatError::NoDmabufPath);
        }
        let mut offers: Vec<StreamFormatOffer> = Vec::new();
        assert(offers@.map_values(|o: StreamFormatOffer| o@) == Seq::<OfferView>::empty());
        if available {
            offers = collect_dmabuf_offers(&probe.dmabuf_formats);
        }
        let dmabuf_supported: bool = offers.len() > 0;
        if !dmabuf_supported && !allow_shm_fallback {
            return Err(FormatError::NoDmabufFormats);
        }
        if allow_shm_fallback {
            add_shm_offers(&mut offers, &probe.shm_formats);
        }
        if offers.len() == 0 {
            return Err(FormatError::NoFormats);
        }
        Ok(StreamFormatState { size: probe.size, offers, dmabuf_supported })
    }

    /// The parameters that offer the formats.
    pub fn format_params(&self, max_fps: u32) -> (params: Vec<PodObject>)
        ensures
            params@.map_values(|p: PodObject| p@) == self@.params(max_fps),
    {
        let mut params: Vec<PodObject> = Vec::new();
        let mut i: usize = 0;
        assert(params@.map_values(|p: PodObject| p@) == self@.params(max_fps).take(0));
        while i < self.offers.len()
            invariant
                i <= self.offers@.len(),
                params@.map_values(|p: PodObject| p@) == self@.params(max_fps).take(i as int),
            decreases self.offers@.len() - i,
        {
            let ghost before = params@;
            let param: PodObject = format_param(
                self.size.width,
                self.size.height,
                self.offers[i].spa_format,
                &self.offers[i].modifiers,
                max_fps,
            );
            params.push(param);
            proof {
                assert(self@.offers[i as int] == self.offers@[i as int]@);
                assert(param@ == self@.params(max_fps)[i as int]);
                assert(params@.map_values(|p: PodObject| p@) == before.map_values(
                    |p: PodObject| p@,
                ).push(param@));
                assert(self@.params(max_fps).take(i + 1) == self@.params(max_fps).take(
                    i as int,
                ).push(param@));
            }
            i += 1;
        }
        assert(self@.params(max_fps).take(i as int) == self@.params(max_fps));
        params
    }

    /// The layout to use for a format where none was settled on.
    pub fn fallback_modifier(&self, format: VideoFormat) -> (modifier: Option<u64>)
        ensures
            modifier == self@.fallback(format),
    {
        let ghost wanted = |o: OfferView| o.spa_format == format;
        let mut i: usize = 0;
        while i < self.offers.len()
            invariant
                i <= self.offers@.len(),
                wanted == (|o: OfferView| o.spa_format == format),
                forall|j: int| 0 <= j < i ==> !wanted(#[trigger] self@.offers[j]),
            decreases self.offers@.len() - i,
        {
            assert(self@.offers[i as int] == self.offers@[i as int]@);
            if self.offers[i].spa_format == format {
                proof {
                    lemma_is_first_index(self@.offers, wanted, i as int);
                }
                if self.offers[i].modifiers.len() > 0 {
                    return Some(self.offers[i].modifiers[0]);
                }
                return None;
            }
            i += 1;
        }
        proof {
            lemma_is_first_index(self@.offers, wanted, i as int);
        }
        None
    }
}

fn collect_dmabuf_offers(formats: &Vec<DmabufFormat>) -> (offers: Vec<StreamFormatOffer>)
    ensures
        offers@.map_values(|o: StreamFormatOffer| o@) == dmabuf_offers(
            formats@.map_values(|f: DmabufFormat| f@),
        ),
{
    let ghost views = formats@.map_values(|f: DmabufFormat| f@);
    let mut offers: Vec<StreamFormatOffer> = Vec::new();
    let mut i: usize = 0;
    assert(offers@.map_values(|o: StreamFormatOffer| o@) == Seq::<OfferView>::empty());
    while i < formats.len()
        invariant
            i <= formats@.len(),
            views == formats@.map_values(|f: DmabufFormat| f@),
            offers@.map_values(|o: StreamFormatOffer| o@) == dmabuf_offers(views.take(i as int)),
        decreases formats@.len() - i,
    {
        assert(views.take(i + 1).drop_last() == views.take(i as int));
        assert(views.take(i + 1).last() == formats@[i as int]@);
        if let Some(video) = drm_fourcc_to_spa(formats[i].fourcc) {
            if formats[i].modifiers.len() > 0 {
                let ghost before = offers@;
                let modifiers: Vec<u64> = formats[i].modifiers.clone();
                assert(modifiers@ == formats@[i as int].modifiers@);
                let offer = StreamFormatOffer { spa_format: video, modifiers };
                offers.push(offer);
                assert(offers@.map_values(|o: StreamFormatOffer| o@) == before.map_values(
                    |o: StreamFormatOffer| o@,
                ).push(offer@));
            }
        }
        i += 1;
    }
    assert(views.take(i as int) == views);
    offers
}

fn add_shm_offers(offers: &mut Vec<StreamFormatOffer>, formats: &Vec<ShmFormat>)
    ensures
        final(offers)@.map_values(|o: StreamFormatOffer| o@) == with_shm_offers(
            old(offers)@.map_values(|o: StreamFormatOffer| o@),
            formats@,
        ),
{
    let ghost start = offers@.map_values(|o: StreamFormatOffer| o@);
    let mut i: usize = 0;
    while i < formats.len()
        invariant
            i <= formats@.len(),
            start == old(offers)@.map_values(|o: StreamFormatOffer| o@),
            offers@.map_values(|o: StreamFormatOffer| o@) == with_shm_offers(
                start,
                formats@.take(i as int),
            ),
        decreases formats@.len() - i,
    {
        assert(formats@.take(i + 1).drop_last() == formats@.take(i as int));
        if let Some(video) = shm_format_to_spa(formats[i].format) {
            if !has_shm_offer(offers, video) {
                let ghost before = offers@;
                let offer = StreamFormatOffer { spa_format: video, modifiers: Vec::new() };
                assert(offer@ == (OfferView { spa_format: video, modifiers: Seq::empty() }));
                offers.push(offer);
                assert(offers@.map_values(|o: StreamFormatOffer| o@) == before.map_values(
                    |o: StreamFormatOffer| o@,
                ).push(offer@));
            }
        }
        i += 1;
    }
    assert(formats@.take(i as int) == formats@);
}

fn has_shm_offer(offers: &Vec<StreamFormatOffer>, video: VideoFormat) -> (found: bool)
    ensures
        found == offers_shm(offers@.map_values(|o: StreamFormatOffer| o@), video),
{
    let ghost views = offers@.map_values(|o: StreamFormatOffer| o@);
    let mut i: usize = 0;
    while i < offers.len()
        invariant
            i <= offers@.len(),
            views == offers@.map_values(|o: StreamFormatOffer| o@),
            forall|j: int|
                0 <= j < i ==> !((#[trigger] views[j]).spa_format == video
                    && views[j].modifiers.len() == 0),
        decreases offers@.len() - i,
    {
        assert(views[i as int] == offers@[i as int]@);
        if offers[i].spa_format == video && offers[i].modifiers.len() == 0 {
            return true;
        }
        i += 1;
    }
    false
}

proof fn lemma_dmabuf_offers(formats: Seq<DmabufFormatView>)
    ensures
        forall|i: int|
            0 <= i < dmabuf_offers(formats).len() ==> (#[trigger] dmabuf_offers(
                formats,
            )[i]).modifiers.len() > 0 && !(dmabuf_offers(formats)[i].spa_format is Other),
    decreases formats.len(),
{
    if formats.len() > 0 {
        lemma_dmabuf_offers(formats.drop_last());
    }
}

proof fn lemma_shm_offers(offers: Seq<OfferView>, formats: Seq<ShmFormat>)
    ensures
        offers.is_prefix_of(with_shm_offers(offers, formats)),
        forall|i: int|
            offers.len() <= i < with_shm_offers(offers, formats).len() ==> (
            #[trigger] with_shm_offers(offers, formats)[i]).modifiers.len() == 0
                && !(with_shm_offers(offers, formats)[i].spa_format is Other),
        forall|i: int, j: int|
            offers.len() <= i < j < with_shm_offers(offers, formats).len() ==> (
            #[trigger] with_shm_offers(offers, formats)[i]).spa_format != (
            #[trigger] with_shm_offers(offers, formats)[j]).spa_format,
    decreases formats.len(),
{
    if formats.len() > 0 {
        lemma_shm_offers(offers, formats.drop_last());
    }
}

/// Without leave to use shared memory, every offer has a layout: a consumer can only get DMA-BUFs.
pub proof fn law_shm_is_offered_only_if_allowed(probe: ProbeView)
    ensures
        formats_of_probe(probe, false) matches Ok(formats) ==> {
            &&& formats.dmabuf_supported
            &&& forall|i: int|
                0 <= i < formats.offers.len() ==> (#[trigger] formats.offers[i]).modifiers.len() > 0
        },
{
    lemma_dmabuf_offers(probe.dmabuf_formats);
}

/// DMA-BUF offers come before all offers of shared memory, and they are what decides whether
/// DMA-BUFs are supported. Every format on offer has a name in the library.
pub proof fn law_dmabuf_offers_come_first(probe: ProbeView, allow_shm: bool)
    ensures
        formats_of_probe(probe, allow_shm) matches Ok(formats) ==> {
            let n = probed_dmabuf_offers(probe).len();
            &&& 0 <= n <= formats.offers.len()
            &&& formats.dmabuf_supported == (n > 0)
            &&& forall|i: int|
                0 <= i < formats.offers.len() ==> {
                    &&& ((#[trigger] formats.offers[i]).modifiers.len() > 0 <==> i < n)
                    &&& !(formats.offers[i].spa_format is Other)
                }
        },
{
    lemma_dmabuf_offers(probe.dmabuf_formats);
    lemma_shm_offers(probed_dmabuf_offers(probe), probe.shm_formats);
    if let Ok(formats) = formats_of_probe(probe, allow_shm) {
        let dmabuf = probed_dmabuf_offers(probe);
        assert forall|i: int| 0 <= i < formats.offers.len() implies ((
        #[trigger] formats.offers[i]).modifiers.len() > 0 <==> i < dmabuf.len())
            && !(formats.offers[i].spa_format is Other) by {
            if i < dmabuf.len() {
                assert(formats.offers[i] == dmabuf[i]);
            }
        }
    }
}

/// Shared memory of a video format is offered at most once.
pub proof fn law_shm_offers_are_distinct(probe: ProbeView, i: int, j: int)
    requires
        formats_of_probe(probe, true) is Ok,
        0 <= i < j < formats_of_probe(probe, true)->Ok_0.offers.len(),
        formats_of_probe(probe, true)->Ok_0.offers[i].modifiers.len() == 0,
        formats_of_probe(probe, true)->Ok_0.offers[j].modifiers.len() == 0,
    ensures
        formats_of_probe(probe, true)->Ok_0.offers[i].spa_format != formats_of_probe(
            probe,
            true,
        )->Ok_0.offers[j].spa_format,
{
    law_dmabuf_offers_come_first(probe, true);
    lemma_shm_offers(probed_dmabuf_offers(probe), probe.shm_formats);
}

/// Whether a DMA-BUF format can be offered: it has a layout and a video format.
pub open spec fn is_usable(format: DmabufFormat) -> bool {
    format.modifiers@.len() > 0 && video_of_code(format.fourcc as int) is Some
}

/// Whether an offer is that of a DMA-BUF format.
pub open spec fn offers_dmabuf(offer: StreamFormatOffer, format: DmabufFormat) -> bool {
    &&& is_usable(format)
    &&& Some(offer.spa_format) == video_of_code(format.fourcc as int)
    &&& offer.modifiers@ == format.modifiers@
}

/// Whether an offer is that of a shared-memory format.
pub open spec fn offers_memory(offer: StreamFormatOffer, format: ShmFormat) -> bool {
    Some(offer.spa_format) == video_of_pixel(format.format) && offer.modifiers@.len() == 0
}

/// DMA-BUF formats are offered one after the other: the offers of two lists in a row are those of
/// the first, then those of the second. One format makes one offer, with its layouts as they are,
/// or none where it has no layout or no video format.
pub proof fn law_dmabuf_offers_follow_the_formats(
    a: Seq<DmabufFormatView>,
    b: Seq<DmabufFormatView>,
    format: DmabufFormatView,
)
    ensures
        dmabuf_offers(a + b) == dmabuf_offers(a) + dmabuf_offers(b),
        format.modifiers.len() > 0 && video_of_code(format.fourcc as int) is Some ==> dmabuf_offers(
            seq![format],
        ).len() == 1 && dmabuf_offers(seq![format])[0].modifiers == format.modifiers && Some(
            dmabuf_offers(seq![format])[0].spa_format,
        ) == video_of_code(format.fourcc as int),
        format.modifiers.len() == 0 || video_of_code(format.fourcc as int) is None
            ==> dmabuf_offers(seq![format]).len() == 0,
    decreases b.len(),
{
    reveal_with_fuel(dmabuf_offers, 2);
    assert(seq![format].drop_last() == Seq::<DmabufFormatView>::empty());
    if b.len() == 0 {
        assert(a + b == a);
    } else {
        assert((a + b).drop_last() == a + b.drop_last());
        law_dmabuf_offers_follow_the_formats(a, b.drop_last(), format);
        assert(dmabuf_offers(a + b) == dmabuf_offers(a) + dmabuf_offers(b));
    }
}

/// Shared-memory formats are offered one after the other. One format makes one offer without
/// layouts at the end, or none where it has no video format or shared memory of it is on offer
/// already.
pub proof fn law_shm_offers_follow_the_formats(
    offers: Seq<OfferView>,
    a: Seq<ShmFormat>,
    b: Seq<ShmFormat>,
    format: ShmFormat,
)
    ensures
        with_shm_offers(offers, a + b) == with_shm_offers(with_shm_offers(offers, a), b),
        with_shm_offers(offers, Seq::empty()) == offers,
        ({
            let more = with_shm_offers(offers, seq![format]);
            let known = exists|i: int|
                0 <= i < offers.len() && (#[trigger] offers[i]).modifiers.len() == 0 && Some(
                    offers[i].spa_format,
                ) == video_of_pixel(format.format);
            if video_of_pixel(format.format) is None || known {
                more == offers
            } else {
                &&& more.len() == offers.len() + 1
                &&& offers.is_prefix_of(more)
                &&& more.last().modifiers.len() == 0
                &&& Some(more.last().spa_format) == video_of_pixel(format.format)
            }
        }),
    decreases b.len(),
{
    reveal_with_fuel(with_shm_offers, 2);
    assert(seq![format].drop_last() == Seq::<ShmFormat>::empty());
    if b.len() == 0 {
        assert(a + b == a);
    } else {
        assert((a + b).drop_last() == a + b.drop_last());
        law_shm_offers_follow_the_formats(offers, a, b.drop_last(), format);
    }
}

proof fn lemma_dmabuf_offer_of(formats: Seq<DmabufFormatView>, k: int)
    requires
        0 <= k < formats.len(),
        formats[k].modifiers.len() > 0,
        video_of_code(formats[k].fourcc as int) is Some,
    ensures
        exists|i: int|
            0 <= i < dmabuf_offers(formats).len() && (#[trigger] dmabuf_offers(
                formats,
            )[i]).modifiers == formats[k].modifiers && Some(dmabuf_offers(formats)[i].spa_format)
                == video_of_code(formats[k].fourcc as int),
    decreases formats.len(),
{
    let init = formats.drop_last();
    let offers = dmabuf_offers(formats);
    if k == formats.len() - 1 {
        let i = offers.len() - 1;
        assert(offers[i].modifiers == formats[k].modifiers);
    } else {
        lemma_dmabuf_offer_of(init, k);
        let i = choose|i: int|
            0 <= i < dmabuf_offers(init).len() && (#[trigger] dmabuf_offers(init)[i]).modifiers
                == init[k].modifiers && Some(dmabuf_offers(init)[i].spa_format) == video_of_code(
                init[k].fourcc as int,
            );
        assert(offers[i] == dmabuf_offers(init)[i]);
    }
}

proof fn lemma_format_of_dmabuf_offer(formats: Seq<DmabufFormatView>, i: int) -> (k: int)
    requires
        0 <= i < dmabuf_offers(formats).len(),
    ensures
        0 <= k < formats.len(),
        formats[k].modifiers.len() > 0,
        formats[k].modifiers == dmabuf_offers(formats)[i].modifiers,
        video_of_code(formats[k].fourcc as int) == Some(dmabuf_offers(formats)[i].spa_format),
    decreases formats.len(),
{
    let init = formats.drop_last();
    if i < dmabuf_offers(init).len() {
        lemma_format_of_dmabuf_offer(init, i)
    } else {
        formats.len() - 1
    }
}

proof fn lemma_shm_offer_of(offers: Seq<OfferView>, formats: Seq<ShmFormat>, k: int)
    requires
        0 <= k < formats.len(),
        video_of_pixel(formats[k].format) is Some,
    ensures
        exists|i: int|
            0 <= i < with_shm_offers(offers, formats).len() && (#[trigger] with_shm_offers(
                offers,
                formats,
            )[i]).modifiers.len() == 0 && Some(with_shm_offers(offers, formats)[i].spa_format)
                == video_of_pixel(formats[k].format),
    decreases formats.len(),
{
    let init = formats.drop_last();
    let before = with_shm_offers(offers, init);
    let after = with_shm_offers(offers, formats);
    if k == formats.len() - 1 {
        let video = video_of_pixel(formats[k].format)->0;
        if offers_shm(before, video) {
            let i = choose|i: int|
                0 <= i < before.len() && (#[trigger] before[i]).spa_format == video
                    && before[i].modifiers.len() == 0;
            assert(after[i] == before[i]);
        } else {
            let i = after.len() - 1;
            assert(after[i].spa_format == video);
        }
    } else {
        lemma_shm_offer_of(offers, init, k);
        let i = choose|i: int|
            0 <= i < before.len() && (#[trigger] before[i]).modifiers.len() == 0 && Some(
                before[i].spa_format,
            ) == video_of_pixel(init[k].format);
        assert(after[i] == before[i]);
    }
}

proof fn lemma_format_of_shm_offer(offers: Seq<OfferView>, formats: Seq<ShmFormat>, i: int) -> (k:
    int)
    requires
        offers.len() <= i < with_shm_offers(offers, formats).len(),
    ensures
        0 <= k < formats.len(),
        video_of_pixel(formats[k].format) == Some(with_shm_offers(offers, formats)[i].spa_format),
    decreases formats.len(),
{
    let init = formats.drop_last();
    if i < with_shm_offers(offers, init).len() {
        lemma_format_of_shm_offer(offers, init, i)
    } else {
        formats.len() - 1
    }
}

/// What a screen cast offers has the extent of the probe. Every DMA-BUF format that can be offered
/// is on offer with its layouts as they are, where there is a device, and every offer with layouts
/// is that of one. Where shared memory is allowed, every shared-memory format with a video format
/// is on offer, and every offer without layouts is that of one; where it is not, there is none.
pub proof fn law_probes_are_offered_in_full(
    probe: CaptureProbe,
    allow_shm: bool,
    formats: StreamFormatState,
)
    requires
        call_ensures(
            StreamFormatState::from_probe,
            (probe, allow_shm),
            Ok::<StreamFormatState, FormatError>(formats),
        ),
    ensures
        formats.size == probe.size,
        formats.offers@.len() > 0,
        formats.dmabuf_supported <==> probe.has_dmabuf_device && exists|k: int|
            0 <= k < probe.dmabuf_formats@.len() && is_usable(#[trigger] probe.dmabuf_formats@[k]),
        forall|k: int|
            probe.has_dmabuf_device && 0 <= k < probe.dmabuf_formats@.len() && is_usable(
                #[trigger] probe.dmabuf_formats@[k],
            ) ==> exists|i: int|
                0 <= i < formats.offers@.len() && offers_dmabuf(
                    #[trigger] formats.offers@[i],
                    probe.dmabuf_formats@[k],
                ),
        forall|i: int|
            0 <= i < formats.offers@.len() && (#[trigger] formats.offers@[i]).modifiers@.len() > 0
                ==> probe.has_dmabuf_device && exists|k: int|
                0 <= k < probe.dmabuf_formats@.len() && offers_dmabuf(
                    formats.offers@[i],
                    #[trigger] probe.dmabuf_formats@[k],
                ),
        forall|k: int|
            allow_shm && 0 <= k < probe.shm_formats@.len() && video_of_pixel(
                (#[trigger] probe.shm_formats@[k]).format,
            ) is Some ==> exists|i: int|
                0 <= i < formats.offers@.len() && offers_memory(
                    #[trigger] formats.offers@[i],
                    probe.shm_formats@[k],
                ),
        forall|i: int|
            0 <= i < formats.offers@.len() && (#[trigger] formats.offers@[i]).modifiers@.len() == 0
                ==> allow_shm && exists|k: int|
                0 <= k < probe.shm_formats@.len() && offers_memory(
                    formats.offers@[i],
                    #[trigger] probe.shm_formats@[k],
                ),
{
    let views = probe@.dmabuf_formats;
    let dmabuf = probed_dmabuf_offers(probe@);
    let all = formats@.offers;
    assert forall|i: int| 0 <= i < all.len() implies #[trigger] all[i] == formats.offers@[i]@ by {}
    assert forall|k: int| 0 <= k < views.len() implies #[trigger] views[k]
        == probe.dmabuf_formats@[k]@ by {}
    assert(all.len() == formats.offers@.len());
    assert(views.len() == probe.dmabuf_formats@.len());
    lemma_dmabuf_offers(views);
    lemma_shm_offers(dmabuf, probe@.shm_formats);
    law_dmabuf_offers_come_first(probe@, allow_shm);
    assert(dmabuf.is_prefix_of(all));
    assert forall|i: int| 0 <= i < dmabuf.len() implies #[trigger] all[i] == dmabuf[i] by {}
    assert forall|k: int|
        probe.has_dmabuf_device && 0 <= k < probe.dmabuf_formats@.len() && is_usable(
            #[trigger] probe.dmabuf_formats@[k],
        ) implies exists|i: int|
        0 <= i < formats.offers@.len() && offers_dmabuf(
            #[trigger] formats.offers@[i],
            probe.dmabuf_formats@[k],
        ) by {
        assert(views[k] == probe.dmabuf_formats@[k]@);
        lemma_dmabuf_offer_of(views, k);
        let i = choose|i: int|
            0 <= i < dmabuf_offers(views).len() && (#[trigger] dmabuf_offers(views)[i]).modifiers
                == views[k].modifiers && Some(dmabuf_offers(views)[i].spa_format)
                == video_of_code(views[k].fourcc as int);
        assert(all[i] == formats.offers@[i]@);
        assert(offers_dmabuf(formats.offers@[i], probe.dmabuf_formats@[k]));
    }
    assert forall|i: int|
        0 <= i < formats.offers@.len() && (#[trigger] formats.offers@[i]).modifiers@.len()
            > 0 implies probe.has_dmabuf_device && exists|k: int|
        0 <= k < probe.dmabuf_formats@.len() && offers_dmabuf(
            formats.offers@[i],
            #[trigger] probe.dmabuf_formats@[k],
        ) by {
        assert(all[i] == formats.offers@[i]@);
        assert(i < dmabuf.len());
        let k = lemma_format_of_dmabuf_offer(views, i);
        assert(views[k] == probe.dmabuf_formats@[k]@);
        assert(offers_dmabuf(formats.offers@[i], probe.dmabuf_formats@[k]));
    }
    assert forall|k: int|
        allow_shm && 0 <= k < probe.shm_formats@.len() && video_of_pixel(
            (#[trigger] probe.shm_formats@[k]).format,
        ) is Some implies exists|i: int|
        0 <= i < formats.offers@.len() && offers_memory(
            #[trigger] formats.offers@[i],
            probe.shm_formats@[k],
        ) by {
        lemma_shm_offer_of(dmabuf, probe@.shm_formats, k);
        let i = choose|i: int|
            0 <= i < with_shm_offers(dmabuf, probe@.shm_formats).len() && (
            #[trigger] with_shm_offers(dmabuf, probe@.shm_formats)[i]).modifiers.len() == 0
                && Some(with_shm_offers(dmabuf, probe@.shm_formats)[i].spa_format)
                == video_of_pixel(probe@.shm_formats[k].format);
        assert(all[i] == formats.offers@[i]@);
        assert(offers_memory(formats.offers@[i], probe.shm_formats@[k]));
    }
    assert forall|i: int|
        0 <= i < formats.offers@.len() && (#[trigger] formats.offers@[i]).modifiers@.len()
            == 0 implies allow_shm && exists|k: int|
        0 <= k < probe.shm_formats@.len() && offers_memory(
            formats.offers@[i],
            #[trigger] probe.shm_formats@[k],
        ) by {
        assert(all[i] == formats.offers@[i]@);
        let k = lemma_format_of_shm_offer(dmabuf, probe@.shm_formats, i);
        assert(offers_memory(formats.offers@[i], probe.shm_formats@[k]));
    }
    if dmabuf.len() > 0 {
        let k = lemma_format_of_dmabuf_offer(views, 0);
        assert(views[k] == probe.dmabuf_formats@[k]@);
        assert(is_usable(probe.dmabuf_formats@[k]));
    }
    assert forall|k: int|
        probe.has_dmabuf_device && 0 <= k < probe.dmabuf_formats@.len() && is_usable(
            #[trigger] probe.dmabuf_formats@[k],
        ) implies dmabuf.len() > 0 by {
        assert(views[k] == probe.dmabuf_formats@[k]@);
        lemma_dmabuf_offer_of(views, k);
    }
}

/// A screen cast has nothing to offer exactly where there is neither a DMA-BUF format that can be
/// offered, with a device, nor a shared-memory format that may and can be. Where shared memory is
/// not allowed, the error tells a missing device or list from a list of no use.
pub proof fn law_nothing_is_offered_where_nothing_is_there(
    probe: CaptureProbe,
    allow_shm: bool,
    error: FormatError,
)
    requires
        call_ensures(
            StreamFormatState::from_probe,
            (probe, allow_shm),
            Err::<StreamFormatState, FormatError>(error),
        ),
    ensures
        !(probe.has_dmabuf_device && exists|k: int|
            0 <= k < probe.dmabuf_formats@.len() && is_usable(#[trigger] probe.dmabuf_formats@[k])),
        allow_shm ==> forall|k: int|
            0 <= k < probe.shm_formats@.len() ==> video_of_pixel(
                (#[trigger] probe.shm_formats@[k]).format,
            ) is None,
        allow_shm <==> error == FormatError::NoFormats,
        error == FormatError::NoDmabufPath <==> !allow_shm && (!probe.has_dmabuf_device
            || probe.dmabuf_formats@.len() == 0),
        error == FormatError::NoDmabufFormats <==> !allow_shm && probe.has_dmabuf_device
            && probe.dmabuf_formats@.len() > 0,
{
    let views = probe@.dmabuf_formats;
    let dmabuf = probed_dmabuf_offers(probe@);
    assert(views.len() == probe.dmabuf_formats@.len());
    lemma_shm_offers(dmabuf, probe@.shm_formats);
    if probe.has_dmabuf_device && exists|k: int|
        0 <= k < probe.dmabuf_formats@.len() && is_usable(#[trigger] probe.dmabuf_formats@[k]) {
        let k = choose|k: int|
            0 <= k < probe.dmabuf_formats@.len() && is_usable(#[trigger] probe.dmabuf_formats@[k]);
        assert(views[k] == probe.dmabuf_formats@[k]@);
        lemma_dmabuf_offer_of(views, k);
        assert(dmabuf.len() > 0);
    }
    if allow_shm {
        assert forall|k: int| 0 <= k < probe.shm_formats@.len() implies video_of_pixel(
            (#[trigger] probe.shm_formats@[k]).format,
        ) is None by {
            if video_of_pixel(probe.shm_formats@[k].format) is Some {
                lemma_shm_offer_of(dmabuf, probe@.shm_formats, k);
            }
        }
    }
}

/// Every offer is published as a parameter of its own, in order, with its format and its layouts,
/// the extent of the cast and the limit of the rate.
pub proof fn law_offers_are_published(
    formats: StreamFormatState,
    max_fps: u32,
    params: Vec<PodObject>,
)
    requires
        call_ensures(StreamFormatState::format_params, (&formats, max_fps), params),
    ensures
        params@.len() == formats.offers@.len(),
        forall|i: int|
            0 <= i < formats.offers@.len() ==> is_raw_video(
                #[trigger] params@[i],
                formats.offers@[i].spa_format,
            ) && offers_size(params@[i], formats.size.width, formats.size.height) && has_rate(
                params@[i],
                max_fps,
            ) && offers_layouts(params@[i], formats.offers@[i].modifiers@),
{
    lemma_published(formats, max_fps, params@);
}

pub(crate) proof fn lemma_published(
    formats: StreamFormatState,
    max_fps: u32,
    params: Seq<PodObject>,
)
    requires
        params.map_values(|p: PodObject| p@) == formats@.params(max_fps),
    ensures
        params.len() == formats.offers@.len(),
        forall|i: int|
            0 <= i < formats.offers@.len() ==> is_raw_video(
                #[trigger] params[i],
                formats.offers@[i].spa_format,
            ) && offers_size(params[i], formats.size.width, formats.size.height) && has_rate(
                params[i],
                max_fps,
            ) && offers_layouts(params[i], formats.offers@[i].modifiers@),
{
    let views = params.map_values(|p: PodObject| p@);
    assert(views.len() == params.len());
    assert(formats@.offers.len() == formats.offers@.len());
    assert forall|i: int| 0 <= i < formats.offers@.len() implies is_raw_video(
        #[trigger] params[i],
        formats.offers@[i].spa_format,
    ) && offers_size(params[i], formats.size.width, formats.size.height) && has_rate(
        params[i],
        max_fps,
    ) && offers_layouts(params[i], formats.offers@[i].modifiers@) by {
        assert(views[i] == params[i]@);
        assert(formats@.offers[i] == formats.offers@[i]@);
        lemma_offer(
            params[i],
            formats.size,
            formats.offers@[i].spa_format,
            formats.offers@[i].modifiers@,
            max_fps,
        );
    }
}

/// The layout to fall back on is the first one of the first offer of the format, and none where
/// that offer has none or the format is not on offer.
pub proof fn law_fallback_is_the_first_layout(
    formats: StreamFormatState,
    format: VideoFormat,
    modifier: Option<u64>,
    i: int,
)
    requires
        call_ensures(StreamFormatState::fallback_modifier, (&formats, format), modifier),
    ensures
        0 <= i < formats.offers@.len() && formats.offers@[i].spa_format == format && (forall|j: int|
            0 <= j < i ==> (#[trigger] formats.offers@[j]).spa_format != format) ==> modifier == (
        if formats.offers@[i].modifiers@.len() > 0 {
            Some(formats.offers@[i].modifiers@[0])
        } else {
            None
        }),
        (forall|j: int|
            0 <= j < formats.offers@.len() ==> (#[trigger] formats.offers@[j]).spa_format != format)
            ==> modifier is None,
{
    lemma_fallback(formats, format, i);
}

pub(crate) proof fn lemma_fallback(formats: StreamFormatState, format: VideoFormat, i: int)
    ensures
        0 <= i < formats.offers@.len() && formats.offers@[i].spa_format == format && (forall|j: int|
            0 <= j < i ==> (#[trigger] formats.offers@[j]).spa_format != format)
            ==> formats@.fallback(format) == (if formats.offers@[i].modifiers@.len() > 0 {
            Some(formats.offers@[i].modifiers@[0])
        } else {
            None
        }),
        (forall|j: int|
            0 <= j < formats.offers@.len() ==> (#[trigger] formats.offers@[j]).spa_format != format)
            ==> formats@.fallback(format) is None,
{
    let wanted = |o: OfferView| o.spa_format == format;
    let offers = formats@.offers;
    assert(offers.len() == formats.offers@.len());
    if 0 <= i < formats.offers@.len() && formats.offers@[i].spa_format == format && (forall|j: int|
        0 <= j < i ==> (#[trigger] formats.offers@[j]).spa_format != format) {
        assert(offers[i] == formats.offers@[i]@);
        assert forall|j: int| 0 <= j < i implies !wanted(#[trigger] offers[j]) by {
            assert(offers[j] == formats.offers@[j]@);
        }
        lemma_is_first_index(offers, wanted, i);
    }
    if forall|j: int|
        0 <= j < formats.offers@.len() ==> (#[trigger] formats.offers@[j]).spa_format != format {
        assert forall|j: int| 0 <= j < offers.len() implies !wanted(#[trigger] offers[j]) by {
            assert(offers[j] == formats.offers@[j]@);
        }
        lemma_is_first_index(offers, wanted, offers.len() as int);
    }
}

/// The words for why a screen cast has nothing to offer.
pub proof fn law_format_errors_are_told_apart(error: FormatError, text: &'static str)
    requires
        call_ensures(FormatError::message, (&error,), text),
    ensures
        error == FormatError::NoDmabufPath ==> text@
            == "compositor did not advertise a usable dma-buf capture path"@,
        error == FormatError::NoDmabufFormats ==> text@
            == "compositor did not advertise usable dma-buf formats and modifiers"@,
        error == FormatError::NoFormats ==> text@
            == "no capture formats could be mapped to pw spa video formats"@,
{
}

proof fn lemma_dmabuf_places(formats: Seq<DmabufFormatView>) -> (places: Seq<int>)
    ensures
        are_places(places, formats.len() as int),
        places.len() == dmabuf_offers(formats).len(),
        forall|j: int|
            0 <= j < places.len() ==> formats[#[trigger] places[j]].modifiers.len() > 0
                && dmabuf_offers(formats)[j].modifiers == formats[places[j]].modifiers && Some(
                dmabuf_offers(formats)[j].spa_format,
            ) == video_of_code(formats[places[j]].fourcc as int),
        forall|k: int|
            0 <= k < formats.len() && (#[trigger] formats[k]).modifiers.len() > 0 && video_of_code(
                formats[k].fourcc as int,
            ) is Some ==> places.contains(k),
    decreases formats.len(),
{
    if formats.len() == 0 {
        Seq::empty()
    } else {
        let init = formats.drop_last();
        let before = lemma_dmabuf_places(init);
        let last = formats.len() - 1;
        let places = if formats.last().modifiers.len() > 0 && video_of_code(
            formats.last().fourcc as int,
        ) is Some {
            before.push(last)
        } else {
            before
        };
        assert forall|j: int| 0 <= j < places.len() implies formats[#[trigger] places[j]].modifiers.len()
            > 0 && dmabuf_offers(formats)[j].modifiers == formats[places[j]].modifiers && Some(
            dmabuf_offers(formats)[j].spa_format,
        ) == video_of_code(formats[places[j]].fourcc as int) by {
            if j < before.len() {
                assert(before[j] == places[j]);
                assert(init[before[j]] == formats[places[j]]);
                assert(dmabuf_offers(formats)[j] == dmabuf_offers(init)[j]);
            }
        }
        assert forall|k: int|
            0 <= k < formats.len() && (#[trigger] formats[k]).modifiers.len() > 0 && video_of_code(
                formats[k].fourcc as int,
            ) is Some implies places.contains(k) by {
            if k < last {
                assert(init[k] == formats[k]);
                let j = choose|j: int| 0 <= j < before.len() && before[j] == k;
                assert(places[j] == k);
            } else {
                assert(places[before.len() as int] == last);
            }
        }
        places
    }
}

proof fn lemma_shm_places(offers: Seq<OfferView>, formats: Seq<ShmFormat>) -> (places: Seq<int>)
    requires
        forall|i: int| 0 <= i < offers.len() ==> (#[trigger] offers[i]).modifiers.len() > 0,
    ensures
        are_places(places, formats.len() as int),
        with_shm_offers(offers, formats).len() == offers.len() + places.len(),
        offers.is_prefix_of(with_shm_offers(offers, formats)),
        forall|j: int|
            0 <= j < places.len() ==> {
                let offer = with_shm_offers(offers, formats)[offers.len() + j];
                &&& offer.modifiers.len() == 0
                &&& Some(offer.spa_format) == video_of_pixel(formats[#[trigger] places[j]].format)
                &&& forall|k: int|
                    0 <= k < places[j] ==> video_of_pixel((#[trigger] formats[k]).format) != Some(
                        offer.spa_format,
                    )
            },
        forall|k: int|
            0 <= k < formats.len() && video_of_pixel((#[trigger] formats[k]).format) is Some ==> (
            places.contains(k) <==> forall|m: int|
                0 <= m < k ==> video_of_pixel((#[trigger] formats[m]).format) != video_of_pixel(
                    formats[k].format,
                )),
    decreases formats.len(),
{
    if formats.len() == 0 {
        Seq::empty()
    } else {
        let init = formats.drop_last();
        let before = lemma_shm_places(offers, init);
        let shown = with_shm_offers(offers, init);
        let all = with_shm_offers(offers, formats);
        let last = formats.len() - 1;
        let video = video_of_pixel(formats.last().format);
        let places = if video is Some && !offers_shm(shown, video->0) {
            before.push(last)
        } else {
            before
        };
        assert forall|m: int| 0 <= m < last implies #[trigger] init[m] == formats[m] by {}
        if video is Some {
            if exists|m: int|
                0 <= m < last && video_of_pixel((#[trigger] formats[m]).format) == video {
                let m = choose|m: int|
                    0 <= m < last && video_of_pixel((#[trigger] formats[m]).format) == video;
                assert(init[m] == formats[m]);
                lemma_shm_offer_of(offers, init, m);
                let i = choose|i: int|
                    0 <= i < shown.len() && (#[trigger] shown[i]).modifiers.len() == 0 && Some(
                        shown[i].spa_format,
                    ) == video_of_pixel(init[m].format);
                assert(offers_shm(shown, video->0));
            } else if offers_shm(shown, video->0) {
                let i = choose|i: int|
                    0 <= i < shown.len() && (#[trigger] shown[i]).spa_format == video->0
                        && shown[i].modifiers.len() == 0;
                if i < offers.len() {
                    assert(shown[i] == offers[i]);
                } else {
                    let j = i - offers.len();
                    let m = before[j];
                    assert(init[m] == formats[m]);
                    assert(video_of_pixel(formats[m].format) == video);
                }
            }
        }
        assert forall|j: int| 0 <= j < places.len() implies {
            let offer = all[offers.len() + j];
            &&& offer.modifiers.len() == 0
            &&& Some(offer.spa_format) == video_of_pixel(formats[#[trigger] places[j]].format)
            &&& forall|k: int|
                0 <= k < places[j] ==> video_of_pixel((#[trigger] formats[k]).format) != Some(
                    offer.spa_format,
                )
        } by {
            if j < before.len() {
                let m = before[j];
                assert(places[j] == m);
                assert(init[m] == formats[m]);
                assert(all[offers.len() + j] == shown[offers.len() + j]);
                assert forall|k: int| 0 <= k < m implies video_of_pixel(
                    (#[trigger] formats[k]).format,
                ) != Some(all[offers.len() + j].spa_format) by {
                    assert(init[k] == formats[k]);
                }
            } else {
                assert(all[offers.len() + j].spa_format == video->0);
            }
        }
        assert forall|k: int|
            0 <= k < formats.len() && video_of_pixel((#[trigger] formats[k]).format) is Some implies (
        places.contains(k) <==> forall|m: int|
            0 <= m < k ==> video_of_pixel((#[trigger] formats[m]).format) != video_of_pixel(
                formats[k].format,
            )) by {
            if k < last {
                assert(init[k] == formats[k]);
                if places.contains(k) {
                    let j = choose|j: int| 0 <= j < places.len() && places[j] == k;
                    assert(before[j] == k);
                    assert forall|m: int| 0 <= m < k implies video_of_pixel(
                        (#[trigger] formats[m]).format,
                    ) != video_of_pixel(formats[k].format) by {
                        assert(init[m] == formats[m]);
                    }
                }
                if forall|m: int|
                    0 <= m < k ==> video_of_pixel((#[trigger] formats[m]).format) != video_of_pixel(
                        formats[k].format,
                    ) {
                    assert forall|m: int| 0 <= m < k implies video_of_pixel(
                        (#[trigger] init[m]).format,
                    ) != video_of_pixel(init[k].format) by {
                        assert(init[m] == formats[m]);
                    }
                    let j = choose|j: int| 0 <= j < before.len() && before[j] == k;
                    assert(places[j] == k);
                }
            } else {
                if places.contains(k) {
                    let j = choose|j: int| 0 <= j < places.len() && places[j] == k;
                    assert(j == before.len());
                } else if video is Some && !offers_shm(shown, video->0) {
                    assert(places[before.len() as int] == last);
                }
            }
        }
        places
    }
}

/// The offers of a screen cast follow the probe: first those of the DMA-BUF formats that can be
/// offered, each once and in their order, then those of the shared-memory formats, each for the
/// first of its video format, in their order.
pub proof fn law_offers_follow_the_probe(
    probe: CaptureProbe,
    allow_shm: bool,
    formats: StreamFormatState,
) -> (places: (Seq<int>, Seq<int>))
    requires
        call_ensures(
            StreamFormatState::from_probe,
            (probe, allow_shm),
            Ok::<StreamFormatState, FormatError>(formats),
        ),
    ensures
        are_places(places.0, probe.dmabuf_formats@.len() as int),
        are_places(places.1, probe.shm_formats@.len() as int),
        formats.offers@.len() == places.0.len() + places.1.len(),
        !probe.has_dmabuf_device ==> places.0.len() == 0,
        !allow_shm ==> places.1.len() == 0,
        forall|j: int|
            0 <= j < places.0.len() ==> offers_dmabuf(
                formats.offers@[j],
                probe.dmabuf_formats@[#[trigger] places.0[j]],
            ),
        forall|k: int|
            probe.has_dmabuf_device && 0 <= k < probe.dmabuf_formats@.len() && is_usable(
                #[trigger] probe.dmabuf_formats@[k],
            ) ==> places.0.contains(k),
        forall|j: int|
            0 <= j < places.1.len() ==> offers_memory(
                formats.offers@[places.0.len() + j],
                probe.shm_formats@[#[trigger] places.1[j]],
            ),
        forall|k: int|
            allow_shm && 0 <= k < probe.shm_formats@.len() && video_of_pixel(
                (#[trigger] probe.shm_formats@[k]).format,
            ) is Some ==> (places.1.contains(k) <==> forall|m: int|
                0 <= m < k ==> video_of_pixel((#[trigger] probe.shm_formats@[m]).format)
                    != video_of_pixel(probe.shm_formats@[k].format)),
{
    let views = probe@.dmabuf_formats;
    let dmabuf = probed_dmabuf_offers(probe@);
    let all = formats@.offers;
    assert(all.len() == formats.offers@.len());
    assert(views.len() == probe.dmabuf_formats@.len());
    assert forall|i: int| 0 <= i < all.len() implies #[trigger] all[i] == formats.offers@[i]@ by {}
    assert forall|k: int| 0 <= k < views.len() implies #[trigger] views[k]
        == probe.dmabuf_formats@[k]@ by {}
    lemma_dmabuf_offers(views);
    let first = if dmabuf_available(probe@) {
        lemma_dmabuf_places(views)
    } else {
        Seq::empty()
    };
    let second = if allow_shm {
        lemma_shm_places(dmabuf, probe@.shm_formats)
    } else {
        Seq::empty()
    };
    assert(dmabuf.is_prefix_of(all));
    assert forall|j: int| 0 <= j < first.len() implies offers_dmabuf(
        formats.offers@[j],
        probe.dmabuf_formats@[#[trigger] first[j]],
    ) by {
        assert(all[j] == dmabuf[j]);
        assert(views[first[j]] == probe.dmabuf_formats@[first[j]]@);
    }
    assert forall|k: int|
        probe.has_dmabuf_device && 0 <= k < probe.dmabuf_formats@.len() && is_usable(
            #[trigger] probe.dmabuf_formats@[k],
        ) implies first.contains(k) by {
        assert(views[k] == probe.dmabuf_formats@[k]@);
    }
    assert forall|j: int| 0 <= j < second.len() implies offers_memory(
        formats.offers@[first.len() + j],
        probe.shm_formats@[#[trigger] second[j]],
    ) by {
        assert(all[first.len() + j] == formats.offers@[first.len() + j]@);
    }
    (first, second)
}

} // verus!
