//! A running screen cast: the buffers that its consumers share, what each of them has missed, and
//! the negotiation of their format.

use vstd::prelude::*;
use vstd::string::StringExecFns;

use crate::buffers::{BufferView, DirectCaptureBuffer, Plane};
use crate::capture::{CaptureError, CaptureErrorView, CaptureProbe, CaptureTarget};
use crate::damage::{
    clip_all,
    have_pixel,
    in_frame,
    is_too_much,
    law_common_frames_are_weighable,
    law_damage_only_grows,
    law_reported_damage_is_copied,
    lemma_added,
    lemma_copied,
    shows,
    DamageRect,
    DamageSet,
    DamageView,
};
use crate::formats::{
    code_of_video,
    pixel_of_video,
    spa_to_drm_fourcc,
    spa_to_shm_format,
    PixelFormat,
    ShmFormat,
    VideoFormat,
};
use crate::geometry::Size;
use crate::pod::{
    buffer_param,
    buffers_needed,
    countable,
    fixed_format_param,
    fixes_layout,
    fixes_size,
    has_rate,
    headers_of,
    is_countable,
    is_raw_video,
    law_settled_format_is_settled,
    lemma_buffers,
    lemma_settled,
    modifier_flags,
    needs_buffers,
    offers_layouts,
    offers_size,
    pod_modifier_flags,
    settled_format,
    PodKey,
    PodObject,
    PodView,
    PropertyFlags,
    SPA_DATA_DMA_BUF,
    SPA_DATA_MEM_FD,
};
use crate::search::{lemma_first_index, lemma_is_first_index};
use crate::stream_formats::{
    formats_of_probe,
    lemma_fallback,
    lemma_published,
    FormatError,
    FormatsView,
    StreamFormatState,
};
use crate::text::{decimal, push_decimal};

verus! {

/// The number that the media server gives to the parameter on the format.
pub const SPA_PARAM_FORMAT: u32 = 4;

/// A buffer of the stream, and the damage that it has missed.
#[derive(Debug)]
pub struct StreamBuffer {
    pub id: u64,
    pub capture: DirectCaptureBuffer,
    pub pending_damage: DamageSet,
}

/// What is known of a buffer.
#[verifier::ext_equal]
pub struct StreamBufferView {
    pub id: u64,
    pub capture: BufferView,
    pub pending_damage: DamageView,
}

impl View for StreamBuffer {
    type V = StreamBufferView;

    open spec fn view(&self) -> StreamBufferView {
        StreamBufferView {
            id: self.id,
            capture: self.capture@,
            pending_damage: self.pending_damage@,
        }
    }
}

/// A screen cast.
#[derive(Debug)]
pub struct StreamingData {
    pub target: CaptureTarget,
    pub overlay_cursor: bool,
    pub formats: StreamFormatState,
    pub chosen_format: Option<VideoFormat>,
    pub chosen_modifier: Option<u64>,
    pub allow_shm_fallback: bool,
    pub max_fps: u32,
    pub buffers: Vec<StreamBuffer>,
}

/// Where a screen cast stands.
#[verifier::ext_equal]
pub struct StreamView {
    pub target: CaptureTarget,
    pub overlay_cursor: bool,
    pub formats: FormatsView,
    pub chosen_format: Option<VideoFormat>,
    pub chosen_modifier: Option<u64>,
    pub allow_shm_fallback: bool,
    pub max_fps: u32,
    pub buffers: Seq<StreamBufferView>,
}

impl View for StreamingData {
    type V = StreamView;

    open spec fn view(&self) -> StreamView {
        StreamView {
            target: self.target,
            overlay_cursor: self.overlay_cursor,
            formats: self.formats@,
            chosen_format: self.chosen_format,
            chosen_modifier: self.chosen_modifier,
            allow_shm_fallback: self.allow_shm_fallback,
            max_fps: self.max_fps,
            buffers: self.buffers@.map_values(|b: StreamBuffer| b@),
        }
    }
}

/// No two buffers have the same number.
pub open spec fn distinct_ids(buffers: Seq<StreamBufferView>) -> bool {
    forall|i: int, j: int|
        0 <= i < j < buffers.len() ==> (#[trigger] buffers[i]).id != (#[trigger] buffers[j]).id
}

/// Whether a buffer with a number is there.
pub open spec fn holds_id(buffers: Seq<StreamBufferView>, id: u64) -> bool {
    exists|i: int| 0 <= i < buffers.len() && (#[trigger] buffers[i]).id == id
}

/// What a buffer has missed after a frame was captured into the buffer with a number: that one
/// nothing, any other also the damage of the frame.
pub open spec fn buffer_after_frame(
    buffer: StreamBufferView,
    id: u64,
    damage: Seq<DamageRect>,
    frame: Size,
) -> StreamBufferView {
    StreamBufferView {
        pending_damage: if buffer.id == id {
            DamageView::none()
        } else {
            buffer.pending_damage.with_damage(damage, frame)
        },
        ..buffer
    }
}

impl StreamView {
    /// No two buffers have the same number.
    pub open spec fn wf(self) -> bool {
        distinct_ids(self.buffers)
    }

    /// A screen cast before its first buffer.
    pub open spec fn fresh(
        formats: FormatsView,
        target: CaptureTarget,
        overlay_cursor: bool,
        allow_shm_fallback: bool,
        max_fps: u32,
    ) -> StreamView {
        StreamView {
            target,
            overlay_cursor,
            formats,
            chosen_format: None,
            chosen_modifier: None,
            allow_shm_fallback,
            max_fps,
            buffers: Seq::empty(),
        }
    }

    /// Whether every buffer but one can take note of the damage of a frame.
    pub open spec fn can_propagate(self, id: u64, damage: Seq<DamageRect>) -> bool {
        forall|i: int|
            0 <= i < self.buffers.len() && self.buffers[i].id != id ==> (
            #[trigger] self.buffers[i]).pending_damage.can_take(damage, self.formats.size)
    }

    /// The cast after a frame was captured into the buffer with a number.
    pub open spec fn after_frame(self, id: u64, damage: Seq<DamageRect>) -> StreamView {
        StreamView {
            buffers: self.buffers.map_values(
                |b: StreamBufferView| buffer_after_frame(b, id, damage, self.formats.size),
            ),
            ..self
        }
    }

    /// The cast with nothing in its buffers that can be relied on.
    pub open spec fn all_stale(self) -> StreamView {
        StreamView {
            buffers: self.buffers.map_values(
                |b: StreamBufferView|
                    StreamBufferView { pending_damage: DamageView::whole(), ..b },
            ),
            ..self
        }
    }

    /// The cast with a buffer, which has missed everything. One of the same number is replaced.
    pub open spec fn with_buffer(self, id: u64, capture: BufferView) -> StreamView {
        let fresh = StreamBufferView { id, capture, pending_damage: DamageView::whole() };
        StreamView {
            buffers: if holds_id(self.buffers, id) {
                self.buffers.map_values(
                    |b: StreamBufferView|
                        if b.id == id {
                            fresh
                        } else {
                            b
                        },
                )
            } else {
                self.buffers.push(fresh)
            },
            ..self
        }
    }

    /// The cast without the buffer with a number.
    pub open spec fn without_buffer(self, id: u64) -> StreamView {
        StreamView { buffers: self.buffers.filter(|b: StreamBufferView| b.id != id), ..self }
    }
}

/// What to do with the buffer that the stream gave out.
#[derive(Debug)]
pub enum ProcessStep {
    /// There is none.
    Idle,
    /// Nothing can be captured into it: give it back.
    Requeue,
    /// Capture these rectangles into it.
    Capture(Vec<DamageRect>),
}

/// What to do before the buffer goes back to the stream.
#[derive(Debug, Clone, Copy, PartialEq, Eq, Structural)]
pub enum AfterCapture {
    Nothing,
    /// Probe the target again: its buffers have to be different.
    Reprobe,
    /// Stop the stream: its target is gone.
    Deactivate,
}

/// What to do after a capture failed.
pub open spec fn reaction(error: CaptureErrorView) -> AfterCapture {
    match error {
        CaptureErrorView::BufferConstraints => AfterCapture::Reprobe,
        CaptureErrorView::Stopped => AfterCapture::Deactivate,
        _ => AfterCapture::Nothing,
    }
}

impl StreamingData {
    /// A screen cast before its first buffer.
    pub fn new(
        formats: StreamFormatState,
        target: CaptureTarget,
        overlay_cursor: bool,
        allow_shm_fallback: bool,
        max_fps: u32,
    ) -> (cast: Self)
        ensures
            cast@ == StreamView::fresh(
                formats@,
                target,
                overlay_cursor,
                allow_shm_fallback,
                max_fps,
            ),
            cast@.wf(),
    {
        let cast = StreamingData {
            target,
            overlay_cursor,
            formats,
            chosen_format: None,
            chosen_modifier: None,
            allow_shm_fallback,
            max_fps,
            buffers: Vec::new(),
        };
        assert(cast@.buffers == Seq::<StreamBufferView>::empty());
        cast
    }

    /// What to do with the buffer that the stream gave out, if it did.
    pub fn process(&self, dequeued: Option<u64>) -> (step: ProcessStep)
        requires
            self@.wf(),
        ensures
            match dequeued {
                None => step is Idle,
                Some(id) => if holds_id(self@.buffers, id) {
                    step matches ProcessStep::Capture(rects) && exists|i: int|
                        0 <= i < self@.buffers.len() && (#[trigger] self@.buffers[i]).id == id
                            && rects@ == self@.buffers[i].pending_damage.rects_for(
                            self@.buffers[i].capture.extent(),
                        )
                } else {
                    step is Requeue
                },
            },
    {
        let id: u64 = match dequeued {
            Some(id) => id,
            None => {
                return ProcessStep::Idle;
            },
        };
        match self.find_buffer(id) {
            Some(i) => {
                assert(self@.buffers[i as int] == self.buffers@[i as int]@);
                let buffer: &StreamBuffer = &self.buffers[i];
                ProcessStep::Capture(buffer.capture.damage_to_capture(&buffer.pending_damage))
            },
            None => ProcessStep::Requeue,
        }
    }

    fn find_buffer(&self, id: u64) -> (found: Option<usize>)
        ensures
            match found {
                Some(i) => i < self@.buffers.len() && self@.buffers[i as int].id == id,
                None => !holds_id(self@.buffers, id),
            },
    {
        let mut i: usize = 0;
        while i < self.buffers.len()
            invariant
                i <= self.buffers@.len(),
                forall|j: int| 0 <= j < i ==> (#[trigger] self@.buffers[j]).id != id,
            decreases self.buffers@.len() - i,
        {
            assert(self@.buffers[i as int] == self.buffers@[i as int]@);
            if self.buffers[i].id == id {
                return Some(i);
            }
            i += 1;
        }
        None
    }

    /// Whether every buffer but one can take note of the damage of a frame.
    pub fn can_propagate(&self, id: u64, damage: &Vec<DamageRect>) -> (can: bool)
        ensures
            can == self@.can_propagate(id, damage@),
    {
        let mut i: usize = 0;
        while i < self.buffers.len()
            invariant
                i <= self.buffers@.len(),
                forall|j: int|
                    0 <= j < i && self@.buffers[j].id != id ==> (
                    #[trigger] self@.buffers[j]).pending_damage.can_take(
                        damage@,
                        self@.formats.size,
                    ),
            decreases self.buffers@.len() - i,
        {
            assert(self@.buffers[i as int] == self.buffers@[i as int]@);
            if self.buffers[i].id != id && !self.buffers[i].pending_damage.can_take(
                damage.as_slice(),
                self.formats.size,
            ) {
                return false;
            }
            i += 1;
        }
        true
    }

    /// Takes note of how a capture into a buffer ended, and says what to do.
    pub fn captured(
        &mut self,
        id: u64,
        outcome: Result<Vec<DamageRect>, CaptureError>,
    ) -> (next: AfterCapture)
        requires
            outcome matches Ok(damage) ==> old(self)@.can_propagate(id, damage@),
        ensures
            match outcome {
                Ok(damage) => {
                    &&& final(self)@ == old(self)@.after_frame(id, damage@)
                    &&& next == AfterCapture::Nothing
                },
                Err(error) => {
                    &&& final(self)@ == old(self)@
                    &&& next == reaction(error@)
                },
            },
    {
        match outcome {
            Ok(damage) => {
                self.update_buffer_damage(id, &damage);
                AfterCapture::Nothing
            },
            Err(CaptureError::BufferConstraints) => AfterCapture::Reprobe,
            Err(CaptureError::Stopped) => AfterCapture::Deactivate,
            Err(_) => AfterCapture::Nothing,
        }
    }

    /// Takes note of the damage of a frame that was captured into the buffer with a number.
    pub fn update_buffer_damage(&mut self, id: u64, damage: &Vec<DamageRect>)
        requires
            old(self)@.can_propagate(id, damage@),
        ensures
            final(self)@ == old(self)@.after_frame(id, damage@),
    {
        let ghost start = self@;
        let frame: Size = self.formats.size;
        let mut i: usize = 0;
        while i < self.buffers.len()
            invariant
                i <= self.buffers@.len(),
                start == old(self)@,
                start.can_propagate(id, damage@),
                frame == start.formats.size,
                self@ == (StreamView { buffers: self@.buffers, ..start }),
                self@.buffers.len() == start.buffers.len(),
                forall|j: int|
                    0 <= j < i ==> #[trigger] self@.buffers[j] == buffer_after_frame(
                        start.buffers[j],
                        id,
                        damage@,
                        frame,
                    ),
                forall|j: int|
                    i <= j < start.buffers.len() ==> #[trigger] self@.buffers[j]
                        == start.buffers[j],
            decreases self.buffers@.len() - i,
        {
            let ghost before = self@.buffers;
            assert(before[i as int] == self.buffers@[i as int]@);
            assert(start.buffers[i as int] == before[i as int]);
            if self.buffers[i].id == id {
                self.buffers[i].pending_damage = DamageSet::empty();
            } else {
                self.buffers[i].pending_damage.add_many(damage.as_slice(), frame);
            }
            assert(self@.buffers == before.update(
                i as int,
                buffer_after_frame(start.buffers[i as int], id, damage@, frame),
            ));
            i += 1;
        }
        assert(self@.buffers == start.after_frame(id, damage@).buffers);
    }

    /// Takes note that nothing in the buffers can be relied on.
    pub fn reset_buffer_damage(&mut self)
        ensures
            final(self)@ == old(self)@.all_stale(),
    {
        let ghost start = self@;
        let mut i: usize = 0;
        while i < self.buffers.len()
            invariant
                i <= self.buffers@.len(),
                start == old(self)@,
                self@ == (StreamView { buffers: self@.buffers, ..start }),
                self@.buffers.len() == start.buffers.len(),
                forall|j: int|
                    0 <= j < i ==> #[trigger] self@.buffers[j] == (StreamBufferView {
                        pending_damage: DamageView::whole(),
                        ..start.buffers[j]
                    }),
                forall|j: int|
                    i <= j < start.buffers.len() ==> #[trigger] self@.buffers[j]
                        == start.buffers[j],
            decreases self.buffers@.len() - i,
        {
            let ghost before = self@.buffers;
            assert(before[i as int] == self.buffers@[i as int]@);
            self.buffers[i].pending_damage = DamageSet::full();
            assert(self@.buffers == before.update(
                i as int,
                StreamBufferView { pending_damage: DamageView::whole(), ..before[i as int] },
            ));
            i += 1;
        }
        assert(self@.buffers == start.all_stale().buffers);
    }

    /// Takes up what a new probe of the target found. The parameters offer the formats anew.
    pub fn reprobed(&mut self, probe: CaptureProbe) -> (params: Result<Vec<PodObject>, FormatError>)
        ensures
            match formats_of_probe(probe@, old(self)@.allow_shm_fallback) {
                Ok(formats) => {
                    &&& final(self)@ == (StreamView { formats, ..old(self)@ }).all_stale()
                    &&& params matches Ok(p) && p@.map_values(|o: PodObject| o@)
                        == formats.params(old(self)@.max_fps)
                },
                Err(error) => {
                    &&& final(self)@ == old(self)@
                    &&& params matches Err(e) && e == error
                },
            },
    {
        match StreamFormatState::from_probe(probe, self.allow_shm_fallback) {
            Ok(formats) => {
                self.formats = formats;
                assert(self@ == (StreamView { formats: formats@, ..old(self)@ }));
                self.reset_buffer_damage();
                Ok(self.formats.format_params(self.max_fps))
            },
            Err(error) => Err(error),
        }
    }
}

/// Why the stream's own memory was not taken for a buffer.
#[derive(Debug, Clone, Copy, PartialEq, Eq, Structural)]
pub enum Refusal {
    /// The stream did not ask for a DMA-BUF, and shared memory is not allowed.
    ShmDisabled { first_type: Option<u32> },
    /// A buffer in shared memory is one block.
    NotOneBlock { blocks: usize },
}

/// The words for a number that may be missing.
pub open spec fn optional_number(number: Option<u32>) -> Seq<char> {
    match number {
        Some(n) => "Some("@ + decimal(n as nat) + ")"@,
        None => "None"@,
    }
}

impl Refusal {
    /// The words for why the memory was not taken.
    pub open spec fn words(self) -> Seq<char> {
        match self {
            Refusal::ShmDisabled { first_type } => {
                "pw did not allocate dma-buf although shm fallback is disabled; datas[0].type="@
                    + optional_number(first_type)
            },
            Refusal::NotOneBlock { blocks } => "expected one shm pw data block, got "@ + decimal(
                blocks as nat,
            ),
        }
    }

    /// Says why the memory was not taken.
    pub fn message(&self) -> (text: String)
        ensures
            text@ == self.words(),
    {
        match self {
            Refusal::ShmDisabled { first_type } => {
                let mut text: String =
                    "pw did not allocate dma-buf although shm fallback is disabled; datas[0].type=".to_owned();
                match first_type {
                    Some(n) => {
                        text.append("Some(");
                        push_decimal(&mut text, *n as u64);
                        text.append(")");
                    },
                    None => {
                        text.append("None");
                    },
                }
                assert(text@ == self.words());
                text
            },
            Refusal::NotOneBlock { blocks } => {
                let mut text: String = "expected one shm pw data block, got ".to_owned();
                push_decimal(&mut text, *blocks as u64);
                text
            },
        }
    }
}

/// What kind of buffer to make for the stream.
#[derive(Debug, Clone, Copy, PartialEq, Eq, Structural)]
pub enum BufferPlan {
    /// A DMA-BUF, of this format and layout where they are known.
    Dmabuf { fourcc: Option<u32>, modifier: Option<u64> },
    /// Shared memory of so many bytes, of this format where one is known.
    Shm { preferred: Option<PixelFormat>, bytes: u32 },
    Refused(Refusal),
}

/// A block of memory as the stream is told of it.
#[derive(Debug, Clone, Copy, PartialEq, Eq, Structural)]
pub struct DataBlock {
    pub data_type: u32,
    pub max_size: u32,
    pub chunk_size: u32,
    pub chunk_offset: u32,
    pub chunk_stride: i32,
}

/// Why a DMA-BUF does not fit the blocks that the stream has for it.
#[derive(Debug, Clone, Copy, PartialEq, Eq, Structural)]
pub enum BlockError {
    NotDmabuf,
    PlaneCount { blocks: usize, planes: usize },
}

impl BlockError {
    /// The words for why the buffer does not fit.
    pub open spec fn words(self) -> Seq<char> {
        match self {
            BlockError::NotDmabuf => {
                "dma-buf capture allocation returned a non-dma-buf buffer"@
            },
            BlockError::PlaneCount { blocks, planes } => "pw allocated "@ + decimal(blocks as nat)
                + " dma-buf data blocks, but gbm buffer has "@ + decimal(planes as nat)
                + " planes"@,
        }
    }

    /// Says why the buffer does not fit.
    pub fn message(&self) -> (text: String)
        ensures
            text@ == self.words(),
    {
        match self {
            BlockError::NotDmabuf => {
                "dma-buf capture allocation returned a non-dma-buf buffer".to_owned()
            },
            BlockError::PlaneCount { blocks, planes } => {
                let mut text: String = "pw allocated ".to_owned();
                push_decimal(&mut text, *blocks as u64);
                text.append(" dma-buf data blocks, but gbm buffer has ");
                push_decimal(&mut text, *planes as u64);
                text.append(" planes");
                text
            },
        }
    }
}

/// Whether the stream asks for a DMA-BUF: the bit of DMA-BUFs is set for the first block.
pub open spec fn asks_for_dmabuf(block_types: Seq<u32>) -> bool {
    block_types.len() > 0 && block_types[0] & (1u32 << SPA_DATA_DMA_BUF) != 0
}

/// The bytes of a frame at four bytes for each pixel.
pub open spec fn frame_bytes(size: Size) -> int {
    size.area() * 4
}

/// Whether the bytes of a frame, and of a row of it, can be counted in 32 bits. The stream counts
/// those of a row with a sign.
pub open spec fn fits_shm_block(size: Size) -> bool {
    &&& frame_bytes(size) <= u32::MAX
    &&& i32::MIN <= 4 * (size.width as i32) <= i32::MAX
}

/// The one block of a buffer in shared memory.
pub open spec fn shm_block_of(size: Size) -> DataBlock {
    DataBlock {
        data_type: SPA_DATA_MEM_FD,
        max_size: frame_bytes(size) as u32,
        chunk_size: frame_bytes(size) as u32,
        chunk_offset: 0,
        chunk_stride: (4 * (size.width as i32)) as i32,
    }
}

/// Whether the bytes of a plane of a frame can be counted in 32 bits.
pub open spec fn fits_plane_block(size: Size, plane: Plane) -> bool {
    &&& frame_bytes(size) <= u32::MAX
    &&& size.height * plane.stride <= u32::MAX
}

/// The block of a plane of a DMA-BUF.
pub open spec fn plane_block_of(size: Size, plane: Plane) -> DataBlock {
    DataBlock {
        data_type: SPA_DATA_DMA_BUF,
        max_size: frame_bytes(size) as u32,
        chunk_size: (size.height * plane.stride) as u32,
        chunk_offset: plane.offset,
        chunk_stride: plane.stride as i32,
    }
}

impl StreamView {
    /// Whether the next buffer is a DMA-BUF.
    pub open spec fn takes_dmabuf(self, block_types: Seq<u32>) -> bool {
        asks_for_dmabuf(block_types) && self.formats.dmabuf_supported
    }

    /// Whether the next buffer is shared memory.
    pub open spec fn takes_shm(self, block_types: Seq<u32>) -> bool {
        !self.takes_dmabuf(block_types) && self.allow_shm_fallback && block_types.len() == 1
    }

    /// The layout to ask for: the one settled on, or else the first on offer for the format.
    pub open spec fn wanted_modifier(self) -> Option<u64> {
        match self.chosen_modifier {
            Some(modifier) => Some(modifier),
            None => match self.chosen_format {
                Some(format) => self.formats.fallback(format),
                None => None,
            },
        }
    }

    /// The code of the format that was settled on.
    pub open spec fn wanted_fourcc(self) -> Option<u32> {
        match self.chosen_format {
            Some(format) => match code_of_video(format) {
                Some(code) => Some(code as u32),
                None => None,
            },
            None => None,
        }
    }

    /// What kind of buffer to make.
    pub open spec fn plan(self, block_types: Seq<u32>) -> BufferPlan {
        if self.takes_dmabuf(block_types) {
            BufferPlan::Dmabuf { fourcc: self.wanted_fourcc(), modifier: self.wanted_modifier() }
        } else if !self.allow_shm_fallback {
            BufferPlan::Refused(
                Refusal::ShmDisabled {
                    first_type: if block_types.len() > 0 {
                        Some(block_types[0])
                    } else {
                        None
                    },
                },
            )
        } else if block_types.len() != 1 {
            BufferPlan::Refused(Refusal::NotOneBlock { blocks: block_types.len() as usize })
        } else {
            BufferPlan::Shm {
                preferred: match self.chosen_format {
                    Some(format) => pixel_of_video(format),
                    None => None,
                },
                bytes: frame_bytes(self.formats.size) as u32,
            }
        }
    }
}

fn count_frame_bytes(size: Size) -> (bytes: u32)
    requires
        frame_bytes(size) <= u32::MAX,
    ensures
        bytes == frame_bytes(size),
{
    assert(0 <= size.area()) by (nonlinear_arith)
        requires
            size.area() == size.width * size.height,
            size.width >= 0,
            size.height >= 0,
    ;
    size.width * size.height * 4
}

fn frame_fits(size: Size) -> (fits: bool)
    ensures
        fits == (frame_bytes(size) <= u32::MAX),
{
    assert(0 <= size.area()) by (nonlinear_arith)
        requires
            size.area() == size.width * size.height,
            size.width >= 0,
            size.height >= 0,
    ;
    match size.width.checked_mul(size.height) {
        Some(pixels) => pixels.checked_mul(4).is_some(),
        None => false,
    }
}

/// Whether the bytes of a frame, and of a row of it, can be counted in a block.
pub fn can_lay_out_shm(size: Size) -> (fits: bool)
    ensures
        fits == fits_shm_block(size),
{
    frame_fits(size) && (size.width as i32).checked_mul(4).is_some()
}

/// The block of a buffer in shared memory.
pub fn shm_block(size: Size) -> (block: DataBlock)
    requires
        fits_shm_block(size),
    ensures
        block == shm_block_of(size),
{
    let bytes: u32 = count_frame_bytes(size);
    DataBlock {
        data_type: SPA_DATA_MEM_FD,
        max_size: bytes,
        chunk_size: bytes,
        chunk_offset: 0,
        chunk_stride: 4 * (size.width as i32),
    }
}

/// Whether the bytes of every plane of a DMA-BUF can be counted in its block, where each plane has
/// one.
pub open spec fn countable_planes(buffer: BufferView, blocks: int, planes: Seq<Plane>) -> bool {
    buffer is Dmabuf && blocks == planes.len() ==> forall|i: int|
        0 <= i < planes.len() ==> fits_plane_block(buffer.extent(), #[trigger] planes[i])
}

/// Whether the bytes of every plane of a DMA-BUF can be counted in its block, where each plane has
/// one.
pub fn can_lay_out_planes(
    buffer: &DirectCaptureBuffer,
    blocks: usize,
    planes: &Vec<Plane>,
) -> (fits: bool)
    ensures
        fits == countable_planes(buffer@, blocks as int, planes@),
{
    let size: Size = match buffer {
        DirectCaptureBuffer::Dmabuf { format, .. } => format.size,
        DirectCaptureBuffer::Shm { .. } => {
            return true;
        },
    };
    if blocks != planes.len() {
        return true;
    }
    let mut i: usize = 0;
    while i < planes.len()
        invariant
            i <= planes@.len(),
            blocks == planes@.len(),
            buffer@ is Dmabuf,
            size == buffer@.extent(),
            forall|j: int| 0 <= j < i ==> fits_plane_block(size, #[trigger] planes@[j]),
        decreases planes@.len() - i,
    {
        let fits: bool = frame_fits(size) && size.height.checked_mul(planes[i].stride).is_some();
        assert(fits == fits_plane_block(size, planes@[i as int])) by {
            assert(0 <= size.height * planes@[i as int].stride) by (nonlinear_arith)
                requires
                    0 <= size.height,
                    0 <= planes@[i as int].stride,
            ;
        }
        if !fits {
            return false;
        }
        i += 1;
    }
    true
}

/// The blocks of a DMA-BUF, one for each of its planes.
pub fn dmabuf_blocks(
    buffer: &DirectCaptureBuffer,
    blocks: usize,
    planes: &Vec<Plane>,
) -> (laid_out: Result<Vec<DataBlock>, BlockError>)
    requires
        countable_planes(buffer@, blocks as int, planes@),
    ensures
        match laid_out {
            Ok(list) => {
                &&& buffer@ is Dmabuf
                &&& blocks == planes@.len()
                &&& list@ == planes@.map_values(|p: Plane| plane_block_of(buffer@.extent(), p))
            },
            Err(BlockError::NotDmabuf) => !(buffer@ is Dmabuf),
            Err(BlockError::PlaneCount { blocks: had, planes: needed }) => {
                &&& buffer@ is Dmabuf
                &&& blocks != planes@.len()
                &&& had == blocks
                &&& needed == planes@.len()
            },
        },
{
    let size: Size = match buffer {
        DirectCaptureBuffer::Dmabuf { format, .. } => format.size,
        DirectCaptureBuffer::Shm { .. } => {
            return Err(BlockError::NotDmabuf);
        },
    };
    if blocks != planes.len() {
        return Err(BlockError::PlaneCount { blocks, planes: planes.len() });
    }
    let mut list: Vec<DataBlock> = Vec::new();
    let mut i: usize = 0;
    while i < planes.len()
        invariant
            i <= planes@.len(),
            size == buffer@.extent(),
            forall|j: int|
                0 <= j < planes@.len() ==> fits_plane_block(size, #[trigger] planes@[j]),
            list@ == planes@.take(i as int).map_values(|p: Plane| plane_block_of(size, p)),
        decreases planes@.len() - i,
    {
        let ghost before = list@;
        let plane: Plane = planes[i];
        let bytes: u32 = count_frame_bytes(size);
        proof {
            assert(fits_plane_block(size, planes@[i as int]));
            assert(0 <= size.height * plane.stride) by (nonlinear_arith)
                requires
                    size.height >= 0,
                    plane.stride >= 0,
            ;
        }
        let block = DataBlock {
            data_type: SPA_DATA_DMA_BUF,
            max_size: bytes,
            chunk_size: size.height * plane.stride,
            chunk_offset: plane.offset,
            chunk_stride: plane.stride as i32,
        };
        list.push(block);
        assert(block == plane_block_of(size, plane));
        assert(planes@.take(i + 1).map_values(|p: Plane| plane_block_of(size, p)) == before.push(
            block,
        ));
        i += 1;
    }
    assert(planes@.take(i as int) == planes@);
    Ok(list)
}

impl StreamingData {
    fn wants_dmabuf(&self, block_types: &Vec<u32>) -> (wants: bool)
        ensures
            wants == self@.takes_dmabuf(block_types@),
    {
        block_types.len() > 0 && block_types[0] & (1u32 << SPA_DATA_DMA_BUF) != 0
            && self.formats.dmabuf_supported
    }

    /// Whether the bytes of the buffer that `plan_buffer` plans can be counted.
    pub fn can_plan_buffer(&self, block_types: &Vec<u32>) -> (can: bool)
        ensures
            can == (self@.takes_shm(block_types@) ==> frame_bytes(self@.formats.size) <= u32::MAX),
    {
        self.wants_dmabuf(block_types) || !self.allow_shm_fallback || block_types.len() != 1
            || frame_fits(self.formats.size)
    }

    /// What kind of buffer to make, given the types that the stream accepts for each block.
    pub fn plan_buffer(&self, block_types: &Vec<u32>) -> (plan: BufferPlan)
        requires
            self@.takes_shm(block_types@) ==> frame_bytes(self@.formats.size) <= u32::MAX,
        ensures
            plan == self@.plan(block_types@),
    {
        if self.wants_dmabuf(block_types) {
            let fourcc: Option<u32> = match self.chosen_format {
                Some(format) => spa_to_drm_fourcc(format),
                None => None,
            };
            let modifier: Option<u64> = match self.chosen_modifier {
                Some(modifier) => Some(modifier),
                None => match self.chosen_format {
                    Some(format) => self.formats.fallback_modifier(format),
                    None => None,
                },
            };
            return BufferPlan::Dmabuf { fourcc, modifier };
        }
        if !self.allow_shm_fallback {
            let first_type: Option<u32> = if block_types.len() > 0 {
                Some(block_types[0])
            } else {
                None
            };
            return BufferPlan::Refused(Refusal::ShmDisabled { first_type });
        }
        if block_types.len() != 1 {
            return BufferPlan::Refused(Refusal::NotOneBlock { blocks: block_types.len() });
        }
        let preferred: Option<PixelFormat> = match self.chosen_format {
            Some(format) => spa_to_shm_format(format),
            None => None,
        };
        BufferPlan::Shm { preferred, bytes: count_frame_bytes(self.formats.size) }
    }

    /// Takes up a buffer that was made for the stream.
    pub fn attach_capture_buffer(&mut self, id: u64, capture: DirectCaptureBuffer)
        requires
            old(self)@.wf(),
        ensures
            final(self)@ == old(self)@.with_buffer(id, capture@),
            final(self)@.wf(),
    {
        let ghost before = self@.buffers;
        let fresh = StreamBuffer { id, capture, pending_damage: DamageSet::full() };
        let ghost view = fresh@;
        match self.find_buffer(id) {
            Some(i) => {
                self.buffers.set(i, fresh);
                assert(self@.buffers == before.update(i as int, view));
                assert(self@.buffers == old(self)@.with_buffer(id, capture@).buffers);
            },
            None => {
                self.buffers.push(fresh);
                assert(self@.buffers == before.push(view));
            },
        }
    }

    /// Gives up a buffer and the descriptors of its blocks. Says which descriptors to close.
    pub fn remove_buffer(&mut self, id: u64, fds: &mut Vec<i64>) -> (to_close: Vec<i32>)
        requires
            old(self)@.wf(),
        ensures
            final(self)@ == old(self)@.without_buffer(id),
            final(self)@.wf(),
            !holds_id(final(self)@.buffers, id),
            to_close@ == closable(old(fds)@),
            final(fds)@ == released(old(fds)@),
    {
        self.drop_buffer(id);
        release_fds(fds)
    }

    fn drop_buffer(&mut self, id: u64)
        requires
            old(self)@.wf(),
        ensures
            final(self)@ == old(self)@.without_buffer(id),
            final(self)@.wf(),
            !holds_id(final(self)@.buffers, id),
    {
        let ghost before = self@.buffers;
        let ghost others = |b: StreamBufferView| b.id != id;
        match self.find_buffer(id) {
            Some(i) => {
                self.buffers.remove(i);
                proof {
                    assert(self@.buffers == before.remove(i as int));
                    lemma_filter_one_out(before, others, i as int);
                }
            },
            None => {
                proof {
                    lemma_filter_all_in(before, others);
                }
            },
        }
    }
}

proof fn lemma_filter_all_in(s: Seq<StreamBufferView>, keep: spec_fn(StreamBufferView) -> bool)
    requires
        forall|i: int| 0 <= i < s.len() ==> keep(#[trigger] s[i]),
    ensures
        s.filter(keep) == s,
    decreases s.len(),
{
    reveal(Seq::filter);
    if s.len() > 0 {
        assert(keep(s[s.len() - 1]));
        lemma_filter_all_in(s.drop_last(), keep);
    }
}

proof fn lemma_filter_one_out(
    s: Seq<StreamBufferView>,
    keep: spec_fn(StreamBufferView) -> bool,
    out: int,
)
    requires
        0 <= out < s.len(),
        forall|i: int| 0 <= i < s.len() ==> (keep(#[trigger] s[i]) <==> i != out),
    ensures
        s.filter(keep) == s.remove(out),
    decreases s.len(),
{
    reveal(Seq::filter);
    let init = s.drop_last();
    assert(keep(s[s.len() - 1]) <==> s.len() - 1 != out);
    if out == s.len() - 1 {
        lemma_filter_all_in(init, keep);
        assert(s.remove(out) == init);
    } else {
        lemma_filter_one_out(init, keep, out);
        assert(s.remove(out) == init.remove(out).push(s.last()));
    }
}

/// The descriptors that can be closed, in order.
pub open spec fn closable(fds: Seq<i64>) -> Seq<i32>
    decreases fds.len(),
{
    if fds.len() == 0 {
        Seq::empty()
    } else if 0 <= fds.last() <= i32::MAX {
        closable(fds.drop_last()).push(fds.last() as i32)
    } else {
        closable(fds.drop_last())
    }
}

/// The descriptors once they were given up: none is left.
pub open spec fn released(fds: Seq<i64>) -> Seq<i64> {
    fds.map_values(
        |fd: i64|
            if fd >= 0 {
                -1i64
            } else {
                fd
            },
    )
}

fn release_fds(fds: &mut Vec<i64>) -> (to_close: Vec<i32>)
    ensures
        to_close@ == closable(old(fds)@),
        final(fds)@ == released(old(fds)@),
{
    let ghost start = fds@;
    let mut to_close: Vec<i32> = Vec::new();
    let mut i: usize = 0;
    while i < fds.len()
        invariant
            i <= fds@.len(),
            start == old(fds)@,
            fds@.len() == start.len(),
            to_close@ == closable(start.take(i as int)),
            forall|j: int| 0 <= j < i ==> #[trigger] fds@[j] == released(start)[j],
            forall|j: int| i <= j < start.len() ==> #[trigger] fds@[j] == start[j],
        decreases fds@.len() - i,
    {
        assert(start.take(i + 1).drop_last() == start.take(i as int));
        let fd: i64 = fds[i];
        if fd >= 0 {
            if fd <= i32::MAX as i64 {
                to_close.push(fd as i32);
            }
            fds.set(i, -1);
        }
        i += 1;
    }
    assert(start.take(i as int) == start);
    assert(fds@ == released(start));
    to_close
}

/// A parameter that the stream changed.
#[derive(Debug)]
pub enum FormatParam {
    /// The parameter was taken back.
    Missing,
    /// It does not describe a raw video format.
    Unparsable,
    /// A raw video format, with the keys and flags of the properties that describe it.
    Video { format: VideoFormat, modifier: u64, headers: Vec<(PodKey, PropertyFlags)> },
}

/// What to tell the stream once its format has changed.
#[derive(Debug)]
pub enum ParamStep {
    Nothing,
    /// The format could not be read.
    Unparsable,
    /// The format has no code, so no DMA-BUF can be made of it.
    NoFourcc(VideoFormat),
    /// Count the planes of a DMA-BUF, and go on with `planes_counted`.
    CountPlanes { fourcc: u32, modifier: u64 },
    /// Publish these parameters.
    Publish(Vec<PodObject>),
}

/// Whether a changed format needs buffers in shared memory.
pub open spec fn ends_in_shm(id: u32, param: FormatParam) -> bool {
    id == SPA_PARAM_FORMAT && (param matches FormatParam::Video { headers, .. } && modifier_flags(
        headers@,
    ) is None)
}

impl StreamView {
    /// The cast with a format that was settled on.
    pub open spec fn with_choice(
        self,
        format: VideoFormat,
        modifier: Option<u64>,
    ) -> StreamView {
        StreamView { chosen_format: Some(format), chosen_modifier: modifier, ..self }
    }

    /// The parameters that settle on a layout: the format with it, then all that is on offer.
    pub open spec fn settling_params(self, format: VideoFormat, modifier: u64) -> Seq<PodView> {
        seq![settled_format(self.formats.size, format, modifier, self.max_fps)]
            + self.formats.params(self.max_fps)
    }
}

impl StreamingData {
    /// Whether the buffers that a changed parameter asks for can be counted.
    pub fn can_change_param(&self, id: u32, param: &FormatParam) -> (can: bool)
        ensures
            can == (ends_in_shm(id, *param) ==> countable(
                self@.formats.size.width,
                self@.formats.size.height,
            )),
    {
        match param {
            FormatParam::Video { headers, .. } => id != SPA_PARAM_FORMAT || pod_modifier_flags(
                headers,
            ).is_some() || is_countable(self.formats.size.width, self.formats.size.height),
            _ => true,
        }
    }

    /// Takes note of a parameter that the stream changed, and says what to tell it.
    pub fn param_changed(&mut self, id: u32, param: FormatParam) -> (step: ParamStep)
        requires
            ends_in_shm(id, param) ==> countable(
                old(self)@.formats.size.width,
                old(self)@.formats.size.height,
            ),
        ensures
            if id != SPA_PARAM_FORMAT {
                step is Nothing && final(self)@ == old(self)@
            } else {
                match param {
                    FormatParam::Missing => step is Nothing && final(self)@ == old(self)@,
                    FormatParam::Unparsable => step is Unparsable && final(self)@ == old(self)@,
                    FormatParam::Video { format, modifier, headers } => match modifier_flags(
                        headers@,
                    ) {
                        None => {
                            &&& final(self)@ == old(self)@.with_choice(format, None)
                            &&& step matches ParamStep::Publish(params) && params@.map_values(
                                |p: PodObject| p@,
                            ) == seq![
                                buffers_needed(
                                    old(self)@.formats.size.width,
                                    old(self)@.formats.size.height,
                                    1,
                                    false,
                                ),
                            ]
                        },
                        Some(flags) => if flags.dont_fixate {
                            &&& final(self)@ == old(self)@.with_choice(
                                format,
                                old(self)@.chosen_modifier,
                            )
                            &&& step matches ParamStep::Publish(params) && params@.map_values(
                                |p: PodObject| p@,
                            ) == old(self)@.settling_params(format, modifier)
                        } else {
                            &&& final(self)@ == old(self)@.with_choice(format, Some(modifier))
                            &&& match code_of_video(format) {
                                Some(code) => step == (ParamStep::CountPlanes {
                                    fourcc: code as u32,
                                    modifier,
                                }),
                                None => step == ParamStep::NoFourcc(format),
                            }
                        },
                    },
                }
            },
    {
        if id != SPA_PARAM_FORMAT {
            return ParamStep::Nothing;
        }
        match param {
            FormatParam::Missing => ParamStep::Nothing,
            FormatParam::Unparsable => ParamStep::Unparsable,
            FormatParam::Video { format, modifier, headers } => {
                self.chosen_format = Some(format);
                match pod_modifier_flags(&headers) {
                    None => {
                        self.chosen_modifier = None;
                        let size: Size = self.formats.size;
                        let param: PodObject = buffer_param(size.width, size.height, 1, false);
                        let params: Vec<PodObject> = vec![param];
                        assert(params@.map_values(|p: PodObject| p@) == seq![param@]);
                        ParamStep::Publish(params)
                    },
                    Some(flags) => {
                        if flags.dont_fixate {
                            ParamStep::Publish(self.settle_on(format, modifier))
                        } else {
                            self.chosen_modifier = Some(modifier);
                            match spa_to_drm_fourcc(format) {
                                Some(fourcc) => ParamStep::CountPlanes { fourcc, modifier },
                                None => ParamStep::NoFourcc(format),
                            }
                        }
                    },
                }
            },
        }
    }

    fn settle_on(&self, format: VideoFormat, modifier: u64) -> (params: Vec<PodObject>)
        ensures
            params@.map_values(|p: PodObject| p@) == self@.settling_params(format, modifier),
    {
        let size: Size = self.formats.size;
        let fixed: PodObject = fixed_format_param(
            size.width,
            size.height,
            format,
            modifier,
            self.max_fps,
        );
        let mut params: Vec<PodObject> = vec![fixed];
        let mut offers: Vec<PodObject> = self.formats.format_params(self.max_fps);
        let ghost offered = offers@;
        params.append(&mut offers);
        assert(params@.map_values(|p: PodObject| p@) == seq![fixed@] + offered.map_values(
            |p: PodObject| p@,
        ));
        params
    }

    /// Whether the buffers that DMA-BUFs of so many planes need can be counted.
    pub fn can_count_planes(&self, planes: u32) -> (can: bool)
        ensures
            can == (planes > 0 ==> countable(
                self@.formats.size.width,
                self@.formats.size.height,
            )),
    {
        planes == 0 || is_countable(self.formats.size.width, self.formats.size.height)
    }

    /// The parameter on the buffers that a format needs, once the planes of a DMA-BUF of it were
    /// counted. There is none without a plane.
    pub fn planes_counted(&self, planes: u32) -> (param: Option<PodObject>)
        requires
            planes > 0 ==> countable(self@.formats.size.width, self@.formats.size.height),
        ensures
            match param {
                Some(p) => planes > 0 && p@ == buffers_needed(
                    self@.formats.size.width,
                    self@.formats.size.height,
                    planes,
                    true,
                ),
                None => planes == 0,
            },
    {
        if planes == 0 {
            return None;
        }
        Some(buffer_param(self.formats.size.width, self.formats.size.height, planes, true))
    }
}

/// Whatever happens to a cast, no two of its buffers have the same number.
pub proof fn law_ids_stay_distinct(
    cast: StreamView,
    id: u64,
    damage: Seq<DamageRect>,
    capture: BufferView,
)
    requires
        cast.wf(),
    ensures
        cast.after_frame(id, damage).wf(),
        cast.all_stale().wf(),
        cast.with_buffer(id, capture).wf(),
        cast.without_buffer(id).wf(),
        !holds_id(cast.without_buffer(id).buffers, id),
{
    let others = |b: StreamBufferView| b.id != id;
    if holds_id(cast.buffers, id) {
        let i = choose|i: int| 0 <= i < cast.buffers.len() && (#[trigger] cast.buffers[i]).id == id;
        lemma_filter_one_out(cast.buffers, others, i);
    } else {
        lemma_filter_all_in(cast.buffers, others);
    }
}

/// Once a frame was captured, the buffer that it is in has missed nothing, and every other buffer
/// will copy every pixel that the frame changed.
pub proof fn law_frame_damage_reaches_every_buffer(
    cast: StreamView,
    id: u64,
    damage: Seq<DamageRect>,
    b: int,
    k: int,
    px: int,
    py: int,
)
    requires
        0 <= b < cast.buffers.len(),
        0 <= k < damage.len(),
        damage[k].valid(),
        damage[k].covers(px, py),
        in_frame(cast.formats.size, px, py),
    ensures
        cast.buffers[b].id == id ==> cast.after_frame(id, damage).buffers[b].pending_damage
            == DamageView::none(),
        cast.buffers[b].id != id ==> cast.after_frame(id, damage).buffers[b].pending_damage.copies(
            cast.formats.size,
            px,
            py,
        ),
{
    law_reported_damage_is_copied(
        cast.buffers[b].pending_damage,
        damage,
        cast.formats.size,
        k,
        px,
        py,
    );
}

/// What a buffer has missed stays missed until a frame is captured into it.
pub proof fn law_missed_damage_is_kept(
    cast: StreamView,
    id: u64,
    damage: Seq<DamageRect>,
    b: int,
    px: int,
    py: int,
)
    requires
        0 <= b < cast.buffers.len(),
        cast.buffers[b].id != id,
        cast.buffers[b].pending_damage.copies(cast.formats.size, px, py),
    ensures
        cast.after_frame(id, damage).buffers[b].pending_damage.copies(cast.formats.size, px, py),
{
    law_damage_only_grows(cast.buffers[b].pending_damage, damage, cast.formats.size, px, py);
}

/// The buffers can take note of any damage of a frame whose area stays within 64 bits a
/// hundredfold.
pub proof fn law_common_frames_propagate(cast: StreamView, id: u64, damage: Seq<DamageRect>)
    requires
        cast.formats.size.area() * 100 <= u64::MAX,
    ensures
        cast.can_propagate(id, damage),
{
    assert forall|i: int| 0 <= i < cast.buffers.len() && cast.buffers[i].id != id implies (
    #[trigger] cast.buffers[i]).pending_damage.can_take(damage, cast.formats.size) by {
        law_common_frames_are_weighable(
            cast.buffers[i].pending_damage,
            damage,
            cast.formats.size,
        );
    }
}

/// A new buffer is captured as a whole, and so is every buffer once the target was probed again.
pub proof fn law_new_buffers_are_captured_whole(
    cast: StreamView,
    id: u64,
    capture: BufferView,
    b: int,
    frame: Size,
)
    ensures
        0 <= b < cast.with_buffer(id, capture).buffers.len() && cast.with_buffer(
            id,
            capture,
        ).buffers[b].id == id ==> cast.with_buffer(id, capture).buffers[b].pending_damage.rects_for(
            frame,
        ) == seq![DamageRect::of_frame(frame)],
        0 <= b < cast.buffers.len() ==> cast.all_stale().buffers[b].pending_damage.rects_for(frame)
            == seq![DamageRect::of_frame(frame)],
{
    if 0 <= b < cast.with_buffer(id, capture).buffers.len() && !holds_id(cast.buffers, id)
        && b < cast.buffers.len() {
        assert(cast.buffers[b].id != id);
    }
}

/// To remove a buffer undoes adding it.
pub proof fn law_remove_undoes_attach(cast: StreamView, id: u64, capture: BufferView)
    requires
        !holds_id(cast.buffers, id),
    ensures
        cast.with_buffer(id, capture).without_buffer(id) == cast,
{
    let others = |b: StreamBufferView| b.id != id;
    let more = cast.with_buffer(id, capture);
    assert forall|i: int| 0 <= i < more.buffers.len() implies (others(#[trigger] more.buffers[i])
        <==> i != cast.buffers.len()) by {
        if i < cast.buffers.len() {
            assert(more.buffers[i] == cast.buffers[i]);
        }
    }
    lemma_filter_one_out(more.buffers, others, cast.buffers.len() as int);
    assert(more.buffers.remove(cast.buffers.len() as int) == cast.buffers);
}

/// Descriptors that were given up are gone: no block has one, and to give them up again closes
/// nothing.
pub proof fn law_released_fds_are_gone(fds: Seq<i64>)
    ensures
        forall|i: int| 0 <= i < fds.len() ==> #[trigger] released(fds)[i] < 0,
        closable(released(fds)) == Seq::<i32>::empty(),
        released(released(fds)) == released(fds),
    decreases fds.len(),
{
    if fds.len() > 0 {
        law_released_fds_are_gone(fds.drop_last());
        assert(released(fds).drop_last() == released(fds.drop_last()));
    }
}

/// The memory that is made for a buffer holds a frame of a format without padding, to the byte.
pub proof fn law_shm_memory_holds_the_frame(format: ShmFormat)
    requires
        format.stride == format.size.width * 4,
    ensures
        format.bytes() == frame_bytes(format.size),
{
    assert(format.stride * format.size.height == format.size.width * format.size.height * 4)
        by (nonlinear_arith)
        requires
            format.stride == format.size.width * 4,
    ;
}

/// Shared memory is used only with leave, and DMA-BUFs only where both sides have them.
pub proof fn law_buffers_are_as_agreed(cast: StreamView, block_types: Seq<u32>)
    ensures
        cast.plan(block_types) is Shm ==> cast.allow_shm_fallback && block_types.len() == 1,
        cast.plan(block_types) is Dmabuf <==> asks_for_dmabuf(block_types)
            && cast.formats.dmabuf_supported,
        cast.plan(block_types) is Shm <==> cast.takes_shm(block_types),
{
}

/// The parameters that settle on a layout put it first, and leave it open no more: a consumer that
/// takes it up ends the negotiation.
pub proof fn law_settling_ends_negotiation(cast: StreamView, format: VideoFormat, modifier: u64)
    ensures
        cast.settling_params(format, modifier).len() == 1 + cast.formats.offers.len(),
        modifier_flags(headers_of(cast.settling_params(format, modifier)[0].properties)) == Some(
            PropertyFlags { mandatory: true, dont_fixate: false },
        ),
{
    law_settled_format_is_settled(cast.formats.size, format, modifier, cast.max_fps);
}

/// Whether a cast is the same but for its buffers and for what was settled on.
pub open spec fn same_cast(a: StreamingData, b: StreamingData) -> bool {
    &&& a.target == b.target
    &&& a.overlay_cursor == b.overlay_cursor
    &&& a.allow_shm_fallback == b.allow_shm_fallback
    &&& a.max_fps == b.max_fps
}

/// Whether two casts offer the same formats.
pub open spec fn same_offers(a: StreamingData, b: StreamingData) -> bool {
    &&& a.formats.size == b.formats.size
    &&& a.formats.dmabuf_supported == b.formats.dmabuf_supported
    &&& a.formats.offers@.len() == b.formats.offers@.len()
    &&& forall|i: int|
        0 <= i < a.formats.offers@.len() ==> (#[trigger] a.formats.offers@[i]).spa_format
            == b.formats.offers@[i].spa_format && a.formats.offers@[i].modifiers@
            == b.formats.offers@[i].modifiers@
}

/// Whether two buffers are the same memory under the same number.
pub open spec fn same_memory(a: StreamBuffer, b: StreamBuffer) -> bool {
    a.id == b.id && a.capture@ == b.capture@
}

/// Whether two buffers are the same and have missed the same.
pub open spec fn same_buffer(a: StreamBuffer, b: StreamBuffer) -> bool {
    same_memory(a, b) && a.pending_damage@ == b.pending_damage@
}

/// Whether two casts have the same buffers, which have missed the same.
pub open spec fn same_buffers(a: StreamingData, b: StreamingData) -> bool {
    &&& a.buffers@.len() == b.buffers@.len()
    &&& forall|i: int|
        0 <= i < a.buffers@.len() ==> same_buffer(#[trigger] a.buffers@[i], b.buffers@[i])
}

/// Whether two casts settled on the same format.
pub open spec fn same_choice(a: StreamingData, b: StreamingData) -> bool {
    a.chosen_format == b.chosen_format && a.chosen_modifier == b.chosen_modifier
}

/// Whether all of a frame was missed.
pub open spec fn missed_all(damage: DamageView) -> bool {
    damage.full && damage.rects.len() == 0
}

/// Whether a parameter offers the `i`th of the formats of a cast.
pub open spec fn is_offer(param: PodObject, cast: StreamingData, i: int) -> bool {
    &&& is_raw_video(param, cast.formats.offers@[i].spa_format)
    &&& offers_size(param, cast.formats.size.width, cast.formats.size.height)
    &&& has_rate(param, cast.max_fps)
    &&& offers_layouts(param, cast.formats.offers@[i].modifiers@)
}

/// Whether the first property on the layout is there and leaves it open or not.
pub open spec fn layout_is(headers: Seq<(PodKey, PropertyFlags)>, open: bool) -> bool {
    exists|i: int|
        0 <= i < headers.len() && (#[trigger] headers[i]).0 == PodKey::VideoModifier
            && headers[i].1.dont_fixate == open && forall|j: int|
            0 <= j < i ==> (#[trigger] headers[j]).0 != PodKey::VideoModifier
}

/// Whether there is no property on the layout.
pub open spec fn no_layout(headers: Seq<(PodKey, PropertyFlags)>) -> bool {
    forall|i: int| 0 <= i < headers.len() ==> (#[trigger] headers[i]).0 != PodKey::VideoModifier
}

proof fn lemma_layout(headers: Seq<(PodKey, PropertyFlags)>)
    ensures
        forall|open: bool| #[trigger]
            layout_is(headers, open) ==> (modifier_flags(headers) matches Some(flags)
                && flags.dont_fixate == open),
        no_layout(headers) <==> modifier_flags(headers) is None,
{
    let wanted = |h: (PodKey, PropertyFlags)| h.0 == PodKey::VideoModifier;
    assert forall|open: bool| #[trigger] layout_is(headers, open) implies (modifier_flags(
        headers,
    ) matches Some(flags) && flags.dont_fixate == open) by {
        let i = choose|i: int|
            0 <= i < headers.len() && (#[trigger] headers[i]).0 == PodKey::VideoModifier
                && headers[i].1.dont_fixate == open && forall|j: int|
                0 <= j < i ==> (#[trigger] headers[j]).0 != PodKey::VideoModifier;
        lemma_is_first_index(headers, wanted, i);
    }
    lemma_first_index(headers, wanted);
    if no_layout(headers) {
        lemma_is_first_index(headers, wanted, headers.len() as int);
    }
}

proof fn lemma_same_view(a: StreamingData, b: StreamingData)
    requires
        a@.formats == b@.formats,
        a@.buffers == b@.buffers,
    ensures
        same_offers(a, b),
        same_buffers(a, b),
{
    assert(a@.formats.offers.len() == a.formats.offers@.len());
    assert(b@.formats.offers.len() == b.formats.offers@.len());
    assert(a@.buffers.len() == a.buffers@.len());
    assert(b@.buffers.len() == b.buffers@.len());
    assert forall|i: int| 0 <= i < a.formats.offers@.len() implies (
    #[trigger] a.formats.offers@[i]).spa_format == b.formats.offers@[i].spa_format
        && a.formats.offers@[i].modifiers@ == b.formats.offers@[i].modifiers@ by {
        assert(a@.formats.offers[i] == a.formats.offers@[i]@);
        assert(b@.formats.offers[i] == b.formats.offers@[i]@);
    }
    assert forall|i: int| 0 <= i < a.buffers@.len() implies same_buffer(
        #[trigger] a.buffers@[i],
        b.buffers@[i],
    ) by {
        assert(a@.buffers[i] == a.buffers@[i]@);
        assert(b@.buffers[i] == b.buffers@[i]@);
    }
}

/// Where the layout of a format is left open, what is published first is that format, of the size
/// of the cast, with the one layout that the parameter names, whatever that is and whatever is on
/// offer. All that is on offer follows, in order. The cast takes up the format and leaves its
/// layout as it was.
pub proof fn law_open_layouts_are_settled(
    cast: &mut StreamingData,
    format: VideoFormat,
    modifier: u64,
    headers: Vec<(PodKey, PropertyFlags)>,
    step: ParamStep,
)
    requires
        call_ensures(
            StreamingData::param_changed,
            (cast, 4u32, FormatParam::Video { format, modifier, headers }),
            step,
        ),
        layout_is(headers@, true),
    ensures
        step matches ParamStep::Publish(params) && {
            &&& params@.len() == 1 + old(cast).formats.offers@.len()
            &&& is_raw_video(params@[0], format)
            &&& fixes_size(
                params@[0],
                old(cast).formats.size.width,
                old(cast).formats.size.height,
            )
            &&& fixes_layout(params@[0], modifier)
            &&& has_rate(params@[0], old(cast).max_fps)
            &&& forall|i: int|
                0 <= i < old(cast).formats.offers@.len() ==> is_offer(
                    #[trigger] params@[i + 1],
                    *old(cast),
                    i,
                )
        },
        final(cast).chosen_format == Some(format),
        final(cast).chosen_modifier == old(cast).chosen_modifier,
        same_cast(*old(cast), *final(cast)),
        same_offers(*old(cast), *final(cast)),
        same_buffers(*old(cast), *final(cast)),
{
    lemma_layout(headers@);
    lemma_same_view(*old(cast), *final(cast));
    if let ParamStep::Publish(params) = step {
        let views = params@.map_values(|p: PodObject| p@);
        let rest = params@.skip(1);
        let start = *old(cast);
        assert(views.len() == params@.len());
        assert(views[0] == params@[0]@);
        assert(start@.formats.params(start.max_fps).len() == start@.formats.offers.len());
        assert(start@.formats.offers.len() == start.formats.offers@.len());
        lemma_settled(params@[0], start.formats.size, format, modifier, start.max_fps);
        assert(rest.map_values(|p: PodObject| p@) == start@.formats.params(start.max_fps)) by {
            assert forall|i: int| 0 <= i < rest.len() implies #[trigger] rest[i]@
                == start@.formats.params(start.max_fps)[i] by {
                assert(views[i + 1] == params@[i + 1]@);
            }
        }
        lemma_published(start.formats, start.max_fps, rest);
        assert forall|i: int| 0 <= i < start.formats.offers@.len() implies is_offer(
            #[trigger] params@[i + 1],
            start,
            i,
        ) by {
            assert(rest[i] == params@[i + 1]);
        }
    }
}

/// A format without a layout is shared memory: the cast takes it up, forgets the layout that it
/// had, and asks for buffers of one block for a frame.
pub proof fn law_formats_without_layout_are_memory(
    cast: &mut StreamingData,
    format: VideoFormat,
    modifier: u64,
    headers: Vec<(PodKey, PropertyFlags)>,
    step: ParamStep,
)
    requires
        call_ensures(
            StreamingData::param_changed,
            (cast, 4u32, FormatParam::Video { format, modifier, headers }),
            step,
        ),
        no_layout(headers@),
        countable(old(cast).formats.size.width, old(cast).formats.size.height),
    ensures
        step matches ParamStep::Publish(params) && params@.len() == 1 && needs_buffers(
            params@[0],
            old(cast).formats.size.width,
            old(cast).formats.size.height,
            1,
            false,
        ),
        final(cast).chosen_format == Some(format),
        final(cast).chosen_modifier is None,
        same_cast(*old(cast), *final(cast)),
        same_offers(*old(cast), *final(cast)),
        same_buffers(*old(cast), *final(cast)),
{
    lemma_layout(headers@);
    lemma_same_view(*old(cast), *final(cast));
    if let ParamStep::Publish(params) = step {
        let views = params@.map_values(|p: PodObject| p@);
        assert(views.len() == params@.len());
        assert(views[0] == params@[0]@);
        lemma_buffers(
            params@[0],
            old(cast).formats.size.width,
            old(cast).formats.size.height,
            1,
            false,
        );
    }
}

/// A format with a layout that is settled is taken up together with the layout. The planes to count
/// are those of the format's own code and of that layout; a format without a code is named.
pub proof fn law_settled_layouts_are_taken_up(
    cast: &mut StreamingData,
    format: VideoFormat,
    modifier: u64,
    headers: Vec<(PodKey, PropertyFlags)>,
    step: ParamStep,
)
    requires
        call_ensures(
            StreamingData::param_changed,
            (cast, 4u32, FormatParam::Video { format, modifier, headers }),
            step,
        ),
        layout_is(headers@, false),
    ensures
        final(cast).chosen_format == Some(format),
        final(cast).chosen_modifier == Some(modifier),
        code_of_video(format) is Some ==> (step matches ParamStep::CountPlanes {
            fourcc,
            modifier: counted,
        } && code_of_video(format) == Some(fourcc as int) && counted == modifier),
        code_of_video(format) is None ==> (step matches ParamStep::NoFourcc(named) && named
            == format),
        same_cast(*old(cast), *final(cast)),
        same_offers(*old(cast), *final(cast)),
        same_buffers(*old(cast), *final(cast)),
{
    lemma_layout(headers@);
    lemma_same_view(*old(cast), *final(cast));
}

/// A parameter on anything but the format, one that was taken back and one that cannot be read
/// change nothing. Only the last is told.
pub proof fn law_other_params_change_nothing(
    cast: &mut StreamingData,
    id: u32,
    param: FormatParam,
    step: ParamStep,
)
    requires
        call_ensures(StreamingData::param_changed, (cast, id, param), step),
        id != 4 || param is Missing || param is Unparsable,
    ensures
        id == 4 && param is Unparsable ==> step is Unparsable,
        id != 4 || param is Missing ==> step is Nothing,
        same_choice(*old(cast), *final(cast)),
        same_cast(*old(cast), *final(cast)),
        same_offers(*old(cast), *final(cast)),
        same_buffers(*old(cast), *final(cast)),
{
    lemma_same_view(*old(cast), *final(cast));
}

/// Once the planes of a DMA-BUF are counted, buffers with a block for each plane are asked for, and
/// none where there is no plane.
pub proof fn law_planes_become_blocks(cast: StreamingData, planes: u32, param: Option<PodObject>)
    requires
        call_ensures(StreamingData::planes_counted, (&cast, planes), param),
        countable(cast.formats.size.width, cast.formats.size.height),
    ensures
        planes == 0 ==> param is None,
        planes > 0 ==> (param matches Some(p) && needs_buffers(
            p,
            cast.formats.size.width,
            cast.formats.size.height,
            planes,
            true,
        )),
{
    if let Some(p) = param {
        lemma_buffers(p, cast.formats.size.width, cast.formats.size.height, planes, true);
    }
}

/// A new cast is made of what it is given. Nothing is settled on, and there is no buffer.
pub proof fn law_new_casts_are_as_asked(
    formats: StreamFormatState,
    target: CaptureTarget,
    overlay_cursor: bool,
    allow_shm_fallback: bool,
    max_fps: u32,
    cast: StreamingData,
)
    requires
        call_ensures(
            StreamingData::new,
            (formats, target, overlay_cursor, allow_shm_fallback, max_fps),
            cast,
        ),
    ensures
        cast.target == target,
        cast.overlay_cursor == overlay_cursor,
        cast.allow_shm_fallback == allow_shm_fallback,
        cast.max_fps == max_fps,
        cast.chosen_format is None,
        cast.chosen_modifier is None,
        cast.buffers@.len() == 0,
        cast.formats.size == formats.size,
        cast.formats.dmabuf_supported == formats.dmabuf_supported,
        cast.formats.offers@.len() == formats.offers@.len(),
        forall|i: int|
            0 <= i < formats.offers@.len() ==> (#[trigger] cast.formats.offers@[i]).spa_format
                == formats.offers@[i].spa_format && cast.formats.offers@[i].modifiers@
                == formats.offers@[i].modifiers@,
{
    assert(cast@.formats.offers.len() == cast.formats.offers@.len());
    assert(formats@.offers.len() == formats.offers@.len());
    assert(cast@.buffers.len() == cast.buffers@.len());
    assert forall|i: int| 0 <= i < formats.offers@.len() implies (
    #[trigger] cast.formats.offers@[i]).spa_format == formats.offers@[i].spa_format
        && cast.formats.offers@[i].modifiers@ == formats.offers@[i].modifiers@ by {
        assert(cast@.formats.offers[i] == cast.formats.offers@[i]@);
        assert(formats@.offers[i] == formats.offers@[i]@);
    }
}

/// A buffer that the stream gave out is captured into where it is known: exactly the pixels of its
/// frame that it has missed. One that is not known goes back.
pub proof fn law_given_buffers_are_captured(
    cast: StreamingData,
    dequeued: Option<u64>,
    step: ProcessStep,
    i: int,
    missed: Vec<DamageRect>,
    px: int,
    py: int,
)
    requires
        call_ensures(StreamingData::process, (&cast, dequeued), step),
        0 <= i < cast.buffers@.len() ==> call_ensures(
            DirectCaptureBuffer::damage_to_capture,
            (&cast.buffers@[i].capture, &cast.buffers@[i].pending_damage),
            missed,
        ),
        forall|a: int, b: int|
            0 <= a < b < cast.buffers@.len() ==> (#[trigger] cast.buffers@[a]).id != (
            #[trigger] cast.buffers@[b]).id,
    ensures
        dequeued is None <==> step is Idle,
        dequeued matches Some(id) ==> (step is Requeue <==> forall|k: int|
            0 <= k < cast.buffers@.len() ==> (#[trigger] cast.buffers@[k]).id != id),
        0 <= i < cast.buffers@.len() && dequeued == Some(cast.buffers@[i].id) ==> (
        step matches ProcessStep::Capture(rects) && rects@ == missed@ && (have_pixel(
            rects@,
            px,
            py,
        ) <==> shows(
            cast.buffers@[i].capture@.extent(),
            px,
            py,
        ) && (cast.buffers@[i].pending_damage@.full || have_pixel(
            cast.buffers@[i].pending_damage@.rects,
            px,
            py,
        )))),
{
    let views = cast@.buffers;
    assert(views.len() == cast.buffers@.len());
    assert forall|k: int| 0 <= k < views.len() implies #[trigger] views[k] == cast.buffers@[k]@ by {
    }
    if let Some(id) = dequeued {
        if holds_id(views, id) {
            let k = choose|k: int| 0 <= k < views.len() && (#[trigger] views[k]).id == id;
            assert(cast.buffers@[k].id == id);
        } else {
            assert forall|k: int| 0 <= k < cast.buffers@.len() implies (
            #[trigger] cast.buffers@[k]).id != id by {
                assert(views[k].id != id);
            }
        }
    }
    if 0 <= i < cast.buffers@.len() && dequeued == Some(cast.buffers@[i].id) {
        assert(views[i].id == cast.buffers@[i].id);
        if let ProcessStep::Capture(rects) = step {
            let k = choose|k: int|
                0 <= k < views.len() && (#[trigger] views[k]).id == cast.buffers@[i].id && rects@
                    == views[k].pending_damage.rects_for(views[k].capture.extent());
            assert(views[k] == cast.buffers@[k]@);
            assert(k == i);
            lemma_copied(
                cast.buffers@[i].pending_damage@,
                cast.buffers@[i].capture@.extent(),
                px,
                py,
            );
        }
    }
}

proof fn lemma_captured(
    before: StreamingData,
    after: StreamingData,
    id: u64,
    damage: Seq<DamageRect>,
    i: int,
    px: int,
    py: int,
)
    requires
        after@ == before@.after_frame(id, damage),
    ensures
        same_choice(before, after),
        same_cast(before, after),
        same_offers(before, after),
        after.buffers@.len() == before.buffers@.len(),
        0 <= i < before.buffers@.len() ==> same_memory(before.buffers@[i], after.buffers@[i]),
        0 <= i < before.buffers@.len() && before.buffers@[i].id == id
            ==> !after.buffers@[i].pending_damage@.full
            && after.buffers@[i].pending_damage@.rects.len() == 0,
        0 <= i < before.buffers@.len() && before.buffers@[i].id != id
            ==> noted(
            before.buffers@[i].pending_damage@,
            after.buffers@[i].pending_damage@,
            damage,
            before.formats.size,
            px,
            py,
        ),
{
    lemma_same_view(before, StreamingData { buffers: before.buffers, ..after });
    assert(before@.buffers.len() == before.buffers@.len());
    assert(after@.buffers.len() == after.buffers@.len());
    if 0 <= i < before.buffers@.len() {
        assert(after@.buffers[i] == after.buffers@[i]@);
        assert(before@.buffers[i] == before.buffers@[i]@);
        if before.buffers@[i].id != id {
            lemma_added(
                before.buffers@[i].pending_damage,
                after.buffers@[i].pending_damage,
                damage,
                before.formats.size,
                px,
                py,
            );
        }
    }
}

/// Whether reported damage was noted to the pixel: what misses the whole frame goes on doing so,
/// and what does not misses what it missed before and what was reported inside the frame. It comes
/// to miss the whole frame only where the list has become too much to keep.
pub open spec fn noted(
    before: DamageView,
    after: DamageView,
    damage: Seq<DamageRect>,
    frame: Size,
    px: int,
    py: int,
) -> bool {
    &&& after.full <==> before.full || is_too_much(clip_all(before.rects + damage, frame), frame)
    &&& before.full ==> after == before
    &&& !before.full && after.full ==> after.rects.len() == 0
    &&& !after.full ==> after.rects == clip_all(before.rects + damage, frame)
    &&& !after.full ==> (have_pixel(after.rects, px, py) <==> shows(frame, px, py) && (have_pixel(
        before.rects,
        px,
        py,
    ) || have_pixel(damage, px, py)))
}

/// Once a frame was captured into a buffer, that buffer has missed nothing, and every other one has
/// missed the damage of the frame on top of what it had missed before. Nothing else changes, and
/// nothing else is to do.
pub proof fn law_captured_frames_are_noted(
    cast: &mut StreamingData,
    id: u64,
    damage: Vec<DamageRect>,
    next: AfterCapture,
    i: int,
    px: int,
    py: int,
)
    requires
        call_ensures(
            StreamingData::captured,
            (cast, id, Ok::<Vec<DamageRect>, CaptureError>(damage)),
            next,
        ),
    ensures
        next == AfterCapture::Nothing,
        same_choice(*old(cast), *final(cast)),
        same_cast(*old(cast), *final(cast)),
        same_offers(*old(cast), *final(cast)),
        final(cast).buffers@.len() == old(cast).buffers@.len(),
        0 <= i < old(cast).buffers@.len() ==> same_memory(
            old(cast).buffers@[i],
            final(cast).buffers@[i],
        ),
        0 <= i < old(cast).buffers@.len() && old(cast).buffers@[i].id == id
            ==> !final(cast).buffers@[i].pending_damage@.full
            && final(cast).buffers@[i].pending_damage@.rects.len() == 0,
        0 <= i < old(cast).buffers@.len() && old(cast).buffers@[i].id != id ==> noted(
            old(cast).buffers@[i].pending_damage@,
            final(cast).buffers@[i].pending_damage@,
            damage@,
            old(cast).formats.size,
            px,
            py,
        ),
{
    lemma_captured(*old(cast), *final(cast), id, damage@, i, px, py);
}

/// To note the damage of a frame by itself does the same.
pub proof fn law_frame_damage_is_noted(
    cast: &mut StreamingData,
    id: u64,
    damage: Vec<DamageRect>,
    i: int,
    px: int,
    py: int,
)
    requires
        call_ensures(StreamingData::update_buffer_damage, (cast, id, &damage), ()),
    ensures
        same_choice(*old(cast), *final(cast)),
        same_cast(*old(cast), *final(cast)),
        same_offers(*old(cast), *final(cast)),
        final(cast).buffers@.len() == old(cast).buffers@.len(),
        0 <= i < old(cast).buffers@.len() ==> same_memory(
            old(cast).buffers@[i],
            final(cast).buffers@[i],
        ),
        0 <= i < old(cast).buffers@.len() && old(cast).buffers@[i].id == id
            ==> !final(cast).buffers@[i].pending_damage@.full
            && final(cast).buffers@[i].pending_damage@.rects.len() == 0,
        0 <= i < old(cast).buffers@.len() && old(cast).buffers@[i].id != id ==> noted(
            old(cast).buffers@[i].pending_damage@,
            final(cast).buffers@[i].pending_damage@,
            damage@,
            old(cast).formats.size,
            px,
            py,
        ),
{
    lemma_captured(*old(cast), *final(cast), id, damage@, i, px, py);
}

/// A capture that failed changes nothing. The target is probed again where its buffers have to be
/// different, the stream is stopped where its target is gone, and any other failure is passed over.
pub proof fn law_failed_captures_change_nothing(
    cast: &mut StreamingData,
    id: u64,
    error: CaptureError,
    next: AfterCapture,
)
    requires
        call_ensures(
            StreamingData::captured,
            (cast, id, Err::<Vec<DamageRect>, CaptureError>(error)),
            next,
        ),
    ensures
        next == AfterCapture::Reprobe <==> error is BufferConstraints,
        next == AfterCapture::Deactivate <==> error is Stopped,
        same_choice(*old(cast), *final(cast)),
        same_cast(*old(cast), *final(cast)),
        same_offers(*old(cast), *final(cast)),
        same_buffers(*old(cast), *final(cast)),
{
    lemma_same_view(*old(cast), *final(cast));
}

/// After a reset every buffer has missed the whole frame, and nothing else has changed.
pub proof fn law_reset_buffers_have_missed_all(cast: &mut StreamingData, i: int)
    requires
        call_ensures(StreamingData::reset_buffer_damage, (cast,), ()),
    ensures
        same_choice(*old(cast), *final(cast)),
        same_cast(*old(cast), *final(cast)),
        same_offers(*old(cast), *final(cast)),
        final(cast).buffers@.len() == old(cast).buffers@.len(),
        0 <= i < old(cast).buffers@.len() ==> same_memory(
            old(cast).buffers@[i],
            final(cast).buffers@[i],
        ) && missed_all(final(cast).buffers@[i].pending_damage@),
{
    lemma_stale(*old(cast), *final(cast), i);
    lemma_same_view(*old(cast), StreamingData { buffers: old(cast).buffers, ..*final(cast) });
}

proof fn lemma_stale(before: StreamingData, after: StreamingData, i: int)
    requires
        after@.buffers == before@.all_stale().buffers,
    ensures
        after.buffers@.len() == before.buffers@.len(),
        0 <= i < before.buffers@.len() ==> same_memory(before.buffers@[i], after.buffers@[i])
            && missed_all(after.buffers@[i].pending_damage@),
{
    assert(before@.buffers.len() == before.buffers@.len());
    assert(after@.buffers.len() == after.buffers@.len());
    if 0 <= i < before.buffers@.len() {
        assert(after@.buffers[i] == after.buffers@[i]@);
        assert(before@.buffers[i] == before.buffers@[i]@);
    }
}

/// A new probe changes the formats on offer to those of the probe, publishes them, and leaves every
/// buffer with all of its frame missed. A probe with nothing to offer changes nothing.
pub proof fn law_new_probes_are_taken_up(
    cast: &mut StreamingData,
    probe: CaptureProbe,
    params: Result<Vec<PodObject>, FormatError>,
    i: int,
)
    requires
        call_ensures(StreamingData::reprobed, (cast, probe), params),
    ensures
        same_choice(*old(cast), *final(cast)),
        same_cast(*old(cast), *final(cast)),
        final(cast).buffers@.len() == old(cast).buffers@.len(),
        params matches Ok(list) ==> {
            &&& formats_of_probe(probe@, old(cast).allow_shm_fallback) == Ok::<
                FormatsView,
                FormatError,
            >(final(cast).formats@)
            &&& final(cast).formats.size == probe.size
            &&& list@.len() == final(cast).formats.offers@.len()
            &&& 0 <= i < list@.len() ==> is_offer(list@[i], *final(cast), i)
            &&& 0 <= i < old(cast).buffers@.len() ==> same_memory(
                old(cast).buffers@[i],
                final(cast).buffers@[i],
            ) && missed_all(final(cast).buffers@[i].pending_damage@)
        },
        params matches Err(error) ==> {
            &&& formats_of_probe(probe@, old(cast).allow_shm_fallback) == Err::<
                FormatsView,
                FormatError,
            >(error)
            &&& same_offers(*old(cast), *final(cast))
            &&& same_buffers(*old(cast), *final(cast))
        },
{
    match params {
        Ok(list) => {
            lemma_stale(*old(cast), *final(cast), i);
            lemma_published(final(cast).formats, final(cast).max_fps, list@);
        },
        Err(_) => {
            lemma_same_view(*old(cast), *final(cast));
        },
    }
}

/// Damage can be noted in every buffer exactly where each of them but the one that was captured
/// into can take it.
pub proof fn law_damage_that_can_be_noted(
    cast: StreamingData,
    id: u64,
    damage: Vec<DamageRect>,
    can: bool,
)
    requires
        call_ensures(StreamingData::can_propagate, (&cast, id, &damage), can),
    ensures
        can <==> forall|i: int|
            0 <= i < cast.buffers@.len() && cast.buffers@[i].id != id ==> (
            #[trigger] cast.buffers@[i]).pending_damage@.can_take(damage@, cast.formats.size),
{
    assert(cast@.buffers.len() == cast.buffers@.len());
    assert forall|i: int| 0 <= i < cast.buffers@.len() implies #[trigger] cast@.buffers[i]
        == cast.buffers@[i]@ by {}
    if forall|i: int|
        0 <= i < cast.buffers@.len() && cast.buffers@[i].id != id ==> (
        #[trigger] cast.buffers@[i]).pending_damage@.can_take(damage@, cast.formats.size) {
        assert forall|i: int| 0 <= i < cast@.buffers.len() && cast@.buffers[i].id != id implies (
        #[trigger] cast@.buffers[i]).pending_damage.can_take(damage@, cast@.formats.size) by {
            assert(cast.buffers@[i].id != id);
        }
    }
    if can {
        assert forall|i: int| 0 <= i < cast.buffers@.len() && cast.buffers@[i].id != id implies (
        #[trigger] cast.buffers@[i]).pending_damage@.can_take(damage@, cast.formats.size) by {
            assert(cast@.buffers[i].id != id);
        }
    }
}

/// A buffer that is taken up has missed its whole frame. It stands where one of its number stood,
/// or else at the end, and every other buffer is left as it was.
pub proof fn law_attached_buffers_are_found(
    cast: &mut StreamingData,
    id: u64,
    capture: DirectCaptureBuffer,
    i: int,
)
    requires
        call_ensures(StreamingData::attach_capture_buffer, (cast, id, capture), ()),
        0 <= i < final(cast).buffers@.len(),
    ensures
        same_choice(*old(cast), *final(cast)),
        same_cast(*old(cast), *final(cast)),
        same_offers(*old(cast), *final(cast)),
        final(cast).buffers@.len() == old(cast).buffers@.len() + (if exists|k: int|
            0 <= k < old(cast).buffers@.len() && (#[trigger] old(cast).buffers@[k]).id == id {
            0int
        } else {
            1
        }),
        final(cast).buffers@[i].id == id ==> final(cast).buffers@[i].capture@ == capture@
            && missed_all(final(cast).buffers@[i].pending_damage@),
        i < old(cast).buffers@.len() ==> final(cast).buffers@[i].id == old(cast).buffers@[i].id,
        i < old(cast).buffers@.len() && old(cast).buffers@[i].id != id ==> same_buffer(
            old(cast).buffers@[i],
            final(cast).buffers@[i],
        ),
        i == old(cast).buffers@.len() ==> final(cast).buffers@[i].id == id,
{
    let before = *old(cast);
    let after = *final(cast);
    lemma_same_view(before, StreamingData { buffers: before.buffers, ..after });
    assert(before@.buffers.len() == before.buffers@.len());
    assert(after@.buffers.len() == after.buffers@.len());
    assert(after@.buffers[i] == after.buffers@[i]@);
    assert forall|k: int| 0 <= k < before.buffers@.len() implies #[trigger] before@.buffers[k]
        == before.buffers@[k]@ by {}
    if holds_id(before@.buffers, id) {
        let k = choose|k: int|
            0 <= k < before@.buffers.len() && (#[trigger] before@.buffers[k]).id == id;
        assert(before.buffers@[k].id == id);
    } else {
        assert forall|k: int| 0 <= k < before.buffers@.len() implies (
        #[trigger] before.buffers@[k]).id != id by {
            assert(before@.buffers[k].id != id);
        }
    }
}

/// A buffer that is given up is gone, and every other one stays, in order and as it was.
pub proof fn law_removed_buffers_are_gone(
    cast: &mut StreamingData,
    id: u64,
    fds: &mut Vec<i64>,
    to_close: Vec<i32>,
    k: int,
)
    requires
        call_ensures(StreamingData::remove_buffer, (cast, id, fds), to_close),
        forall|a: int, b: int|
            0 <= a < b < old(cast).buffers@.len() ==> (#[trigger] old(cast).buffers@[a]).id != (
            #[trigger] old(cast).buffers@[b]).id,
        0 <= k <= old(cast).buffers@.len(),
        k < old(cast).buffers@.len() ==> old(cast).buffers@[k].id == id,
        k == old(cast).buffers@.len() ==> forall|i: int|
            0 <= i < old(cast).buffers@.len() ==> (#[trigger] old(cast).buffers@[i]).id != id,
    ensures
        same_choice(*old(cast), *final(cast)),
        same_cast(*old(cast), *final(cast)),
        same_offers(*old(cast), *final(cast)),
        final(cast).buffers@.len() == (if k < old(cast).buffers@.len() {
            old(cast).buffers@.len() - 1
        } else {
            old(cast).buffers@.len() as int
        }),
        forall|i: int|
            0 <= i < final(cast).buffers@.len() && i < k ==> same_buffer(
                old(cast).buffers@[i],
                #[trigger] final(cast).buffers@[i],
            ),
        forall|i: int|
            k <= i < final(cast).buffers@.len() ==> same_buffer(
                old(cast).buffers@[i + 1],
                #[trigger] final(cast).buffers@[i],
            ),
{
    let before = *old(cast);
    let after = *final(cast);
    let others = |b: StreamBufferView| b.id != id;
    lemma_same_view(before, StreamingData { buffers: before.buffers, ..after });
    assert(before@.buffers.len() == before.buffers@.len());
    assert(after@.buffers.len() == after.buffers@.len());
    assert forall|i: int| 0 <= i < before.buffers@.len() implies #[trigger] before@.buffers[i]
        == before.buffers@[i]@ by {}
    assert forall|i: int| 0 <= i < after.buffers@.len() implies #[trigger] after@.buffers[i]
        == after.buffers@[i]@ by {}
    if k < before.buffers@.len() {
        assert forall|i: int| 0 <= i < before@.buffers.len() implies (others(
            #[trigger] before@.buffers[i],
        ) <==> i != k) by {
            assert(before@.buffers[i] == before.buffers@[i]@);
            assert(before.buffers@[k].id == id);
            if i < k {
                assert(before.buffers@[i].id != before.buffers@[k].id);
            } else if k < i {
                assert(before.buffers@[k].id != before.buffers@[i].id);
            }
        }
        lemma_filter_one_out(before@.buffers, others, k);
        assert forall|i: int| 0 <= i < after.buffers@.len() && i < k implies same_buffer(
            before.buffers@[i],
            #[trigger] after.buffers@[i],
        ) by {
            assert(after@.buffers[i] == before@.buffers[i]);
        }
        assert forall|i: int| k <= i < after.buffers@.len() implies same_buffer(
            before.buffers@[i + 1],
            #[trigger] after.buffers@[i],
        ) by {
            assert(after@.buffers[i] == before@.buffers[i + 1]);
            assert(before@.buffers[i + 1] == before.buffers@[i + 1]@);
        }
    } else {
        assert forall|i: int| 0 <= i < before@.buffers.len() implies others(
            #[trigger] before@.buffers[i],
        ) by {
            assert(before.buffers@[i].id != id);
        }
        lemma_filter_all_in(before@.buffers, others);
        assert forall|i: int| 0 <= i < after.buffers@.len() && i < k implies same_buffer(
            before.buffers@[i],
            #[trigger] after.buffers@[i],
        ) by {
            assert(after@.buffers[i] == before@.buffers[i]);
        }
    }
}

/// Every descriptor that can be closed is closed once, in order, and none else. Each of them is
/// taken out of its block, and so is one that is too large to be closed; a block without one stays
/// so.
pub proof fn law_descriptors_are_closed(
    cast: &mut StreamingData,
    id: u64,
    fds: &mut Vec<i64>,
    to_close: Vec<i32>,
)
    requires
        call_ensures(StreamingData::remove_buffer, (cast, id, fds), to_close),
    ensures
        to_close@.map_values(|fd: i32| fd as i64) == old(fds)@.filter(
            |fd: i64| 0 <= fd && fd <= 0x7fff_ffff,
        ),
        final(fds)@.len() == old(fds)@.len(),
        forall|i: int|
            0 <= i < old(fds)@.len() ==> #[trigger] final(fds)@[i] == (if old(fds)@[i] >= 0 {
                -1i64
            } else {
                old(fds)@[i]
            }),
{
    lemma_closable(old(fds)@);
}

proof fn lemma_closable(fds: Seq<i64>)
    ensures
        closable(fds).map_values(|fd: i32| fd as i64) == fds.filter(
            |fd: i64| 0 <= fd && fd <= 0x7fff_ffff,
        ),
    decreases fds.len(),
{
    reveal(Seq::filter);
    let closes = |fd: i64| 0 <= fd && fd <= 0x7fff_ffff;
    if fds.len() > 0 {
        let init = closable(fds.drop_last());
        lemma_closable(fds.drop_last());
        if closes(fds.last()) {
            assert(closable(fds) == init.push(fds.last() as i32));
            assert(closable(fds).map_values(|fd: i32| fd as i64) == init.map_values(
                |fd: i32| fd as i64,
            ).push(fds.last()));
        }
    }
}

/// A DMA-BUF is made where the stream asks for one in its first block and they are on offer. Its
/// format is the one that was settled on, and so is its layout; where no layout was settled on, it
/// is the first one on offer for the format.
pub proof fn law_dmabufs_are_made_as_settled(
    cast: StreamingData,
    block_types: Vec<u32>,
    plan: BufferPlan,
    i: int,
)
    requires
        call_ensures(StreamingData::plan_buffer, (&cast, &block_types), plan),
    ensures
        plan is Dmabuf <==> block_types@.len() > 0 && block_types@[0] & 8 == 8
            && cast.formats.dmabuf_supported,
        plan matches BufferPlan::Dmabuf { fourcc, modifier } ==> {
            &&& cast.chosen_format is None ==> fourcc is None
            &&& cast.chosen_format matches Some(format) ==> (code_of_video(format) is None
                <==> fourcc is None) && (fourcc matches Some(code) ==> code_of_video(format)
                == Some(code as int))
            &&& cast.chosen_modifier is Some ==> modifier == cast.chosen_modifier
            &&& cast.chosen_modifier is None && cast.chosen_format is None ==> modifier is None
            &&& cast.chosen_modifier is None && 0 <= i < cast.formats.offers@.len()
                && cast.chosen_format == Some(cast.formats.offers@[i].spa_format) && (forall|j: int|
                0 <= j < i ==> (#[trigger] cast.formats.offers@[j]).spa_format
                    != cast.formats.offers@[i].spa_format) ==> modifier == (
            if cast.formats.offers@[i].modifiers@.len() > 0 {
                Some(cast.formats.offers@[i].modifiers@[0])
            } else {
                None
            })
            &&& cast.chosen_modifier is None && (cast.chosen_format matches Some(format)
                && forall|j: int|
                0 <= j < cast.formats.offers@.len() ==> (
                #[trigger] cast.formats.offers@[j]).spa_format != format) ==> modifier is None
        },
{
    lemma_dmabuf_bit(block_types@);
    if let Some(format) = cast.chosen_format {
        lemma_fallback(cast.formats, format, i);
    }
}

proof fn lemma_dmabuf_bit(block_types: Seq<u32>)
    ensures
        asks_for_dmabuf(block_types) <==> block_types.len() > 0 && block_types[0] & 8 == 8,
{
    if block_types.len() > 0 {
        let first = block_types[0];
        assert((first & (1u32 << 3u32) != 0) <==> (first & 8 == 8)) by (bit_vector);
    }
}

/// Shared memory is made where no DMA-BUF is, with leave and for one block: four bytes for each
/// pixel of the cast, of the format that was settled on. Without leave, or for another number of
/// blocks, nothing is made, and it is told why.
pub proof fn law_memory_is_made_with_leave(
    cast: StreamingData,
    block_types: Vec<u32>,
    plan: BufferPlan,
)
    requires
        call_ensures(StreamingData::plan_buffer, (&cast, &block_types), plan),
        !(plan is Dmabuf),
    ensures
        !cast.allow_shm_fallback && block_types@.len() == 0 ==> plan == BufferPlan::Refused(
            Refusal::ShmDisabled { first_type: None },
        ),
        !cast.allow_shm_fallback && block_types@.len() > 0 ==> plan == BufferPlan::Refused(
            Refusal::ShmDisabled { first_type: Some(block_types@[0]) },
        ),
        cast.allow_shm_fallback && block_types@.len() != 1 ==> (
        plan matches BufferPlan::Refused(refusal) && (refusal matches Refusal::NotOneBlock {
            blocks,
        } && blocks == block_types@.len())),
        cast.allow_shm_fallback && block_types@.len() == 1 ==> (plan matches BufferPlan::Shm {
            preferred,
            bytes,
        } && (cast.formats.size.width * cast.formats.size.height * 4 <= u32::MAX ==> bytes
            == cast.formats.size.width * cast.formats.size.height * 4) && (
        cast.chosen_format is None ==> preferred is None) && (
        cast.chosen_format matches Some(format) ==> preferred == pixel_of_video(format))),
{
    let size = cast.formats.size;
    assert(0 <= size.width * size.height) by (nonlinear_arith)
        requires
            size.width >= 0,
            size.height >= 0,
    ;
    assert(block_types@.len() == block_types.len());
}

/// A buffer can be planned unless it is shared memory whose bytes are out of reach.
pub proof fn law_buffers_that_can_be_planned(
    cast: StreamingData,
    block_types: Vec<u32>,
    can: bool,
)
    requires
        call_ensures(StreamingData::can_plan_buffer, (&cast, &block_types), can),
    ensures
        can <==> block_types@.len() != 1 || !cast.allow_shm_fallback || (
        cast.formats.dmabuf_supported && block_types@[0] & 8 == 8) || cast.formats.size.width
            * cast.formats.size.height * 4 <= u32::MAX,
{
    lemma_dmabuf_bit(block_types@);
}

/// A block of shared memory holds a frame of four bytes for each pixel from its start, row after
/// row.
pub proof fn law_memory_is_one_block(size: Size, fits: bool, block: DataBlock)
    requires
        call_ensures(can_lay_out_shm, (size,), fits),
        call_ensures(shm_block, (size,), block),
    ensures
        size.width <= 0x7fff_ffff ==> (fits <==> size.width * size.height * 4 <= 0xffff_ffff
            && size.width * 4 <= 0x7fff_ffff),
        fits <==> size.width * size.height * 4 <= 0xffff_ffff && -0x8000_0000 <= (size.width as i32)
            * 4 <= 0x7fff_ffff,
        fits ==> {
            &&& block.data_type == 2
            &&& block.max_size == size.width * size.height * 4
            &&& block.chunk_size == size.width * size.height * 4
            &&& block.chunk_offset == 0
            &&& block.chunk_stride == (size.width as i32) * 4
        },
{
    let width = size.width;
    assert(0 <= size.width * size.height) by (nonlinear_arith)
        requires
            size.width >= 0,
            size.height >= 0,
    ;
    assert(width <= 0x7fff_ffff ==> (width as i32) as int == width as int);
}

/// A DMA-BUF has a block for each of its planes, in order, with the offset and the stride of the
/// plane. Shared memory has none, and a wrong number of blocks is told.
pub proof fn law_planes_are_laid_out(
    buffer: DirectCaptureBuffer,
    blocks: usize,
    planes: Vec<Plane>,
    laid_out: Result<Vec<DataBlock>, BlockError>,
    i: int,
)
    requires
        call_ensures(dmabuf_blocks, (&buffer, blocks, &planes), laid_out),
    ensures
        buffer is Shm ==> laid_out == Err::<Vec<DataBlock>, BlockError>(BlockError::NotDmabuf),
        buffer is Dmabuf && blocks != planes@.len() ==> (laid_out matches Err(error) && (
        error matches BlockError::PlaneCount { blocks: had, planes: needed } && had == blocks
            && needed == planes@.len())),
        buffer matches DirectCaptureBuffer::Dmabuf { format, modifier } ==> (blocks == planes@.len()
            ==> (laid_out matches Ok(list) && list@.len() == planes@.len() && (0 <= i
            < planes@.len() ==> {
            &&& list@[i].data_type == 3
            &&& list@[i].chunk_offset == planes@[i].offset
            &&& list@[i].chunk_stride == planes@[i].stride as i32
            &&& format.size.width * format.size.height * 4 <= 0xffff_ffff ==> list@[i].max_size
                == format.size.width * format.size.height * 4
            &&& format.size.height * planes@[i].stride <= 0xffff_ffff ==> list@[i].chunk_size
                == format.size.height * planes@[i].stride
        }))),
{
    match buffer {
        DirectCaptureBuffer::Dmabuf { format, modifier } => {
            assert(buffer@ is Dmabuf);
            assert(buffer@.extent() == format.size);
            assert(0 <= format.size.width * format.size.height) by (nonlinear_arith)
                requires
                    format.size.width >= 0,
                    format.size.height >= 0,
            ;
            if 0 <= i < planes@.len() {
                assert(0 <= format.size.height * planes@[i].stride) by (nonlinear_arith)
                    requires
                        format.size.height >= 0,
                        planes@[i].stride >= 0,
                ;
                if let Ok(list) = laid_out {
                    assert(list@[i] == plane_block_of(format.size, planes@[i]));
                }
            }
        },
        DirectCaptureBuffer::Shm { format } => {
            assert(!(buffer@ is Dmabuf));
        },
    }
}

/// Whether the bytes of a frame at four for each pixel, and of the rows of a plane, stay below four
/// gigabytes.
pub open spec fn stays_small(size: Size, plane: Plane) -> bool {
    size.width * size.height * 4 <= 0xffff_ffff && size.height * plane.stride <= 0xffff_ffff
}

/// Planes can be laid out where the bytes of a frame and of each plane can be counted in 32 bits,
/// and where there is nothing to lay out.
pub proof fn law_planes_that_can_be_laid_out(
    buffer: DirectCaptureBuffer,
    size: Size,
    blocks: usize,
    planes: Vec<Plane>,
    fits: bool,
)
    requires
        call_ensures(can_lay_out_planes, (&buffer, blocks, &planes), fits),
        buffer matches DirectCaptureBuffer::Dmabuf { format, .. } ==> size == format.size,
    ensures
        buffer is Shm || blocks != planes@.len() ==> fits,
        buffer is Dmabuf && blocks == planes@.len() ==> (fits <==> forall|i: int|
            0 <= i < planes@.len() ==> stays_small(size, #[trigger] planes@[i])),
{
    if buffer is Dmabuf && blocks == planes@.len() {
        assert(buffer@.extent() == size);
        assert forall|plane: Plane| #[trigger]
            stays_small(size, plane) == fits_plane_block(size, plane) by {}
        assert(fits <==> forall|i: int|
            0 <= i < planes@.len() ==> fits_plane_block(size, #[trigger] planes@[i]));
        if fits {
            assert forall|i: int| 0 <= i < planes@.len() implies stays_small(
                size,
                #[trigger] planes@[i],
            ) by {
                assert(fits_plane_block(size, planes@[i]));
            }
        }
    }
}

/// A changed parameter can be taken up unless it asks for shared memory that cannot be counted, and
/// planes can be counted unless there are some and their frame cannot be.
pub proof fn law_changes_that_can_be_taken_up(
    cast: StreamingData,
    id: u32,
    param: FormatParam,
    planes: u32,
    can_change: bool,
    can_count: bool,
    is_small: bool,
)
    requires
        call_ensures(StreamingData::can_change_param, (&cast, id, &param), can_change),
        call_ensures(StreamingData::can_count_planes, (&cast, planes), can_count),
        call_ensures(
            is_countable,
            (cast.formats.size.width, cast.formats.size.height),
            is_small,
        ),
    ensures
        can_change <==> is_small || id != 4 || !(param is Video) || (
        param matches FormatParam::Video { headers, .. } && !no_layout(headers@)),
        can_count <==> is_small || planes == 0,
{
    if let FormatParam::Video { format, modifier, headers } = param {
        lemma_layout(headers@);
    }
}

/// The words for why the memory of the stream was not taken, and for why a buffer does not fit.
pub proof fn law_refusals_are_told_apart(
    refusal: Refusal,
    refused: String,
    error: BlockError,
    failed: String,
)
    requires
        call_ensures(Refusal::message, (&refusal,), refused),
        call_ensures(BlockError::message, (&error,), failed),
    ensures
        refusal matches Refusal::ShmDisabled { first_type: None } ==> refused@
            == "pw did not allocate dma-buf although shm fallback is disabled; datas[0].type="@
            + "None"@,
        refusal matches Refusal::ShmDisabled { first_type: Some(n) } ==> refused@
            == "pw did not allocate dma-buf although shm fallback is disabled; datas[0].type="@ + (
        "Some("@ + decimal(n as nat) + ")"@),
        refusal matches Refusal::NotOneBlock { blocks } ==> refused@
            == "expected one shm pw data block, got "@ + decimal(blocks as nat),
        error is NotDmabuf ==> failed@
            == "dma-buf capture allocation returned a non-dma-buf buffer"@,
        error matches BlockError::PlaneCount { blocks, planes } ==> failed@ == "pw allocated "@
            + decimal(blocks as nat) + " dma-buf data blocks, but gbm buffer has "@ + decimal(
            planes as nat,
        ) + " planes"@,
{
}

} // verus!
