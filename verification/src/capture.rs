//! The state of a capture connection: which outputs and windows there are, which buffers a capture
//! session accepts, and what became of a frame.

use vstd::prelude::*;

use crate::bytes::{
    is_native,
    native_byte_order,
    number_of,
    numbers_of,
    read_u64,
    read_u64s,
    ByteOrder,
};
use crate::damage::DamageRect;
use crate::formats::{DmabufFormat, DmabufFormatView, PixelFormat, ShmFormat};
use crate::geometry::Size;
use crate::search::{first_index, first_of, lemma_first_index, lemma_is_first_index};
use crate::text::same_text;

verus! {

/// An output of the compositor. `output` is the number under which the registry announced it.
#[derive(Debug)]
pub struct OutputInfo {
    pub output: u32,
    pub name: String,
    pub description: String,
    pub position: (i32, i32),
    pub size: Size,
}

/// What is known of an output.
#[verifier::ext_equal]
pub struct OutputView {
    pub output: u32,
    pub name: Seq<char>,
    pub description: Seq<char>,
    pub position: (i32, i32),
    pub size: Size,
}

impl View for OutputInfo {
    type V = OutputView;

    open spec fn view(&self) -> OutputView {
        OutputView {
            output: self.output,
            name: self.name@,
            description: self.description@,
            position: self.position,
            size: self.size,
        }
    }
}

/// The outputs that a registry announced, in order.
pub struct DiscoveryState {
    pub outputs: Vec<OutputInfo>,
}

impl View for DiscoveryState {
    type V = Seq<OutputView>;

    open spec fn view(&self) -> Seq<OutputView> {
        self.outputs@.map_values(|o: OutputInfo| o@)
    }
}

/// What an output says of itself.
#[derive(Debug)]
pub enum OutputEvent {
    Name(String),
    Description(String),
    Mode { width: i32, height: i32 },
    Other,
}

/// What the compositor says of the place of an output in the layout.
#[derive(Debug)]
pub enum LogicalOutputEvent {
    Position { x: i32, y: i32 },
    Extent { width: i32, height: i32 },
    Name(String),
    Description(String),
    Other,
}

/// An output after an event of its own.
pub open spec fn output_told(output: OutputView, event: OutputEvent) -> OutputView {
    match event {
        OutputEvent::Name(name) => OutputView { name: name@, ..output },
        OutputEvent::Description(description) => OutputView {
            description: description@,
            ..output
        },
        OutputEvent::Mode { width, height } => OutputView {
            size: Size { width: width as u32, height: height as u32 },
            ..output
        },
        OutputEvent::Other => output,
    }
}

/// An output after an event on its place. An extent counts only where it is positive; a name or a
/// description only where there is none yet.
pub open spec fn output_placed(output: OutputView, event: LogicalOutputEvent) -> OutputView {
    match event {
        LogicalOutputEvent::Position { x, y } => OutputView { position: (x, y), ..output },
        LogicalOutputEvent::Extent { width, height } => if width > 0 && height > 0 {
            OutputView { size: Size { width: width as u32, height: height as u32 }, ..output }
        } else {
            output
        },
        LogicalOutputEvent::Name(name) => if output.name.len() == 0 {
            OutputView { name: name@, ..output }
        } else {
            output
        },
        LogicalOutputEvent::Description(description) => if output.description.len() == 0 {
            OutputView { description: description@, ..output }
        } else {
            output
        },
        LogicalOutputEvent::Other => output,
    }
}

/// An output that was announced and has said nothing yet.
pub open spec fn unknown_output(output: u32) -> OutputView {
    OutputView {
        output,
        name: Seq::empty(),
        description: Seq::empty(),
        position: (0, 0),
        size: Size { width: 0, height: 0 },
    }
}

/// Whether a global of the registry is an output of a version that names itself.
pub open spec fn is_usable_output(interface: Seq<char>, version: u32) -> bool {
    interface == "wl_output"@ && version >= 4
}

impl DiscoveryState {
    /// No outputs.
    pub fn new() -> (state: Self)
        ensures
            state@ == Seq::<OutputView>::empty(),
    {
        let state = DiscoveryState { outputs: Vec::new() };
        assert(state@ == Seq::<OutputView>::empty());
        state
    }

    /// A global was announced. The answer is whether it has to be bound as an output.
    pub fn global_announced(&mut self, name: u32, interface: &str, version: u32) -> (bind: bool)
        ensures
            bind == is_usable_output(interface@, version),
            final(self)@ == if bind {
                old(self)@.push(unknown_output(name))
            } else {
                old(self)@
            },
    {
        if same_text(interface, "wl_output") && version >= 4 {
            let info = OutputInfo {
                output: name,
                name: String::new(),
                description: String::new(),
                position: (0, 0),
                size: Size { width: 0, height: 0 },
            };
            assert(info@ == unknown_output(name));
            self.outputs.push(info);
            assert(self@ == old(self)@.push(unknown_output(name)));
            true
        } else {
            false
        }
    }

    /// An output said something of itself.
    pub fn output_event(&mut self, output: u32, event: OutputEvent)
        ensures
            ({
                let i = first_index(old(self)@, |o: OutputView| o.output == output);
                final(self)@ == if i < old(self)@.len() {
                    old(self)@.update(i, output_told(old(self)@[i], event))
                } else {
                    old(self)@
                }
            }),
    {
        let ghost wanted = |o: OutputView| o.output == output;
        let ghost before = self@;
        let mut i: usize = 0;
        while i < self.outputs.len()
            invariant
                self == old(self),
                before == self@,
                i <= self.outputs@.len(),
                wanted == |o: OutputView| o.output == output,
                forall|j: int| 0 <= j < i ==> !wanted(#[trigger] before[j]),
            decreases self.outputs@.len() - i,
        {
            assert(before[i as int] == self.outputs@[i as int]@);
            if self.outputs[i].output == output {
                proof {
                    lemma_is_first_index(before, wanted, i as int);
                }
                match event {
                    OutputEvent::Name(name) => {
                        self.outputs[i].name = name;
                    },
                    OutputEvent::Description(description) => {
                        self.outputs[i].description = description;
                    },
                    OutputEvent::Mode { width, height } => {
                        self.outputs[i].size = Size { width: width as u32, height: height as u32 };
                    },
                    OutputEvent::Other => {},
                }
                assert(self@ == before.update(i as int, output_told(before[i as int], event)));
                return;
            }
            i += 1;
        }
        proof {
            lemma_is_first_index(before, wanted, i as int);
        }
    }

    /// The compositor said something of the place of an output. `index` counts the announced
    /// outputs; an event for one that was never announced is ignored.
    pub fn logical_event(&mut self, index: usize, event: LogicalOutputEvent)
        ensures
            final(self)@ == if index < old(self)@.len() {
                old(self)@.update(index as int, output_placed(old(self)@[index as int], event))
            } else {
                old(self)@
            },
    {
        if index >= self.outputs.len() {
            return;
        }
        let ghost before = self@;
        assert(before[index as int] == self.outputs@[index as int]@);
        match event {
            LogicalOutputEvent::Position { x, y } => {
                self.outputs[index].position = (x, y);
            },
            LogicalOutputEvent::Extent { width, height } => {
                if width > 0 && height > 0 {
                    self.outputs[index].size = Size { width: width as u32, height: height as u32 };
                }
            },
            LogicalOutputEvent::Name(name) => {
                if self.outputs[index].name.as_str().is_empty() {
                    self.outputs[index].name = name;
                }
            },
            LogicalOutputEvent::Description(description) => {
                if self.outputs[index].description.as_str().is_empty() {
                    self.outputs[index].description = description;
                }
            },
            LogicalOutputEvent::Other => {},
        }
        assert(self@ == before.update(index as int, output_placed(before[index as int], event)));
    }
}

/// A window of the compositor. `handle` is the number under which it was listed.
#[derive(Debug)]
pub struct ToplevelInfo {
    pub handle: u32,
    pub app_id: String,
    pub title: String,
    pub identifier: String,
    pub active: bool,
}

/// What is known of a window.
#[verifier::ext_equal]
pub struct ToplevelView {
    pub handle: u32,
    pub app_id: Seq<char>,
    pub title: Seq<char>,
    pub identifier: Seq<char>,
    pub active: bool,
}

impl View for ToplevelInfo {
    type V = ToplevelView;

    open spec fn view(&self) -> ToplevelView {
        ToplevelView {
            handle: self.handle,
            app_id: self.app_id@,
            title: self.title@,
            identifier: self.identifier@,
            active: self.active,
        }
    }
}

/// A window that was listed and of which nothing was said yet.
pub open spec fn unknown_toplevel(handle: u32) -> ToplevelView {
    ToplevelView {
        handle,
        app_id: Seq::empty(),
        title: Seq::empty(),
        identifier: Seq::empty(),
        active: true,
    }
}

impl ToplevelInfo {
    /// A window that was just listed.
    pub fn new(handle: u32) -> (info: Self)
        ensures
            info@ == unknown_toplevel(handle),
    {
        ToplevelInfo {
            handle,
            app_id: String::new(),
            title: String::new(),
            identifier: String::new(),
            active: true,
        }
    }
}

/// What is said of a window.
#[derive(Debug)]
pub enum ToplevelEvent {
    Title(String),
    AppId(String),
    Identifier(String),
    Closed,
    Other,
}

/// A window after an event.
pub open spec fn toplevel_told(toplevel: ToplevelView, event: ToplevelEvent) -> ToplevelView {
    match event {
        ToplevelEvent::Title(title) => ToplevelView { title: title@, ..toplevel },
        ToplevelEvent::AppId(app_id) => ToplevelView { app_id: app_id@, ..toplevel },
        ToplevelEvent::Identifier(identifier) => ToplevelView {
            identifier: identifier@,
            ..toplevel
        },
        ToplevelEvent::Closed => ToplevelView { active: false, ..toplevel },
        ToplevelEvent::Other => toplevel,
    }
}

/// What a capture is made of.
#[derive(Debug, Clone, Copy, PartialEq, Eq, Structural)]
pub enum CaptureTarget {
    /// The output with this registry number.
    Output(u32),
    /// The window with this handle.
    Toplevel(u32),
}

/// Why a compositor could not capture a frame.
#[derive(Debug, Clone, Copy, PartialEq, Eq, Structural)]
pub enum FailureReason {
    BufferConstraints,
    Stopped,
    Other,
}

/// How a frame ended.
#[derive(Debug, Clone, Copy, PartialEq, Eq, Structural)]
pub enum FrameState {
    Ready,
    Failed(FailureReason),
}

/// How the creation of a buffer ended.
#[derive(Debug, Clone, Copy, PartialEq, Eq, Structural)]
pub enum BufferCreateState {
    Created,
    Failed,
}

/// What a capture session says of the buffers that it accepts.
#[derive(Debug)]
pub enum SessionEvent {
    BufferSize { width: u32, height: u32 },
    ShmFormat(PixelFormat),
    DmabufDevice(Vec<u8>),
    DmabufFormat { format: u32, modifiers: Vec<u8> },
    Done,
    Stopped,
    Other,
}

/// What is said of a frame.
#[derive(Debug, Clone, Copy, PartialEq, Eq, Structural)]
pub enum FrameEvent {
    Ready,
    Damage { x: i32, y: i32, width: i32, height: i32 },
    Failed(FailureReason),
    Other,
}

/// What a compositor has said since a connection was opened.
pub struct CaptureState {
    pub shm_formats: Vec<ShmFormat>,
    pub dmabuf_formats: Vec<DmabufFormat>,
    pub frame_state: Option<FrameState>,
    pub session_done: bool,
    pub session_size: Size,
    pub has_device: bool,
    pub find_device: bool,
    pub toplevels: Vec<ToplevelInfo>,
    pub buffer_create: Option<BufferCreateState>,
    pub damage_rects: Vec<DamageRect>,
}

/// What a capture state holds.
#[verifier::ext_equal]
pub struct CaptureView {
    pub shm_formats: Seq<ShmFormat>,
    pub dmabuf_formats: Seq<DmabufFormatView>,
    pub frame_state: Option<FrameState>,
    pub session_done: bool,
    pub session_size: Size,
    pub has_device: bool,
    pub find_device: bool,
    pub toplevels: Seq<ToplevelView>,
    pub buffer_create: Option<BufferCreateState>,
    pub damage_rects: Seq<DamageRect>,
}

impl View for CaptureState {
    type V = CaptureView;

    open spec fn view(&self) -> CaptureView {
        CaptureView {
            shm_formats: self.shm_formats@,
            dmabuf_formats: self.dmabuf_formats@.map_values(|f: DmabufFormat| f@),
            frame_state: self.frame_state,
            session_done: self.session_done,
            session_size: self.session_size,
            has_device: self.has_device,
            find_device: self.find_device,
            toplevels: self.toplevels@.map_values(|t: ToplevelInfo| t@),
            buffer_create: self.buffer_create,
            damage_rects: self.damage_rects@,
        }
    }
}

impl CaptureView {
    /// The state of a new connection.
    pub open spec fn fresh(find_device: bool) -> CaptureView {
        CaptureView {
            shm_formats: Seq::empty(),
            dmabuf_formats: Seq::empty(),
            frame_state: None,
            session_done: false,
            session_size: Size { width: 0, height: 0 },
            has_device: false,
            find_device,
            toplevels: Seq::empty(),
            buffer_create: None,
            damage_rects: Seq::empty(),
        }
    }

    /// Every offered format has the size of the session, and rows without padding.
    pub open spec fn consistent(self) -> bool {
        &&& forall|i: int|
            0 <= i < self.shm_formats.len() ==> (#[trigger] self.shm_formats[i]).size
                == self.session_size && self.shm_formats[i].stride == self.session_size.width * 4
        &&& forall|i: int|
            0 <= i < self.dmabuf_formats.len() ==> (#[trigger] self.dmabuf_formats[i]).size
                == self.session_size
    }

    /// Whether the rows that an event asks for can be measured in 32 bits.
    pub open spec fn measurable(self, event: SessionEvent) -> bool {
        match event {
            SessionEvent::BufferSize { width, .. } => self.shm_formats.len() > 0 ==> width * 4
                <= u32::MAX,
            SessionEvent::ShmFormat(_) => self.session_size.width * 4 <= u32::MAX,
            _ => true,
        }
    }

    /// The state after an event of the session. Numbers are in the given byte order.
    pub open spec fn after_session(self, event: SessionEvent, order: ByteOrder) -> CaptureView {
        match event {
            SessionEvent::BufferSize { width, height } => {
                let size = Size { width, height };
                CaptureView {
                    session_size: size,
                    shm_formats: self.shm_formats.map_values(
                        |f: ShmFormat|
                            ShmFormat { format: f.format, size, stride: (width * 4) as u32 },
                    ),
                    dmabuf_formats: self.dmabuf_formats.map_values(
                        |f: DmabufFormatView| DmabufFormatView { size, ..f },
                    ),
                    ..self
                }
            },
            SessionEvent::ShmFormat(format) => CaptureView {
                shm_formats: self.shm_formats.push(
                    ShmFormat {
                        format,
                        size: self.session_size,
                        stride: (self.session_size.width * 4) as u32,
                    },
                ),
                ..self
            },
            SessionEvent::DmabufFormat { format, modifiers } => CaptureView {
                dmabuf_formats: self.dmabuf_formats.push(
                    DmabufFormatView {
                        fourcc: format,
                        modifiers: numbers_of(modifiers@, order),
                        size: self.session_size,
                    },
                ),
                ..self
            },
            SessionEvent::Done => CaptureView { session_done: true, ..self },
            SessionEvent::Stopped => CaptureView {
                session_done: true,
                frame_state: Some(FrameState::Failed(FailureReason::Stopped)),
                ..self
            },
            SessionEvent::DmabufDevice(_) | SessionEvent::Other => self,
        }
    }

    /// The device that an event asks to open: only where one is looked for, and only where the
    /// identifier has eight bytes.
    pub open spec fn device_wanted(self, event: SessionEvent) -> Option<u64> {
        match event {
            SessionEvent::DmabufDevice(id) => if self.find_device && id@.len() == 8 {
                Some(number_of(id@, ByteOrder::Little) as u64)
            } else {
                None
            },
            _ => None,
        }
    }

    /// The state after an event of the frame.
    pub open spec fn after_frame(self, event: FrameEvent) -> CaptureView {
        match event {
            FrameEvent::Ready => CaptureView { frame_state: Some(FrameState::Ready), ..self },
            FrameEvent::Damage { x, y, width, height } => CaptureView {
                damage_rects: self.damage_rects.push(DamageRect { x, y, width, height }),
                ..self
            },
            FrameEvent::Failed(reason) => CaptureView {
                frame_state: Some(FrameState::Failed(reason)),
                ..self
            },
            FrameEvent::Other => self,
        }
    }

    /// The extent of a capture: that of the first offered format, a DMA-BUF format before a
    /// shared-memory one, or that of the session where none is offered.
    pub open spec fn probed_size(self) -> Size {
        if self.dmabuf_formats.len() > 0 {
            self.dmabuf_formats[0].size
        } else if self.shm_formats.len() > 0 {
            self.shm_formats[0].size
        } else {
            self.session_size
        }
    }
}

/// Why a frame was not captured.
#[derive(Debug)]
pub enum CaptureError {
    /// The connection failed; the text says how.
    Connection(String),
    BufferConstraints,
    Stopped,
    Failed,
}

/// What went wrong with a frame.
pub enum CaptureErrorView {
    Connection(Seq<char>),
    BufferConstraints,
    Stopped,
    Failed,
}

impl View for CaptureError {
    type V = CaptureErrorView;

    open spec fn view(&self) -> CaptureErrorView {
        match self {
            CaptureError::Connection(text) => CaptureErrorView::Connection(text@),
            CaptureError::BufferConstraints => CaptureErrorView::BufferConstraints,
            CaptureError::Stopped => CaptureErrorView::Stopped,
            CaptureError::Failed => CaptureErrorView::Failed,
        }
    }
}

impl CaptureError {
    /// The words for an error.
    pub open spec fn words(self) -> Seq<char> {
        match self@ {
            CaptureErrorView::Connection(text) => text,
            CaptureErrorView::BufferConstraints => "buffer constraints changed"@,
            CaptureErrorView::Stopped => "capture target stopped"@,
            CaptureErrorView::Failed => "frame capture failed"@,
        }
    }

    /// Says what went wrong.
    pub fn message(&self) -> (text: String)
        ensures
            text@ == self.words(),
    {
        match self {
            CaptureError::Connection(text) => text.clone(),
            CaptureError::BufferConstraints => "buffer constraints changed".to_owned(),
            CaptureError::Stopped => "capture target stopped".to_owned(),
            CaptureError::Failed => "frame capture failed".to_owned(),
        }
    }
}

impl vstd::std_specs::convert::FromSpecImpl<String> for CaptureError {
    open spec fn obeys_from_spec() -> bool {
        true
    }

    open spec fn from_spec(text: String) -> Self {
        CaptureError::Connection(text)
    }
}

impl From<String> for CaptureError {
    fn from(text: String) -> Self {
        CaptureError::Connection(text)
    }
}

/// What a frame came to.
pub open spec fn outcome_of(state: FrameState, damage: Seq<DamageRect>) -> Result<
    Seq<DamageRect>,
    CaptureErrorView,
> {
    match state {
        FrameState::Ready => Ok(damage),
        FrameState::Failed(FailureReason::BufferConstraints) => Err(
            CaptureErrorView::BufferConstraints,
        ),
        FrameState::Failed(FailureReason::Stopped) => Err(CaptureErrorView::Stopped),
        FrameState::Failed(FailureReason::Other) => Err(CaptureErrorView::Failed),
    }
}

/// What a capture of a target can be made with.
pub struct CaptureProbe {
    pub size: Size,
    pub shm_formats: Vec<ShmFormat>,
    pub dmabuf_formats: Vec<DmabufFormat>,
    pub has_dmabuf_device: bool,
}

/// What a probe found.
#[verifier::ext_equal]
pub struct ProbeView {
    pub size: Size,
    pub shm_formats: Seq<ShmFormat>,
    pub dmabuf_formats: Seq<DmabufFormatView>,
    pub has_dmabuf_device: bool,
}

impl View for CaptureProbe {
    type V = ProbeView;

    open spec fn view(&self) -> ProbeView {
        ProbeView {
            size: self.size,
            shm_formats: self.shm_formats@,
            dmabuf_formats: self.dmabuf_formats@.map_values(|f: DmabufFormat| f@),
            has_dmabuf_device: self.has_dmabuf_device,
        }
    }
}

impl CaptureState {
    /// The state of a new connection. `find_device` says whether a device for DMA-BUFs is wanted.
    pub fn new(find_device: bool) -> (state: Self)
        ensures
            state@ == CaptureView::fresh(find_device),
    {
        let state = CaptureState {
            shm_formats: Vec::new(),
            dmabuf_formats: Vec::new(),
            frame_state: None,
            session_done: false,
            session_size: Size { width: 0, height: 0 },
            has_device: false,
            find_device,
            toplevels: Vec::new(),
            buffer_create: None,
            damage_rects: Vec::new(),
        };
        assert(state@ == CaptureView::fresh(find_device));
        state
    }

    /// Whether the rows that an event asks for can be measured in 32 bits.
    pub fn is_measurable(&self, event: &SessionEvent) -> (fits: bool)
        ensures
            fits == self@.measurable(*event),
    {
        match event {
            SessionEvent::BufferSize { width, .. } => self.shm_formats.len() == 0
                || width.checked_mul(4).is_some(),
            SessionEvent::ShmFormat(_) => self.session_size.width.checked_mul(4).is_some(),
            _ => true,
        }
    }

    /// The session said what buffers it accepts, in numbers of the given byte order. The answer is
    /// the device to open for DMA-BUFs, if one is wanted now.
    pub fn session_event_in(&mut self, event: SessionEvent, order: ByteOrder) -> (device: Option<
        u64,
    >)
        requires
            old(self)@.measurable(event),
        ensures
            final(self)@ == old(self)@.after_session(event, order),
            device == old(self)@.device_wanted(event),
    {
        let ghost before = self@;
        match event {
            SessionEvent::BufferSize { width, height } => {
                let size = Size { width, height };
                self.session_size = size;
                self.resize_shm_formats(size);
                self.resize_dmabuf_formats(size);
                assert(self@ == before.after_session(event, order));
                None
            },
            SessionEvent::ShmFormat(format) => {
                self.shm_formats.push(
                    ShmFormat {
                        format,
                        size: self.session_size,
                        stride: self.session_size.width * 4,
                    },
                );
                assert(self@ == before.after_session(event, order));
                None
            },
            SessionEvent::DmabufDevice(id) => {
                if self.find_device && id.len() == 8 {
                    assert(id@.subrange(0, 8) == id@);
                    Some(read_u64(id.as_slice(), 0, ByteOrder::Little))
                } else {
                    None
                }
            },
            SessionEvent::DmabufFormat { format, modifiers } => {
                let offered = DmabufFormat {
                    fourcc: format,
                    modifiers: read_u64s(modifiers.as_slice(), order),
                    size: self.session_size,
                };
                self.dmabuf_formats.push(offered);
                assert(self@.dmabuf_formats == before.dmabuf_formats.push(offered@));
                None
            },
            SessionEvent::Done => {
                self.session_done = true;
                None
            },
            SessionEvent::Stopped => {
                self.session_done = true;
                self.frame_state = Some(FrameState::Failed(FailureReason::Stopped));
                None
            },
            SessionEvent::Other => None,
        }
    }

    /// The session said what buffers it accepts. The answer is the device to open for DMA-BUFs, if
    /// one is wanted now.
    pub fn session_event(&mut self, event: SessionEvent) -> (device: Option<u64>)
        requires
            old(self)@.measurable(event),
        ensures
            exists|order: ByteOrder|
                #![trigger is_native(order)]
                is_native(order) && final(self)@ == old(self)@.after_session(event, order),
            device == old(self)@.device_wanted(event),
    {
        self.session_event_in(event, native_byte_order())
    }

    fn resize_shm_formats(&mut self, size: Size)
        requires
            old(self).shm_formats@.len() > 0 ==> size.width * 4 <= u32::MAX,
        ensures
            *final(self) == (CaptureState { shm_formats: final(self).shm_formats, ..*old(self) }),
            final(self).shm_formats@ == old(self).shm_formats@.map_values(
                |f: ShmFormat|
                    ShmFormat { format: f.format, size, stride: (size.width * 4) as u32 },
            ),
    {
        let ghost resized = |f: ShmFormat|
            ShmFormat { format: f.format, size, stride: (size.width * 4) as u32 };
        let ghost before = self.shm_formats@;
        let mut i: usize = 0;
        while i < self.shm_formats.len()
            invariant
                *self == (CaptureState { shm_formats: self.shm_formats, ..*old(self) }),
                before == old(self).shm_formats@,
                self.shm_formats@.len() == before.len(),
                i <= before.len(),
                before.len() > 0 ==> size.width * 4 <= u32::MAX,
                resized == (|f: ShmFormat|
                    ShmFormat { format: f.format, size, stride: (size.width * 4) as u32 }),
                forall|j: int| 0 <= j < i ==> #[trigger] self.shm_formats@[j] == resized(before[j]),
                forall|j: int|
                    i <= j < before.len() ==> #[trigger] self.shm_formats@[j] == before[j],
            decreases before.len() - i,
        {
            let format: PixelFormat = self.shm_formats[i].format;
            self.shm_formats.set(i, ShmFormat { format, size, stride: size.width * 4 });
            i += 1;
        }
        assert(self.shm_formats@ == before.map_values(resized));
    }

    fn resize_dmabuf_formats(&mut self, size: Size)
        ensures
            *final(self) == (CaptureState {
                dmabuf_formats: final(self).dmabuf_formats,
                ..*old(self)
            }),
            final(self)@.dmabuf_formats == old(self)@.dmabuf_formats.map_values(
                |f: DmabufFormatView| DmabufFormatView { size, ..f },
            ),
    {
        let ghost resized = |f: DmabufFormatView| DmabufFormatView { size, ..f };
        let ghost before = self.dmabuf_formats@;
        let mut i: usize = 0;
        while i < self.dmabuf_formats.len()
            invariant
                *self == (CaptureState { dmabuf_formats: self.dmabuf_formats, ..*old(self) }),
                before == old(self).dmabuf_formats@,
                self.dmabuf_formats@.len() == before.len(),
                i <= before.len(),
                resized == (|f: DmabufFormatView| DmabufFormatView { size, ..f }),
                forall|j: int|
                    0 <= j < i ==> (#[trigger] self.dmabuf_formats@[j])@ == resized(before[j]@),
                forall|j: int|
                    i <= j < before.len() ==> #[trigger] self.dmabuf_formats@[j] == before[j],
            decreases before.len() - i,
        {
            self.dmabuf_formats[i].size = size;
            i += 1;
        }
        assert(self@.dmabuf_formats == old(self)@.dmabuf_formats.map_values(resized));
    }

    /// The wanted device was opened.
    pub fn device_opened(&mut self)
        ensures
            final(self)@ == (CaptureView { has_device: true, ..old(self)@ }),
    {
        self.has_device = true;
    }

    /// The compositor said something of the frame.
    pub fn frame_event(&mut self, event: FrameEvent)
        ensures
            final(self)@ == old(self)@.after_frame(event),
    {
        match event {
            FrameEvent::Ready => {
                self.frame_state = Some(FrameState::Ready);
            },
            FrameEvent::Damage { x, y, width, height } => {
                self.damage_rects.push(DamageRect { x, y, width, height });
            },
            FrameEvent::Failed(reason) => {
                self.frame_state = Some(FrameState::Failed(reason));
            },
            FrameEvent::Other => {},
        }
    }

    /// A window was listed.
    pub fn toplevel_listed(&mut self, handle: u32)
        ensures
            final(self)@ == (CaptureView {
                toplevels: old(self)@.toplevels.push(unknown_toplevel(handle)),
                ..old(self)@
            }),
    {
        let info = ToplevelInfo::new(handle);
        self.toplevels.push(info);
        assert(self@.toplevels == old(self)@.toplevels.push(info@));
    }

    /// Something was said of a window.
    pub fn toplevel_event(&mut self, handle: u32, event: ToplevelEvent)
        ensures
            ({
                let toplevels = old(self)@.toplevels;
                let i = first_index(toplevels, |t: ToplevelView| t.handle == handle);
                final(self)@ == if i < toplevels.len() {
                    CaptureView {
                        toplevels: toplevels.update(i, toplevel_told(toplevels[i], event)),
                        ..old(self)@
                    }
                } else {
                    old(self)@
                }
            }),
    {
        let ghost wanted = |t: ToplevelView| t.handle == handle;
        let ghost before = self@.toplevels;
        let mut i: usize = 0;
        while i < self.toplevels.len()
            invariant
                self == old(self),
                before == self@.toplevels,
                i <= self.toplevels@.len(),
                wanted == |t: ToplevelView| t.handle == handle,
                forall|j: int| 0 <= j < i ==> !wanted(#[trigger] before[j]),
            decreases self.toplevels@.len() - i,
        {
            assert(before[i as int] == self.toplevels@[i as int]@);
            if self.toplevels[i].handle == handle {
                proof {
                    lemma_is_first_index(before, wanted, i as int);
                }
                match event {
                    ToplevelEvent::Title(title) => {
                        self.toplevels[i].title = title;
                    },
                    ToplevelEvent::AppId(app_id) => {
                        self.toplevels[i].app_id = app_id;
                    },
                    ToplevelEvent::Identifier(identifier) => {
                        self.toplevels[i].identifier = identifier;
                    },
                    ToplevelEvent::Closed => {
                        self.toplevels[i].active = false;
                    },
                    ToplevelEvent::Other => {},
                }
                assert(self@.toplevels == before.update(
                    i as int,
                    toplevel_told(before[i as int], event),
                ));
                return;
            }
            i += 1;
        }
        proof {
            lemma_is_first_index(before, wanted, i as int);
        }
    }

    /// The compositor answered a request for a buffer.
    pub fn buffer_event(&mut self, created: bool)
        ensures
            final(self)@ == (CaptureView {
                buffer_create: Some(
                    if created {
                        BufferCreateState::Created
                    } else {
                        BufferCreateState::Failed
                    },
                ),
                ..old(self)@
            }),
    {
        self.buffer_create = Some(
            if created {
                BufferCreateState::Created
            } else {
                BufferCreateState::Failed
            },
        );
    }

    /// What the frame came to: its damage or why it failed. Nothing while it is still pending.
    pub fn frame_outcome(self) -> (outcome: Option<Result<Vec<DamageRect>, CaptureError>>)
        ensures
            match self@.frame_state {
                None => outcome is None,
                Some(state) => match outcome_of(state, self@.damage_rects) {
                    Ok(damage) => outcome matches Some(Ok(rects)) && rects@ == damage,
                    Err(error) => outcome matches Some(Err(e)) && e@ == error,
                },
            },
    {
        match self.frame_state {
            None => None,
            Some(FrameState::Ready) => Some(Ok(self.damage_rects)),
            Some(FrameState::Failed(FailureReason::BufferConstraints)) => Some(
                Err(CaptureError::BufferConstraints),
            ),
            Some(FrameState::Failed(FailureReason::Stopped)) => Some(Err(CaptureError::Stopped)),
            Some(FrameState::Failed(FailureReason::Other)) => Some(Err(CaptureError::Failed)),
        }
    }

    /// What the session offers. `had_device` says whether an earlier one brought a device.
    pub fn into_probe(self, had_device: bool) -> (probe: CaptureProbe)
        ensures
            probe@ == (ProbeView {
                size: self@.probed_size(),
                shm_formats: self@.shm_formats,
                dmabuf_formats: self@.dmabuf_formats,
                has_dmabuf_device: had_device || self@.has_device,
            }),
    {
        let size: Size = if self.dmabuf_formats.len() > 0 {
            self.dmabuf_formats[0].size
        } else if self.shm_formats.len() > 0 {
            self.shm_formats[0].size
        } else {
            self.session_size
        };
        CaptureProbe {
            size,
            shm_formats: self.shm_formats,
            dmabuf_formats: self.dmabuf_formats,
            has_dmabuf_device: had_device || self.has_device,
        }
    }
}

/// A capture connection: the outputs and windows that were found, and whether a device for
/// DMA-BUFs was.
pub struct DirectCapture {
    pub outputs: Vec<OutputInfo>,
    pub toplevels: Vec<ToplevelInfo>,
    pub has_device: bool,
}

/// What a capture connection found.
#[verifier::ext_equal]
pub struct DirectCaptureView {
    pub outputs: Seq<OutputView>,
    pub toplevels: Seq<ToplevelView>,
    pub has_device: bool,
}

impl View for DirectCapture {
    type V = DirectCaptureView;

    open spec fn view(&self) -> DirectCaptureView {
        DirectCaptureView {
            outputs: self.outputs@.map_values(|o: OutputInfo| o@),
            toplevels: self.toplevels@.map_values(|t: ToplevelInfo| t@),
            has_device: self.has_device,
        }
    }
}

/// The first output of a name.
pub open spec fn output_named(outputs: Seq<OutputView>, name: Seq<char>) -> Option<OutputView> {
    first_of(outputs, |o: OutputView| o.name == name)
}

/// The first window of an identifier.
pub open spec fn toplevel_identified(
    toplevels: Seq<ToplevelView>,
    identifier: Seq<char>,
) -> Option<ToplevelView> {
    first_of(toplevels, |t: ToplevelView| t.identifier == identifier)
}

impl DirectCapture {
    /// Finds the first output of a name.
    pub fn find_output(&self, name: &str) -> (found: Option<usize>)
        ensures
            match found {
                Some(i) => i < self.outputs@.len() && output_named(self@.outputs, name@) == Some(
                    self.outputs@[i as int]@,
                ),
                None => output_named(self@.outputs, name@) is None,
            },
    {
        let ghost wanted = |o: OutputView| o.name == name@;
        let mut i: usize = 0;
        while i < self.outputs.len()
            invariant
                i <= self.outputs@.len(),
                wanted == (|o: OutputView| o.name == name@),
                forall|j: int| 0 <= j < i ==> !wanted(#[trigger] self@.outputs[j]),
            decreases self.outputs@.len() - i,
        {
            assert(self@.outputs[i as int] == self.outputs@[i as int]@);
            if same_text(self.outputs[i].name.as_str(), name) {
                proof {
                    lemma_is_first_index(self@.outputs, wanted, i as int);
                }
                return Some(i);
            }
            i += 1;
        }
        proof {
            lemma_is_first_index(self@.outputs, wanted, i as int);
        }
        None
    }

    /// Finds the first window of an identifier.
    pub fn find_toplevel(&self, identifier: &str) -> (found: Option<usize>)
        ensures
            match found {
                Some(i) => i < self.toplevels@.len() && toplevel_identified(
                    self@.toplevels,
                    identifier@,
                ) == Some(self.toplevels@[i as int]@),
                None => toplevel_identified(self@.toplevels, identifier@) is None,
            },
    {
        let ghost wanted = |t: ToplevelView| t.identifier == identifier@;
        let mut i: usize = 0;
        while i < self.toplevels.len()
            invariant
                i <= self.toplevels@.len(),
                wanted == (|t: ToplevelView| t.identifier == identifier@),
                forall|j: int| 0 <= j < i ==> !wanted(#[trigger] self@.toplevels[j]),
            decreases self.toplevels@.len() - i,
        {
            assert(self@.toplevels[i as int] == self.toplevels@[i as int]@);
            if same_text(self.toplevels[i].identifier.as_str(), identifier) {
                proof {
                    lemma_is_first_index(self@.toplevels, wanted, i as int);
                }
                return Some(i);
            }
            i += 1;
        }
        proof {
            lemma_is_first_index(self@.toplevels, wanted, i as int);
        }
        None
    }

    /// A connection that was just opened.
    pub fn new() -> (capture: Self)
        ensures
            capture@ == (DirectCaptureView {
                outputs: Seq::empty(),
                toplevels: Seq::empty(),
                has_device: false,
            }),
    {
        let capture = DirectCapture {
            outputs: Vec::new(),
            toplevels: Vec::new(),
            has_device: false,
        };
        assert(capture@.outputs == Seq::<OutputView>::empty());
        assert(capture@.toplevels == Seq::<ToplevelView>::empty());
        capture
    }

    /// The outputs that were found last.
    pub fn outputs(&self) -> (outputs: &[OutputInfo])
        ensures
            outputs@.map_values(|o: OutputInfo| o@) == self@.outputs,
    {
        self.outputs.as_slice()
    }

    /// The windows that were found last.
    pub fn toplevels(&self) -> (toplevels: &[ToplevelInfo])
        ensures
            toplevels@.map_values(|t: ToplevelInfo| t@) == self@.toplevels,
    {
        self.toplevels.as_slice()
    }

    /// Takes over the outputs of a discovery.
    pub fn refresh_outputs(&mut self, state: DiscoveryState)
        ensures
            final(self)@ == (DirectCaptureView { outputs: state@, ..old(self)@ }),
    {
        self.outputs = state.outputs;
    }

    /// Takes over the windows of a listing.
    pub fn refresh_toplevels(&mut self, state: CaptureState)
        ensures
            final(self)@ == (DirectCaptureView { toplevels: state@.toplevels, ..old(self)@ }),
    {
        self.toplevels = state.toplevels;
    }

    /// Takes over what a session offers. A device that was found once stays.
    pub fn probe(&mut self, state: CaptureState) -> (probe: CaptureProbe)
        ensures
            final(self)@ == (DirectCaptureView {
                has_device: old(self)@.has_device || state@.has_device,
                ..old(self)@
            }),
            probe@ == (ProbeView {
                size: state@.probed_size(),
                shm_formats: state@.shm_formats,
                dmabuf_formats: state@.dmabuf_formats,
                has_dmabuf_device: old(self)@.has_device || state@.has_device,
            }),
    {
        let probe = state.into_probe(self.has_device);
        self.has_device = probe.has_dmabuf_device;
        probe
    }
}

/// Every event of a session leaves all offered formats with the size of the session and with rows
/// without padding, whenever the size comes.
pub proof fn law_session_stays_consistent(
    state: CaptureView,
    event: SessionEvent,
    order: ByteOrder,
)
    requires
        state.consistent(),
        state.measurable(event),
    ensures
        state.after_session(event, order).consistent(),
{
    let after = state.after_session(event, order);
    assert forall|i: int| 0 <= i < after.shm_formats.len() implies (
    #[trigger] after.shm_formats[i]).size == after.session_size && after.shm_formats[i].stride
        == after.session_size.width * 4 by {
        if i < state.shm_formats.len() {
            assert(state.shm_formats[i].size == state.session_size);
        }
    }
    assert forall|i: int| 0 <= i < after.dmabuf_formats.len() implies (
    #[trigger] after.dmabuf_formats[i]).size == after.session_size by {
        if i < state.dmabuf_formats.len() {
            assert(state.dmabuf_formats[i].size == state.session_size);
        }
    }
}

/// A new connection is consistent, and frame events keep it so.
pub proof fn law_frames_keep_session_consistent(
    state: CaptureView,
    event: FrameEvent,
    find_device: bool,
)
    requires
        state.consistent(),
    ensures
        CaptureView::fresh(find_device).consistent(),
        state.after_frame(event).consistent(),
{
    let after = state.after_frame(event);
    assert(after.shm_formats == state.shm_formats);
    assert(after.dmabuf_formats == state.dmabuf_formats);
}

/// The extent of a probe is always that of the session.
pub proof fn law_probe_has_session_size(state: CaptureView)
    requires
        state.consistent(),
    ensures
        state.probed_size() == state.session_size,
{
}

/// A stopped session ends the wait for buffers and fails the frame.
pub proof fn law_stopped_session_fails_frame(state: CaptureView, order: ByteOrder)
    ensures
        state.after_session(SessionEvent::Stopped, order).session_done,
        state.after_session(SessionEvent::Stopped, order).frame_state == Some(
            FrameState::Failed(FailureReason::Stopped),
        ),
{
}

/// Whether the same is known of two outputs.
pub open spec fn same_output(a: OutputInfo, b: OutputInfo) -> bool {
    &&& a.output == b.output
    &&& a.name@ == b.name@
    &&& a.description@ == b.description@
    &&& a.position == b.position
    &&& a.size == b.size
}

/// Whether the same is known of two windows.
pub open spec fn same_toplevel(a: ToplevelInfo, b: ToplevelInfo) -> bool {
    &&& a.handle == b.handle
    &&& a.app_id@ == b.app_id@
    &&& a.title@ == b.title@
    &&& a.identifier@ == b.identifier@
    &&& a.active == b.active
}

/// Whether two DMA-BUF formats are the same.
pub open spec fn same_format(a: DmabufFormat, b: DmabufFormat) -> bool {
    a.fourcc == b.fourcc && a.modifiers@ == b.modifiers@ && a.size == b.size
}

/// Whether two states have the same frame.
pub open spec fn same_frame(a: CaptureState, b: CaptureState) -> bool {
    a.frame_state == b.frame_state && a.damage_rects@ == b.damage_rects@
}

/// Whether two states have the same shared-memory formats.
pub open spec fn same_shm(a: CaptureState, b: CaptureState) -> bool {
    a.shm_formats@ == b.shm_formats@
}

/// Whether two states have the same DMA-BUF formats.
pub open spec fn same_dmabuf(a: CaptureState, b: CaptureState) -> bool {
    &&& a.dmabuf_formats@.len() == b.dmabuf_formats@.len()
    &&& forall|i: int|
        0 <= i < a.dmabuf_formats@.len() ==> same_format(
            #[trigger] a.dmabuf_formats@[i],
            b.dmabuf_formats@[i],
        )
}

/// Whether two states have the same windows.
pub open spec fn same_toplevels(a: CaptureState, b: CaptureState) -> bool {
    &&& a.toplevels@.len() == b.toplevels@.len()
    &&& forall|i: int|
        0 <= i < a.toplevels@.len() ==> same_toplevel(#[trigger] a.toplevels@[i], b.toplevels@[i])
}

/// Whether two states have the same device, windows and answer to a request for a buffer.
pub open spec fn same_surroundings(a: CaptureState, b: CaptureState) -> bool {
    &&& a.has_device == b.has_device
    &&& a.find_device == b.find_device
    &&& a.buffer_create == b.buffer_create
    &&& same_toplevels(a, b)
}

/// Whether two states stand at the same point of a session, with the same formats and frame.
pub open spec fn same_session(a: CaptureState, b: CaptureState) -> bool {
    &&& a.session_done == b.session_done
    &&& a.session_size == b.session_size
    &&& same_shm(a, b)
    &&& same_dmabuf(a, b)
    &&& same_frame(a, b)
}

proof fn lemma_same_formats(a: CaptureState, b: CaptureState)
    requires
        a@.dmabuf_formats == b@.dmabuf_formats,
    ensures
        same_dmabuf(a, b),
{
    lemma_shown(a);
    lemma_shown(b);
    assert forall|i: int| 0 <= i < a.dmabuf_formats@.len() implies same_format(
        #[trigger] a.dmabuf_formats@[i],
        b.dmabuf_formats@[i],
    ) by {
        assert(b.dmabuf_formats@[i]@ == a.dmabuf_formats@[i]@);
    }
}

proof fn lemma_same_windows(a: CaptureState, b: CaptureState)
    requires
        a@.toplevels == b@.toplevels,
    ensures
        same_toplevels(a, b),
{
    lemma_shown(a);
    lemma_shown(b);
    assert forall|i: int| 0 <= i < a.toplevels@.len() implies same_toplevel(
        #[trigger] a.toplevels@[i],
        b.toplevels@[i],
    ) by {
        assert(b.toplevels@[i]@ == a.toplevels@[i]@);
    }
}

proof fn lemma_shown(state: CaptureState)
    ensures
        state@.dmabuf_formats.len() == state.dmabuf_formats@.len(),
        state@.toplevels.len() == state.toplevels@.len(),
        forall|i: int|
            0 <= i < state.dmabuf_formats@.len() ==> (#[trigger] state.dmabuf_formats@[i])@
                == state@.dmabuf_formats[i],
        forall|i: int|
            0 <= i < state.toplevels@.len() ==> (#[trigger] state.toplevels@[i])@
                == state@.toplevels[i],
{
}

/// A frame gathers every damage that is reported of it, in order, and ends as it is said to end.
/// Nothing else is touched.
pub proof fn law_frame_events_are_gathered(state: &mut CaptureState, event: FrameEvent)
    requires
        call_ensures(CaptureState::frame_event, (state, event), ()),
    ensures
        event matches FrameEvent::Damage { x, y, width, height } ==> {
            let rects = final(state).damage_rects@;
            &&& rects.len() == old(state).damage_rects@.len() + 1
            &&& old(state).damage_rects@.is_prefix_of(rects)
            &&& rects.last().x == x && rects.last().y == y
            &&& rects.last().width == width && rects.last().height == height
        },
        !(event is Damage) ==> final(state).damage_rects@ == old(state).damage_rects@,
        event is Ready ==> final(state).frame_state == Some(FrameState::Ready),
        event matches FrameEvent::Failed(reason) ==> final(state).frame_state == Some(
            FrameState::Failed(reason),
        ),
        event is Damage || event is Other ==> final(state).frame_state == old(state).frame_state,
        same_shm(*old(state), *final(state)),
        same_dmabuf(*old(state), *final(state)),
        final(state).session_done == old(state).session_done,
        final(state).session_size == old(state).session_size,
        same_surroundings(*old(state), *final(state)),
{
    lemma_same_formats(*old(state), *final(state));
    lemma_same_windows(*old(state), *final(state));
}

/// The state after a run of events of a frame.
pub open spec fn after_frames(state: CaptureView, events: Seq<FrameEvent>) -> CaptureView
    decreases events.len(),
{
    if events.len() == 0 {
        state
    } else {
        after_frames(state, events.drop_last()).after_frame(events.last())
    }
}

/// The rectangles of the damage events in a run of events, in order.
pub open spec fn reported_rects(events: Seq<FrameEvent>) -> Seq<DamageRect>
    decreases events.len(),
{
    if events.len() == 0 {
        Seq::empty()
    } else {
        let earlier = reported_rects(events.drop_last());
        match events.last() {
            FrameEvent::Damage { x, y, width, height } => earlier.push(
                DamageRect { x, y, width, height },
            ),
            _ => earlier,
        }
    }
}

/// After a run of events, the damage of a frame is that of before and all that was reported since,
/// in order. The last event that ends the frame decides how it ended.
pub proof fn law_runs_of_events_are_gathered(state: CaptureView, events: Seq<FrameEvent>)
    ensures
        after_frames(state, events).damage_rects == state.damage_rects + reported_rects(events),
        events.len() > 0 && events.last() is Ready ==> after_frames(state, events).frame_state
            == Some(FrameState::Ready),
        (forall|i: int|
            0 <= i < events.len() ==> (#[trigger] events[i]) is Damage || events[i] is Other)
            ==> after_frames(state, events).frame_state == state.frame_state,
    decreases events.len(),
{
    if events.len() > 0 {
        let init = events.drop_last();
        law_runs_of_events_are_gathered(state, init);
        if forall|i: int|
            0 <= i < events.len() ==> (#[trigger] events[i]) is Damage || events[i] is Other {
            assert forall|i: int| 0 <= i < init.len() implies (#[trigger] init[i]) is Damage
                || init[i] is Other by {
                assert(init[i] == events[i]);
            }
            assert(events[events.len() - 1] is Damage || events[events.len() - 1] is Other);
        }
    }
}

/// A frame that is ready comes to exactly the damage that was gathered; one that failed comes to
/// why it did, and one that is pending to nothing.
pub proof fn law_frames_come_to_their_damage(
    state: CaptureState,
    outcome: Option<Result<Vec<DamageRect>, CaptureError>>,
)
    requires
        call_ensures(CaptureState::frame_outcome, (state,), outcome),
    ensures
        outcome is None <==> state.frame_state is None,
        state.frame_state == Some(FrameState::Ready) ==> (outcome matches Some(Ok(rects)) && rects@
            == state.damage_rects@),
        state.frame_state == Some(FrameState::Failed(FailureReason::BufferConstraints)) ==> (
        outcome matches Some(Err(error)) && error is BufferConstraints),
        state.frame_state == Some(FrameState::Failed(FailureReason::Stopped)) ==> (
        outcome matches Some(Err(error)) && error is Stopped),
        state.frame_state == Some(FrameState::Failed(FailureReason::Other)) ==> (
        outcome matches Some(Err(error)) && error is Failed),
{
}

/// The size of a session becomes that of every format on offer, with rows without padding. The
/// formats themselves and their layouts stay, and nothing else is touched.
pub proof fn law_session_size_reaches_every_format(
    state: &mut CaptureState,
    width: u32,
    height: u32,
    order: ByteOrder,
    device: Option<u64>,
)
    requires
        old(state)@.measurable(SessionEvent::BufferSize { width, height }),
        call_ensures(
            CaptureState::session_event_in,
            (state, SessionEvent::BufferSize { width, height }, order),
            device,
        ),
    ensures
        device is None,
        final(state).session_size.width == width,
        final(state).session_size.height == height,
        final(state).shm_formats@.len() == old(state).shm_formats@.len(),
        forall|i: int|
            0 <= i < old(state).shm_formats@.len() ==> {
                let format = #[trigger] final(state).shm_formats@[i];
                &&& format.format == old(state).shm_formats@[i].format
                &&& format.size.width == width && format.size.height == height
                &&& format.stride == width * 4
            },
        final(state).dmabuf_formats@.len() == old(state).dmabuf_formats@.len(),
        forall|i: int|
            0 <= i < old(state).dmabuf_formats@.len() ==> {
                let format = #[trigger] final(state).dmabuf_formats@[i];
                &&& format.fourcc == old(state).dmabuf_formats@[i].fourcc
                &&& format.modifiers@ == old(state).dmabuf_formats@[i].modifiers@
                &&& format.size.width == width && format.size.height == height
            },
        final(state).session_done == old(state).session_done,
        same_frame(*old(state), *final(state)),
        same_surroundings(*old(state), *final(state)),
{
    lemma_shown(*old(state));
    lemma_shown(*final(state));
    assert forall|i: int| 0 <= i < old(state).dmabuf_formats@.len() implies {
        let format = #[trigger] final(state).dmabuf_formats@[i];
        &&& format.fourcc == old(state).dmabuf_formats@[i].fourcc
        &&& format.modifiers@ == old(state).dmabuf_formats@[i].modifiers@
        &&& format.size.width == width && format.size.height == height
    } by {
        assert(old(state).dmabuf_formats@[i]@ == old(state)@.dmabuf_formats[i]);
    }
    lemma_same_windows(*old(state), *final(state));
}

/// A shared-memory format that is offered joins the others at the end, with the size of the session
/// and rows without padding. Nothing else is touched.
pub proof fn law_offered_shm_format_is_noted(
    state: &mut CaptureState,
    format: PixelFormat,
    order: ByteOrder,
    device: Option<u64>,
)
    requires
        old(state)@.measurable(SessionEvent::ShmFormat(format)),
        call_ensures(
            CaptureState::session_event_in,
            (state, SessionEvent::ShmFormat(format), order),
            device,
        ),
    ensures
        device is None,
        final(state).shm_formats@.len() == old(state).shm_formats@.len() + 1,
        old(state).shm_formats@.is_prefix_of(final(state).shm_formats@),
        final(state).shm_formats@.last().format == format,
        final(state).shm_formats@.last().size == old(state).session_size,
        final(state).shm_formats@.last().stride == old(state).session_size.width * 4,
        final(state).session_size == old(state).session_size,
        final(state).session_done == old(state).session_done,
        same_dmabuf(*old(state), *final(state)),
        same_frame(*old(state), *final(state)),
        same_surroundings(*old(state), *final(state)),
{
    lemma_same_formats(*old(state), *final(state));
    lemma_same_windows(*old(state), *final(state));
}

/// A DMA-BUF format that is offered joins the others at the end, with the size of the session and a
/// layout for every eight bytes, in order. Nothing else is touched.
pub proof fn law_offered_dmabuf_format_is_noted(
    state: &mut CaptureState,
    format: u32,
    modifiers: Vec<u8>,
    order: ByteOrder,
    device: Option<u64>,
)
    requires
        call_ensures(
            CaptureState::session_event_in,
            (state, SessionEvent::DmabufFormat { format, modifiers }, order),
            device,
        ),
    ensures
        device is None,
        final(state).dmabuf_formats@.len() == old(state).dmabuf_formats@.len() + 1,
        forall|i: int|
            0 <= i < old(state).dmabuf_formats@.len() ==> same_format(
                #[trigger] final(state).dmabuf_formats@[i],
                old(state).dmabuf_formats@[i],
            ),
        final(state).dmabuf_formats@.last().fourcc == format,
        final(state).dmabuf_formats@.last().size == old(state).session_size,
        final(state).dmabuf_formats@.last().modifiers@.len() == modifiers@.len() / 8,
        forall|i: int|
            0 <= i < modifiers@.len() / 8
                ==> #[trigger] final(state).dmabuf_formats@.last().modifiers@[i] == number_of(
                modifiers@.subrange(8 * i, 8 * i + 8),
                order,
            ) as u64,
        final(state).session_size == old(state).session_size,
        final(state).session_done == old(state).session_done,
        same_shm(*old(state), *final(state)),
        same_frame(*old(state), *final(state)),
        same_surroundings(*old(state), *final(state)),
{
    lemma_shown(*old(state));
    lemma_shown(*final(state));
    let n = old(state).dmabuf_formats@.len() as int;
    assert(final(state).dmabuf_formats@[n]@ == final(state)@.dmabuf_formats[n]);
    assert forall|i: int| 0 <= i < n implies same_format(
        #[trigger] final(state).dmabuf_formats@[i],
        old(state).dmabuf_formats@[i],
    ) by {
        assert(final(state).dmabuf_formats@[i]@ == old(state).dmabuf_formats@[i]@);
    }
    lemma_same_windows(*old(state), *final(state));
}

/// A device is opened exactly where one is looked for and its identifier has eight bytes: the one
/// with that number, the lowest byte first. A session is done once it says so or stops, and one
/// that stops fails its frame. These events touch no format.
pub proof fn law_other_session_events(
    state: &mut CaptureState,
    event: SessionEvent,
    order: ByteOrder,
    device: Option<u64>,
)
    requires
        event is DmabufDevice || event is Done || event is Stopped || event is Other,
        call_ensures(CaptureState::session_event_in, (state, event, order), device),
    ensures
        device is Some <==> old(state).find_device && (event matches SessionEvent::DmabufDevice(id)
            && id@.len() == 8),
        device matches Some(number) ==> number == number_of(
            event->DmabufDevice_0@,
            ByteOrder::Little,
        ) as u64,
        event is Done || event is Stopped ==> final(state).session_done,
        event is DmabufDevice || event is Other ==> final(state).session_done
            == old(state).session_done,
        event is Stopped ==> final(state).frame_state == Some(
            FrameState::Failed(FailureReason::Stopped),
        ),
        !(event is Stopped) ==> final(state).frame_state == old(state).frame_state,
        final(state).damage_rects@ == old(state).damage_rects@,
        final(state).session_size == old(state).session_size,
        same_shm(*old(state), *final(state)),
        same_dmabuf(*old(state), *final(state)),
        same_surroundings(*old(state), *final(state)),
{
    lemma_same_formats(*old(state), *final(state));
    lemma_same_windows(*old(state), *final(state));
}

/// An event in the byte order of the machine is one in an order of the machine.
pub proof fn law_session_events_are_native(
    state: &mut CaptureState,
    event: SessionEvent,
    device: Option<u64>,
)
    requires
        call_ensures(CaptureState::session_event, (state, event), device),
    ensures
        exists|order: ByteOrder| #[trigger]
            is_native(order) && final(state)@ == old(state)@.after_session(event, order),
        device == old(state)@.device_wanted(event),
{
}

/// Rows can be measured exactly where four bytes for each of their pixels fit into 32 bits, or
/// where none is asked for.
pub proof fn law_measurable_rows(state: CaptureState, event: SessionEvent, fits: bool)
    requires
        call_ensures(CaptureState::is_measurable, (&state, &event), fits),
    ensures
        event matches SessionEvent::BufferSize { width, .. } ==> fits == (state.shm_formats@.len()
            == 0 || width * 4 <= 0xffff_ffff),
        event is ShmFormat ==> fits == (state.session_size.width * 4 <= 0xffff_ffff),
        !(event is BufferSize) && !(event is ShmFormat) ==> fits,
{
}

/// A new connection knows nothing.
pub proof fn law_new_connections_know_nothing(find_device: bool, state: CaptureState)
    requires
        call_ensures(CaptureState::new, (find_device,), state),
    ensures
        state.shm_formats@.len() == 0,
        state.dmabuf_formats@.len() == 0,
        state.frame_state is None,
        !state.session_done,
        state.session_size.width == 0 && state.session_size.height == 0,
        !state.has_device,
        state.find_device == find_device,
        state.toplevels@.len() == 0,
        state.buffer_create is None,
        state.damage_rects@.len() == 0,
{
    lemma_shown(state);
}

/// A probe hands on the formats on offer as they are. Its extent is that of the first of them, a
/// DMA-BUF format before a shared-memory one. There is a device where this or an earlier session
/// brought one.
pub proof fn law_probes_hand_on_the_offers(
    state: CaptureState,
    had_device: bool,
    probe: CaptureProbe,
)
    requires
        call_ensures(CaptureState::into_probe, (state, had_device), probe),
    ensures
        probe.shm_formats@ == state.shm_formats@,
        probe.dmabuf_formats@.len() == state.dmabuf_formats@.len(),
        forall|i: int|
            0 <= i < state.dmabuf_formats@.len() ==> same_format(
                #[trigger] probe.dmabuf_formats@[i],
                state.dmabuf_formats@[i],
            ),
        probe.has_dmabuf_device == (had_device || state.has_device),
        state.dmabuf_formats@.len() > 0 ==> probe.size == state.dmabuf_formats@[0].size,
        state.dmabuf_formats@.len() == 0 && state.shm_formats@.len() > 0 ==> probe.size
            == state.shm_formats@[0].size,
        state.dmabuf_formats@.len() == 0 && state.shm_formats@.len() == 0 ==> probe.size
            == state.session_size,
{
    lemma_shown(state);
    assert(probe@.dmabuf_formats.len() == probe.dmabuf_formats@.len());
    assert forall|i: int| 0 <= i < state.dmabuf_formats@.len() implies same_format(
        #[trigger] probe.dmabuf_formats@[i],
        state.dmabuf_formats@[i],
    ) by {
        assert(probe@.dmabuf_formats[i] == probe.dmabuf_formats@[i]@);
        assert(state@.dmabuf_formats[i] == state.dmabuf_formats@[i]@);
    }
    if state.dmabuf_formats@.len() > 0 {
        assert(state@.dmabuf_formats[0] == state.dmabuf_formats@[0]@);
    }
}

/// A connection hands on what a session offers, and keeps its outputs and windows. A device that
/// was found once stays.
pub proof fn law_probing_keeps_the_device(
    capture: &mut DirectCapture,
    state: CaptureState,
    probe: CaptureProbe,
    same: CaptureProbe,
)
    requires
        call_ensures(DirectCapture::probe, (capture, state), probe),
        call_ensures(CaptureState::into_probe, (state, old(capture).has_device), same),
    ensures
        probe@ == same@,
        final(capture).has_device == (old(capture).has_device || state.has_device),
        final(capture)@.outputs == old(capture)@.outputs,
        final(capture)@.toplevels == old(capture)@.toplevels,
{
}

/// An output is bound exactly where it is an output of version four or later. It joins the others
/// at the end, and nothing is known of it but its number.
pub proof fn law_recent_outputs_are_bound(
    state: &mut DiscoveryState,
    name: u32,
    interface: &str,
    version: u32,
    bind: bool,
)
    requires
        call_ensures(DiscoveryState::global_announced, (state, name, interface, version), bind),
    ensures
        bind <==> interface@ == "wl_output"@ && version >= 4,
        !bind ==> final(state).outputs@.len() == old(state).outputs@.len(),
        bind ==> final(state).outputs@.len() == old(state).outputs@.len() + 1,
        forall|i: int|
            0 <= i < old(state).outputs@.len() ==> same_output(
                #[trigger] final(state).outputs@[i],
                old(state).outputs@[i],
            ),
        bind ==> {
            let info = final(state).outputs@.last();
            &&& info.output == name
            &&& info.name@.len() == 0 && info.description@.len() == 0
            &&& info.position.0 == 0 && info.position.1 == 0
            &&& info.size.width == 0 && info.size.height == 0
        },
{
    assert(final(state)@.len() == final(state).outputs@.len());
    assert(old(state)@.len() == old(state).outputs@.len());
    assert forall|i: int| 0 <= i < old(state).outputs@.len() implies same_output(
        #[trigger] final(state).outputs@[i],
        old(state).outputs@[i],
    ) by {
        assert(final(state)@[i] == final(state).outputs@[i]@);
        assert(old(state)@[i] == old(state).outputs@[i]@);
    }
    if bind {
        let n = old(state).outputs@.len() as int;
        assert(final(state)@[n] == final(state).outputs@[n]@);
    }
}

/// Whether two lists of outputs are the same but for one of them.
pub open spec fn same_outputs_but(a: Seq<OutputInfo>, b: Seq<OutputInfo>, i: int) -> bool {
    &&& a.len() == b.len()
    &&& forall|j: int| 0 <= j < a.len() && j != i ==> same_output(#[trigger] a[j], b[j])
}

/// What an output says of itself is noted of the first output with its number, and of no other: a
/// name, a description, or the size of its mode. All else that is known of it stays.
pub proof fn law_outputs_are_told(
    state: &mut DiscoveryState,
    output: u32,
    event: OutputEvent,
    i: int,
)
    requires
        call_ensures(DiscoveryState::output_event, (state, output, event), ()),
        0 <= i < old(state).outputs@.len(),
        old(state).outputs@[i].output == output,
        forall|j: int| 0 <= j < i ==> (#[trigger] old(state).outputs@[j]).output != output,
    ensures
        same_outputs_but(old(state).outputs@, final(state).outputs@, i),
        ({
            let was = old(state).outputs@[i];
            let now = final(state).outputs@[i];
            &&& now.output == was.output
            &&& now.position == was.position
            &&& event matches OutputEvent::Name(name) ==> now.name@ == name@
            &&& !(event is Name) ==> now.name@ == was.name@
            &&& event matches OutputEvent::Description(text) ==> now.description@ == text@
            &&& !(event is Description) ==> now.description@ == was.description@
            &&& event matches OutputEvent::Mode { width, height } ==> now.size.width == width as u32
                && now.size.height == height as u32
            &&& !(event is Mode) ==> now.size == was.size
        }),
{
    let wanted = |o: OutputView| o.output == output;
    let before = old(state)@;
    assert(before[i] == old(state).outputs@[i]@);
    assert forall|j: int| 0 <= j < i implies !wanted(#[trigger] before[j]) by {
        assert(before[j] == old(state).outputs@[j]@);
    }
    lemma_is_first_index(before, wanted, i);
    assert(final(state)@.len() == final(state).outputs@.len());
    assert(before.len() == old(state).outputs@.len());
    assert(final(state)@[i] == final(state).outputs@[i]@);
    assert forall|j: int| 0 <= j < before.len() && j != i implies same_output(
        #[trigger] old(state).outputs@[j],
        final(state).outputs@[j],
    ) by {
        assert(before[j] == old(state).outputs@[j]@);
        assert(final(state)@[j] == final(state).outputs@[j]@);
    }
}

/// What is said of the place of an output is noted of that output, and of no other: its position,
/// its extent where it is positive, and a name or a description where it has none of its own.
pub proof fn law_outputs_are_placed(
    state: &mut DiscoveryState,
    index: usize,
    event: LogicalOutputEvent,
)
    requires
        call_ensures(DiscoveryState::logical_event, (state, index, event), ()),
    ensures
        same_outputs_but(old(state).outputs@, final(state).outputs@, index as int),
        index < old(state).outputs@.len() ==> {
            let was = old(state).outputs@[index as int];
            let now = final(state).outputs@[index as int];
            &&& now.output == was.output
            &&& event matches LogicalOutputEvent::Position { x, y } ==> now.position.0 == x
                && now.position.1 == y
            &&& !(event is Position) ==> now.position == was.position
            &&& (event matches LogicalOutputEvent::Extent { width, height } && width > 0 && height
                > 0) ==> now.size.width == event->width && now.size.height == event->height
            &&& !(event matches LogicalOutputEvent::Extent { width, height } && width > 0 && height
                > 0) ==> now.size == was.size
            &&& (event is Name && was.name@.len() == 0) ==> now.name@ == event->Name_0@
            &&& !(event is Name && was.name@.len() == 0) ==> now.name@ == was.name@
            &&& (event is Description && was.description@.len() == 0) ==> now.description@
                == event->Description_0@
            &&& !(event is Description && was.description@.len() == 0) ==> now.description@
                == was.description@
        },
{
    let before = old(state)@;
    let i = index as int;
    assert(final(state)@.len() == final(state).outputs@.len());
    assert(before.len() == old(state).outputs@.len());
    if i < before.len() {
        assert(before[i] == old(state).outputs@[i]@);
        assert(final(state)@[i] == final(state).outputs@[i]@);
    }
    assert forall|j: int| 0 <= j < before.len() && j != i implies same_output(
        #[trigger] old(state).outputs@[j],
        final(state).outputs@[j],
    ) by {
        assert(before[j] == old(state).outputs@[j]@);
        assert(final(state)@[j] == final(state).outputs@[j]@);
    }
}

/// Whether two lists of windows are the same but for one of them.
pub open spec fn same_toplevels_but(a: Seq<ToplevelInfo>, b: Seq<ToplevelInfo>, i: int) -> bool {
    &&& a.len() == b.len()
    &&& forall|j: int| 0 <= j < a.len() && j != i ==> same_toplevel(#[trigger] a[j], b[j])
}

/// A window that is listed joins the others at the end: it is there, and nothing else is known of
/// it but its handle.
pub proof fn law_windows_are_listed(state: &mut CaptureState, handle: u32)
    requires
        call_ensures(CaptureState::toplevel_listed, (state, handle), ()),
    ensures
        final(state).toplevels@.len() == old(state).toplevels@.len() + 1,
        forall|i: int|
            0 <= i < old(state).toplevels@.len() ==> same_toplevel(
                #[trigger] final(state).toplevels@[i],
                old(state).toplevels@[i],
            ),
        ({
            let info = final(state).toplevels@.last();
            &&& info.handle == handle
            &&& info.active
            &&& info.app_id@.len() == 0 && info.title@.len() == 0 && info.identifier@.len() == 0
        }),
        final(state).has_device == old(state).has_device,
        final(state).find_device == old(state).find_device,
        final(state).buffer_create == old(state).buffer_create,
        same_session(*old(state), *final(state)),
{
    lemma_same_formats(*old(state), *final(state));
    lemma_shown(*old(state));
    lemma_shown(*final(state));
    let n = old(state).toplevels@.len() as int;
    assert(final(state).toplevels@[n]@ == final(state)@.toplevels[n]);
    assert forall|i: int| 0 <= i < n implies same_toplevel(
        #[trigger] final(state).toplevels@[i],
        old(state).toplevels@[i],
    ) by {
        assert(final(state).toplevels@[i]@ == old(state).toplevels@[i]@);
    }
}

/// What is said of a window is noted of the first window with its handle, and of no other. All else
/// that is known of it stays. A window that was closed is no longer active.
pub proof fn law_windows_are_told(
    state: &mut CaptureState,
    handle: u32,
    event: ToplevelEvent,
    i: int,
)
    requires
        call_ensures(CaptureState::toplevel_event, (state, handle, event), ()),
        0 <= i < old(state).toplevels@.len(),
        old(state).toplevels@[i].handle == handle,
        forall|j: int| 0 <= j < i ==> (#[trigger] old(state).toplevels@[j]).handle != handle,
    ensures
        same_toplevels_but(old(state).toplevels@, final(state).toplevels@, i),
        ({
            let was = old(state).toplevels@[i];
            let now = final(state).toplevels@[i];
            &&& now.handle == was.handle
            &&& event matches ToplevelEvent::Title(title) ==> now.title@ == title@
            &&& !(event is Title) ==> now.title@ == was.title@
            &&& event matches ToplevelEvent::AppId(app_id) ==> now.app_id@ == app_id@
            &&& !(event is AppId) ==> now.app_id@ == was.app_id@
            &&& event matches ToplevelEvent::Identifier(id) ==> now.identifier@ == id@
            &&& !(event is Identifier) ==> now.identifier@ == was.identifier@
            &&& event is Closed ==> !now.active
            &&& !(event is Closed) ==> now.active == was.active
        }),
        final(state).has_device == old(state).has_device,
        final(state).find_device == old(state).find_device,
        final(state).buffer_create == old(state).buffer_create,
        same_session(*old(state), *final(state)),
{
    lemma_same_formats(*old(state), *final(state));
    let wanted = |t: ToplevelView| t.handle == handle;
    let before = old(state)@.toplevels;
    lemma_shown(*old(state));
    lemma_shown(*final(state));
    assert(old(state).toplevels@[i]@ == before[i]);
    assert forall|j: int| 0 <= j < i implies !wanted(#[trigger] before[j]) by {
        assert(old(state).toplevels@[j]@ == before[j]);
    }
    lemma_is_first_index(before, wanted, i);
    assert(final(state).toplevels@[i]@ == final(state)@.toplevels[i]);
    assert forall|j: int| 0 <= j < before.len() && j != i implies same_toplevel(
        #[trigger] old(state).toplevels@[j],
        final(state).toplevels@[j],
    ) by {
        assert(final(state).toplevels@[j]@ == final(state)@.toplevels[j]);
    }
}

/// What is said of an output or a window that was never announced changes nothing.
pub proof fn law_strangers_are_ignored(
    outputs: &mut DiscoveryState,
    output: u32,
    output_event: OutputEvent,
    windows: &mut CaptureState,
    handle: u32,
    window_event: ToplevelEvent,
)
    requires
        call_ensures(DiscoveryState::output_event, (outputs, output, output_event), ()),
        forall|j: int|
            0 <= j < old(outputs).outputs@.len() ==> (#[trigger] old(outputs).outputs@[j]).output
                != output,
        call_ensures(CaptureState::toplevel_event, (windows, handle, window_event), ()),
        forall|j: int|
            0 <= j < old(windows).toplevels@.len() ==> (
            #[trigger] old(windows).toplevels@[j]).handle != handle,
    ensures
        final(outputs)@ == old(outputs)@,
        final(windows)@ == old(windows)@,
{
    let by_number = |o: OutputView| o.output == output;
    let by_handle = |t: ToplevelView| t.handle == handle;
    assert forall|j: int| 0 <= j < old(outputs)@.len() implies !by_number(
        #[trigger] old(outputs)@[j],
    ) by {
        assert(old(outputs)@[j] == old(outputs).outputs@[j]@);
    }
    lemma_is_first_index(old(outputs)@, by_number, old(outputs)@.len() as int);
    let before = old(windows)@.toplevels;
    assert forall|j: int| 0 <= j < before.len() implies !by_handle(#[trigger] before[j]) by {
        assert(before[j] == old(windows).toplevels@[j]@);
    }
    lemma_is_first_index(before, by_handle, before.len() as int);
}

/// The answer to a request for a buffer is noted, and that a device was opened. Nothing else is
/// touched.
pub proof fn law_answers_are_noted(
    buffers: &mut CaptureState,
    created: bool,
    devices: &mut CaptureState,
)
    requires
        call_ensures(CaptureState::buffer_event, (buffers, created), ()),
        call_ensures(CaptureState::device_opened, (devices,), ()),
    ensures
        created ==> final(buffers).buffer_create == Some(BufferCreateState::Created),
        !created ==> final(buffers).buffer_create == Some(BufferCreateState::Failed),
        final(buffers).has_device == old(buffers).has_device,
        final(buffers).find_device == old(buffers).find_device,
        same_session(*old(buffers), *final(buffers)),
        same_toplevels(*old(buffers), *final(buffers)),
        final(devices).has_device,
        final(devices).find_device == old(devices).find_device,
        final(devices).buffer_create == old(devices).buffer_create,
        same_session(*old(devices), *final(devices)),
        same_toplevels(*old(devices), *final(devices)),
{
    lemma_same_formats(*old(buffers), *final(buffers));
    lemma_same_windows(*old(buffers), *final(buffers));
    lemma_same_formats(*old(devices), *final(devices));
    lemma_same_windows(*old(devices), *final(devices));
}

/// The output that is found by its name is the first one of the name, and the window that is found
/// by its identifier the first one of it. Nothing is found only where there is nothing to find.
pub proof fn law_what_is_found_is_the_first(
    capture: DirectCapture,
    name: &str,
    output: Option<usize>,
    identifier: &str,
    window: Option<usize>,
)
    requires
        call_ensures(DirectCapture::find_output, (&capture, name), output),
        call_ensures(DirectCapture::find_toplevel, (&capture, identifier), window),
    ensures
        output is None <==> forall|j: int|
            0 <= j < capture.outputs@.len() ==> (#[trigger] capture.outputs@[j]).name@ != name@,
        output matches Some(i) ==> i < capture.outputs@.len() && capture.outputs@[i as int].name@
            == name@,
        window is None <==> forall|j: int|
            0 <= j < capture.toplevels@.len() ==> (#[trigger] capture.toplevels@[j]).identifier@
                != identifier@,
        window matches Some(i) ==> i < capture.toplevels@.len()
            && capture.toplevels@[i as int].identifier@ == identifier@,
        output matches Some(i) ==> forall|j: int|
            0 <= j < capture.outputs@.len() && (#[trigger] capture.outputs@[j]).name@ == name@ && (
            forall|k: int| 0 <= k < j ==> (#[trigger] capture.outputs@[k]).name@ != name@)
                ==> same_output(capture.outputs@[i as int], capture.outputs@[j]),
        window matches Some(i) ==> forall|j: int|
            0 <= j < capture.toplevels@.len() && (#[trigger] capture.toplevels@[j]).identifier@
                == identifier@ && (forall|k: int|
                0 <= k < j ==> (#[trigger] capture.toplevels@[k]).identifier@ != identifier@)
                ==> same_toplevel(capture.toplevels@[i as int], capture.toplevels@[j]),
{
    let named = |o: OutputView| o.name == name@;
    let identified = |t: ToplevelView| t.identifier == identifier@;
    let outputs = capture@.outputs;
    let windows = capture@.toplevels;
    assert forall|j: int| 0 <= j < outputs.len() implies #[trigger] outputs[j]
        == capture.outputs@[j]@ by {}
    assert forall|j: int| 0 <= j < windows.len() implies #[trigger] windows[j]
        == capture.toplevels@[j]@ by {}
    lemma_first_index(outputs, named);
    lemma_first_index(windows, identified);
    if output is None {
        assert forall|j: int| 0 <= j < capture.outputs@.len() implies (
        #[trigger] capture.outputs@[j]).name@ != name@ by {
            assert(!named(outputs[j]));
        }
    }
    if window is None {
        assert forall|j: int| 0 <= j < capture.toplevels@.len() implies (
        #[trigger] capture.toplevels@[j]).identifier@ != identifier@ by {
            assert(!identified(windows[j]));
        }
    }
    assert forall|j: int|
        0 <= j < capture.outputs@.len() && (#[trigger] capture.outputs@[j]).name@ == name@ && (
        forall|k: int|
            0 <= k < j ==> (#[trigger] capture.outputs@[k]).name@ != name@) && output is Some implies same_output(
        capture.outputs@[output->0 as int], capture.outputs@[j]) by {
        assert forall|k: int| 0 <= k < j implies !named(#[trigger] outputs[k]) by {
            assert(outputs[k] == capture.outputs@[k]@);
        }
        assert(outputs[j] == capture.outputs@[j]@);
        lemma_is_first_index(outputs, named, j);
    }
    assert forall|j: int|
        0 <= j < capture.toplevels@.len() && (#[trigger] capture.toplevels@[j]).identifier@
            == identifier@ && (forall|k: int|
            0 <= k < j ==> (#[trigger] capture.toplevels@[k]).identifier@ != identifier@)
            && window is Some implies same_toplevel(
        capture.toplevels@[window->0 as int], capture.toplevels@[j]) by {
        assert forall|k: int| 0 <= k < j implies !identified(#[trigger] windows[k]) by {
            assert(windows[k] == capture.toplevels@[k]@);
        }
        assert(windows[j] == capture.toplevels@[j]@);
        lemma_is_first_index(windows, identified, j);
    }
}

/// The words for why a frame was not captured.
pub proof fn law_capture_errors_are_told_apart(error: CaptureError, text: String)
    requires
        call_ensures(CaptureError::message, (&error,), text),
    ensures
        error matches CaptureError::Connection(words) ==> text@ == words@,
        error is BufferConstraints ==> text@ == "buffer constraints changed"@,
        error is Stopped ==> text@ == "capture target stopped"@,
        error is Failed ==> text@ == "frame capture failed"@,
{
}

/// A new discovery knows no output, and a new connection nothing at all. A window that was just
/// listed is there, and nothing is known of it but its handle.
pub proof fn law_beginnings_are_empty(
    discovery: DiscoveryState,
    capture: DirectCapture,
    handle: u32,
    window: ToplevelInfo,
)
    requires
        call_ensures(DiscoveryState::new, (), discovery),
        call_ensures(DirectCapture::new, (), capture),
        call_ensures(ToplevelInfo::new, (handle,), window),
    ensures
        discovery.outputs@.len() == 0,
        capture.outputs@.len() == 0,
        capture.toplevels@.len() == 0,
        !capture.has_device,
        window.handle == handle,
        window.active,
        window.app_id@.len() == 0,
        window.title@.len() == 0,
        window.identifier@.len() == 0,
{
    assert(discovery@.len() == discovery.outputs@.len());
    assert(capture@.outputs.len() == capture.outputs@.len());
    assert(capture@.toplevels.len() == capture.toplevels@.len());
}

/// A connection shows the outputs and windows that it has.
pub proof fn law_connections_show_what_they_have(
    capture: DirectCapture,
    outputs: &[OutputInfo],
    windows: &[ToplevelInfo],
    i: int,
)
    requires
        call_ensures(DirectCapture::outputs, (&capture,), outputs),
        call_ensures(DirectCapture::toplevels, (&capture,), windows),
    ensures
        outputs@.len() == capture.outputs@.len(),
        windows@.len() == capture.toplevels@.len(),
        0 <= i < outputs@.len() ==> same_output(outputs@[i], capture.outputs@[i]),
        0 <= i < windows@.len() ==> same_toplevel(windows@[i], capture.toplevels@[i]),
{
    let shown_outputs = outputs@.map_values(|o: OutputInfo| o@);
    let shown_windows = windows@.map_values(|t: ToplevelInfo| t@);
    assert(shown_outputs.len() == outputs@.len());
    assert(shown_windows.len() == windows@.len());
    assert(capture@.outputs.len() == capture.outputs@.len());
    assert(capture@.toplevels.len() == capture.toplevels@.len());
    if 0 <= i < outputs@.len() {
        assert(shown_outputs[i] == outputs@[i]@);
        assert(capture@.outputs[i] == capture.outputs@[i]@);
    }
    if 0 <= i < windows@.len() {
        assert(shown_windows[i] == windows@[i]@);
        assert(capture@.toplevels[i] == capture.toplevels@[i]@);
    }
}

/// The outputs of a discovery take the place of those that were known, and leave windows and device
/// as they were.
pub proof fn law_outputs_are_refreshed(capture: &mut DirectCapture, state: DiscoveryState, i: int)
    requires
        call_ensures(DirectCapture::refresh_outputs, (capture, state), ()),
    ensures
        final(capture).outputs@.len() == state.outputs@.len(),
        0 <= i < state.outputs@.len() ==> same_output(
            final(capture).outputs@[i],
            state.outputs@[i],
        ),
        final(capture).toplevels@.len() == old(capture).toplevels@.len(),
        0 <= i < old(capture).toplevels@.len() ==> same_toplevel(
            final(capture).toplevels@[i],
            old(capture).toplevels@[i],
        ),
        final(capture).has_device == old(capture).has_device,
{
    assert(final(capture)@.outputs.len() == final(capture).outputs@.len());
    assert(state@.len() == state.outputs@.len());
    assert(final(capture)@.toplevels.len() == final(capture).toplevels@.len());
    assert(old(capture)@.toplevels.len() == old(capture).toplevels@.len());
    if 0 <= i < state.outputs@.len() {
        assert(final(capture)@.outputs[i] == final(capture).outputs@[i]@);
        assert(state@[i] == state.outputs@[i]@);
    }
    if 0 <= i < old(capture).toplevels@.len() {
        assert(final(capture)@.toplevels[i] == final(capture).toplevels@[i]@);
        assert(old(capture)@.toplevels[i] == old(capture).toplevels@[i]@);
    }
}

/// The windows of a listing take the place of those that were known, and leave outputs and device
/// as they were.
pub proof fn law_windows_are_refreshed(capture: &mut DirectCapture, state: CaptureState, i: int)
    requires
        call_ensures(DirectCapture::refresh_toplevels, (capture, state), ()),
    ensures
        final(capture).toplevels@.len() == state.toplevels@.len(),
        0 <= i < state.toplevels@.len() ==> same_toplevel(
            final(capture).toplevels@[i],
            state.toplevels@[i],
        ),
        final(capture).outputs@.len() == old(capture).outputs@.len(),
        0 <= i < old(capture).outputs@.len() ==> same_output(
            final(capture).outputs@[i],
            old(capture).outputs@[i],
        ),
        final(capture).has_device == old(capture).has_device,
{
    lemma_shown(state);
    assert(final(capture)@.toplevels.len() == final(capture).toplevels@.len());
    assert(final(capture)@.outputs.len() == final(capture).outputs@.len());
    assert(old(capture)@.outputs.len() == old(capture).outputs@.len());
    if 0 <= i < state.toplevels@.len() {
        assert(final(capture)@.toplevels[i] == final(capture).toplevels@[i]@);
        assert(state@.toplevels[i] == state.toplevels@[i]@);
    }
    if 0 <= i < old(capture).outputs@.len() {
        assert(final(capture)@.outputs[i] == final(capture).outputs@[i]@);
        assert(old(capture)@.outputs[i] == old(capture).outputs@[i]@);
    }
}

/// A text becomes the failure of a connection, in its own words.
pub proof fn law_texts_are_failures_of_connections(text: String, error: CaptureError)
    requires
        call_ensures(<CaptureError as From<String>>::from, (text,), error),
    ensures
        error matches CaptureError::Connection(words) && words@ == text@,
{
}

} // verus!
