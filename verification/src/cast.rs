//! The start of a screen cast: from the probe of its target to the node that consumers connect to.

use std::collections::HashMap;

use vstd::prelude::*;

use crate::capture::{CaptureProbe, CaptureTarget};
use crate::config::Config;
use crate::geometry::Size;
use crate::pod::PodObject;
use crate::stream::{is_offer, StreamView, StreamingData};
use crate::stream_formats::{formats_of_probe, lemma_published, FormatError, StreamFormatState};
use crate::text::{parse_u64, parsed_u64};

verus! {

broadcast use vstd::std_specs::hash::group_hash_axioms;

/// A screen cast that consumers can connect to.
#[derive(Debug, Clone, Copy, PartialEq, Eq, Structural)]
pub struct ScreencastThread {
    pub node_id: u32,
    pub pipewire_serial: u64,
    pub size: Size,
}

impl ScreencastThread {
    /// The number of the node.
    pub fn node_id(&self) -> (id: u32)
        ensures
            id == self.node_id,
    {
        self.node_id
    }

    /// The serial number of the node, which no other object of the media server ever has.
    pub fn pipewire_serial(&self) -> (serial: u64)
        ensures
            serial == self.pipewire_serial,
    {
        self.pipewire_serial
    }

    /// The extent of the frames.
    pub fn size(&self) -> (size: Size)
        ensures
            size == self.size,
    {
        self.size
    }
}

/// What is known of the node of a screen cast before it is announced. The number of the node and
/// the serial numbers of all nodes come in any order.
pub struct StreamReadyState {
    waiting: bool,
    node_id: Option<u32>,
    serials: HashMap<u32, u64>,
    size: Size,
}

/// What is known of the node.
#[verifier::ext_equal]
pub struct ReadyView {
    /// Whether the node is still to be announced.
    pub waiting: bool,
    pub node_id: Option<u32>,
    pub serials: Map<u32, u64>,
    pub size: Size,
}

impl View for StreamReadyState {
    type V = ReadyView;

    closed spec fn view(&self) -> ReadyView {
        ReadyView {
            waiting: self.waiting,
            node_id: self.node_id,
            serials: self.serials@,
            size: self.size,
        }
    }
}

impl ReadyView {
    /// Before anything is known.
    pub open spec fn fresh(size: Size) -> ReadyView {
        ReadyView { waiting: true, node_id: None, serials: Map::empty(), size }
    }

    /// The announcement that is due: once the node and its serial number are known, if it was not
    /// made before.
    pub open spec fn due(self) -> Option<ScreencastThread> {
        match self.node_id {
            Some(node_id) => if self.waiting && self.serials.contains_key(node_id) {
                Some(
                    ScreencastThread {
                        node_id,
                        pipewire_serial: self.serials[node_id],
                        size: self.size,
                    },
                )
            } else {
                None
            },
            None => None,
        }
    }

    /// After an announcement that was due was made.
    pub open spec fn announced(self) -> ReadyView {
        ReadyView { waiting: self.waiting && self.due() is None, ..self }
    }

    /// With the serial number of a node, if there is one.
    pub open spec fn with_serial(self, node_id: u32, serial: Option<u64>) -> ReadyView {
        match serial {
            Some(serial) => ReadyView { serials: self.serials.insert(node_id, serial), ..self },
            None => self,
        }
    }

    /// With the number of the node.
    pub open spec fn with_node(self, node_id: u32) -> ReadyView {
        ReadyView { node_id: Some(node_id), ..self }
    }
}

impl StreamReadyState {
    /// Before anything is known.
    pub fn new(size: Size) -> (state: Self)
        ensures
            state@ == ReadyView::fresh(size),
    {
        StreamReadyState { waiting: true, node_id: None, serials: HashMap::new(), size }
    }

    /// Takes note of the number of the node. Returns the announcement if it is due now.
    pub fn set_node(&mut self, node_id: u32, serial: Option<u64>) -> (announcement: Option<
        ScreencastThread,
    >)
        ensures
            announcement == old(self)@.with_node(node_id).with_serial(node_id, serial).due(),
            final(self)@ == old(self)@.with_node(node_id).with_serial(node_id, serial).announced(),
    {
        self.node_id = Some(node_id);
        if let Some(serial) = serial {
            self.serials.insert(node_id, serial);
        }
        self.send_if_ready()
    }

    /// Takes note of the serial number of a node. Returns the announcement if it is due now.
    pub fn set_serial(&mut self, node_id: u32, serial: u64) -> (announcement: Option<
        ScreencastThread,
    >)
        ensures
            announcement == old(self)@.with_serial(node_id, Some(serial)).due(),
            final(self)@ == old(self)@.with_serial(node_id, Some(serial)).announced(),
    {
        self.serials.insert(node_id, serial);
        self.send_if_ready()
    }

    /// Returns the announcement if it is due.
    pub fn send_if_ready(&mut self) -> (announcement: Option<ScreencastThread>)
        ensures
            announcement == old(self)@.due(),
            final(self)@ == old(self)@.announced(),
    {
        let node_id: u32 = match self.node_id {
            Some(node_id) => node_id,
            None => {
                return None;
            },
        };
        let serial: u64 = match self.serials.get(&node_id) {
            Some(serial) => *serial,
            None => {
                return None;
            },
        };
        if !self.waiting {
            return None;
        }
        self.waiting = false;
        Some(ScreencastThread { node_id, pipewire_serial: serial, size: self.size })
    }
}

/// The serial number that an object of the media server gives as a property, if the object is a
/// node and the property is a number.
pub fn node_serial(is_node: bool, property: Option<&str>) -> (serial: Option<u64>)
    ensures
        serial == match property {
            Some(text) => if is_node {
                parsed_u64(text@)
            } else {
                None
            },
            None => None,
        },
{
    match property {
        Some(text) => if is_node {
            parse_u64(text)
        } else {
            None
        },
        None => None,
    }
}

/// What a screen cast starts with.
pub struct PreparedStream {
    pub data: StreamingData,
    pub ready: StreamReadyState,
    /// The parameters that offer the formats.
    pub params: Vec<PodObject>,
}

/// Prepares a screen cast on what a probe of its target found.
pub fn prepare_stream(
    probe: CaptureProbe,
    overlay_cursor: bool,
    target: CaptureTarget,
    config: Config,
) -> (prepared: Result<PreparedStream, FormatError>)
    ensures
        match formats_of_probe(probe@, config.allow_screencast_shm) {
            Ok(formats) => {
                &&& prepared matches Ok(p)
                &&& p.data@ == StreamView::fresh(
                    formats,
                    target,
                    overlay_cursor,
                    config.allow_screencast_shm,
                    config.max_fps,
                )
                &&& p.data@.wf()
                &&& p.ready@ == ReadyView::fresh(formats.size)
                &&& p.params@.map_values(|o: PodObject| o@) == formats.params(config.max_fps)
            },
            Err(error) => prepared matches Err(e) && e == error,
        },
{
    let formats: StreamFormatState = match StreamFormatState::from_probe(
        probe,
        config.allow_screencast_shm,
    ) {
        Ok(formats) => formats,
        Err(error) => {
            return Err(error);
        },
    };
    let ready = StreamReadyState::new(formats.size);
    let params: Vec<PodObject> = formats.format_params(config.max_fps);
    let data = StreamingData::new(
        formats,
        target,
        overlay_cursor,
        config.allow_screencast_shm,
        config.max_fps,
    );
    Ok(PreparedStream { data, ready, params })
}

/// A cast is announced at most once: after an announcement none is ever due again.
pub proof fn law_announced_once(state: ReadyView, node_id: u32, serial: Option<u64>)
    ensures
        state.due() is Some ==> !state.announced().waiting,
        !state.waiting ==> state.due() is None,
        !state.waiting ==> !state.with_node(node_id).announced().waiting,
        !state.waiting ==> !state.with_serial(node_id, serial).announced().waiting,
{
}

/// It does not matter whether the number of the node or its serial number comes first: the
/// announcement that the second of them makes due is the same.
pub proof fn law_order_does_not_matter(size: Size, node_id: u32, serial: u64)
    ensures
        ({
            let start = ReadyView::fresh(size);
            let node_first = start.with_node(node_id).announced().with_serial(
                node_id,
                Some(serial),
            );
            let serial_first = start.with_serial(node_id, Some(serial)).announced().with_node(
                node_id,
            );
            &&& start.with_node(node_id).due() is None
            &&& start.with_serial(node_id, Some(serial)).due() is None
            &&& node_first == serial_first
            &&& node_first.due() == Some(
                ScreencastThread { node_id, pipewire_serial: serial, size },
            )
        }),
{
}

/// The serial number of another node announces nothing.
pub proof fn law_other_nodes_announce_nothing(state: ReadyView, other: u32, serial: u64)
    requires
        state.due() is None,
        state.node_id != Some(other),
    ensures
        state.with_serial(other, Some(serial)).due() is None,
{
}

/// Whether an announcement is that of a node.
pub open spec fn announces(
    announcement: Option<ScreencastThread>,
    node_id: u32,
    serial: u64,
    size: Size,
) -> bool {
    announcement matches Some(cast) && cast.node_id == node_id && cast.pipewire_serial == serial
        && cast.size == size
}

/// Before anything is known, the cast waits to be announced.
pub proof fn law_new_casts_wait(size: Size, state: StreamReadyState)
    requires
        call_ensures(StreamReadyState::new, (size,), state),
    ensures
        state@.waiting,
        state@.node_id is None,
        forall|node_id: u32| !#[trigger] state@.serials.contains_key(node_id),
        state@.size == size,
{
}

/// Once the number of the node comes, the cast is announced if it waits for that and the serial
/// number of that node is known by then: the one that comes along, or else the one that came
/// before. It waits no more after that, and otherwise goes on as it was.
pub proof fn law_nodes_are_announced(
    state: &mut StreamReadyState,
    node_id: u32,
    serial: Option<u64>,
    announcement: Option<ScreencastThread>,
    other: u32,
)
    requires
        call_ensures(StreamReadyState::set_node, (state, node_id, serial), announcement),
    ensures
        announcement is Some <==> old(state)@.waiting && (serial is Some
            || old(state)@.serials.contains_key(node_id)),
        old(state)@.waiting && serial is Some ==> announces(
            announcement,
            node_id,
            serial->0,
            old(state)@.size,
        ),
        old(state)@.waiting && serial is None && old(state)@.serials.contains_key(node_id)
            ==> announces(
            announcement,
            node_id,
            old(state)@.serials[node_id],
            old(state)@.size,
        ),
        final(state)@.waiting <==> old(state)@.waiting && announcement is None,
        final(state)@.node_id == Some(node_id),
        final(state)@.size == old(state)@.size,
        serial is Some ==> final(state)@.serials.contains_key(node_id)
            && final(state)@.serials[node_id] == serial->0,
        other != node_id || serial is None ==> (final(state)@.serials.contains_key(other)
            <==> old(state)@.serials.contains_key(other)),
        other != node_id || serial is None ==> final(state)@.serials[other]
            == old(state)@.serials[other],
{
}

/// Once the serial number of a node comes, the cast is announced if it waits for that and the
/// number of its node is known by then, with the serial number of its own node.
pub proof fn law_serials_are_announced(
    state: &mut StreamReadyState,
    node_id: u32,
    serial: u64,
    announcement: Option<ScreencastThread>,
    other: u32,
)
    requires
        call_ensures(StreamReadyState::set_serial, (state, node_id, serial), announcement),
    ensures
        old(state)@.node_id is None || !old(state)@.waiting ==> announcement is None,
        old(state)@.node_id == Some(node_id) && old(state)@.waiting ==> announces(
            announcement,
            node_id,
            serial,
            old(state)@.size,
        ),
        other != node_id && old(state)@.node_id == Some(other) && old(state)@.waiting ==> (
        if old(state)@.serials.contains_key(other) {
            announces(announcement, other, old(state)@.serials[other], old(state)@.size)
        } else {
            announcement is None
        }),
        final(state)@.waiting <==> old(state)@.waiting && announcement is None,
        final(state)@.node_id == old(state)@.node_id,
        final(state)@.size == old(state)@.size,
        final(state)@.serials.contains_key(node_id) && final(state)@.serials[node_id] == serial,
        other != node_id ==> (final(state)@.serials.contains_key(other)
            <==> old(state)@.serials.contains_key(other)),
        other != node_id ==> final(state)@.serials[other] == old(state)@.serials[other],
{
}

/// A cast is announced where it waits for that and both its node and the node's serial number are
/// known, and it waits no more after that.
pub proof fn law_ready_casts_are_announced(
    state: &mut StreamReadyState,
    announcement: Option<ScreencastThread>,
    node_id: u32,
)
    requires
        call_ensures(StreamReadyState::send_if_ready, (state,), announcement),
    ensures
        old(state)@.node_id is None || !old(state)@.waiting ==> announcement is None,
        old(state)@.waiting && old(state)@.node_id == Some(node_id) ==> (
        if old(state)@.serials.contains_key(node_id) {
            announces(announcement, node_id, old(state)@.serials[node_id], old(state)@.size)
        } else {
            announcement is None
        }),
        final(state)@.waiting <==> old(state)@.waiting && announcement is None,
        final(state)@.node_id == old(state)@.node_id,
        final(state)@.size == old(state)@.size,
        final(state)@.serials == old(state)@.serials,
{
}

/// A cast tells its own node, serial number and size.
pub proof fn law_casts_tell_their_node(
    cast: ScreencastThread,
    node_id: u32,
    serial: u64,
    size: Size,
)
    requires
        call_ensures(ScreencastThread::node_id, (&cast,), node_id),
        call_ensures(ScreencastThread::pipewire_serial, (&cast,), serial),
        call_ensures(ScreencastThread::size, (&cast,), size),
    ensures
        cast == (ScreencastThread { node_id, pipewire_serial: serial, size }),
{
}

/// An object of the media server has a serial number where it is a node with a property that reads
/// as a number, and that number is it.
pub proof fn law_serials_are_read_from_nodes(
    is_node: bool,
    property: Option<&str>,
    serial: Option<u64>,
    number: Option<u64>,
)
    requires
        call_ensures(node_serial, (is_node, property), serial),
        property matches Some(text) ==> call_ensures(parse_u64, (text,), number),
    ensures
        !is_node || property is None ==> serial is None,
        is_node && property is Some ==> serial == number,
{
}

/// A prepared cast is made of what it is given, waits for its node with the size of the probe, and
/// offers what the probe found. A probe with nothing to offer prepares nothing.
pub proof fn law_prepared_casts_are_as_asked(
    probe: CaptureProbe,
    overlay_cursor: bool,
    target: CaptureTarget,
    config: Config,
    prepared: Result<PreparedStream, FormatError>,
    formats: Result<StreamFormatState, FormatError>,
    i: int,
)
    requires
        call_ensures(prepare_stream, (probe, overlay_cursor, target, config), prepared),
        call_ensures(
            StreamFormatState::from_probe,
            (probe, config.allow_screencast_shm),
            formats,
        ),
    ensures
        prepared is Ok <==> formats is Ok,
        prepared matches Err(error) ==> formats == Err::<StreamFormatState, FormatError>(error),
        prepared matches Ok(p) ==> {
            &&& p.data.target == target
            &&& p.data.overlay_cursor == overlay_cursor
            &&& p.data.allow_shm_fallback == config.allow_screencast_shm
            &&& p.data.max_fps == config.max_fps
            &&& p.data.chosen_format is None
            &&& p.data.chosen_modifier is None
            &&& p.data.buffers@.len() == 0
            &&& formats matches Ok(f) && p.data.formats@ == f@
            &&& p.data.formats.size == probe.size
            &&& p.ready@.waiting
            &&& p.ready@.node_id is None
            &&& forall|node_id: u32| !#[trigger] p.ready@.serials.contains_key(node_id)
            &&& p.ready@.size == probe.size
            &&& p.params@.len() == p.data.formats.offers@.len()
            &&& 0 <= i < p.params@.len() ==> is_offer(p.params@[i], p.data, i)
        },
{
    if let Ok(p) = prepared {
        assert(p.data@.buffers.len() == p.data.buffers@.len());
        lemma_published(p.data.formats, config.max_fps, p.params@);
    }
}

} // verus!
