use shiny_portal::buffers::{
    check_allocation, create_shm_buffer, finish_buffer, plan_allocation, request_allocation,
    submit_planes, Allocation, Attempt, BufferError, DirectCaptureBuffer, DmabufSearch, Plane,
};
use shiny_portal::bytes::ByteOrder;
use shiny_portal::capture::{
    BufferCreateState, CaptureError, CaptureProbe, CaptureState, DirectCapture, DiscoveryState,
    FailureReason, FrameEvent, FrameState, LogicalOutputEvent, OutputEvent, SessionEvent,
    ToplevelEvent, ToplevelInfo,
};
use shiny_portal::damage::{DamageRect, DamageSet};
use shiny_portal::formats::{
    fourcc, DmabufFormat, PixelFormat, ShmFormat, DRM_FORMAT_MOD_INVALID,
};
use shiny_portal::geometry::Size;

fn size(width: u32, height: u32) -> Size {
    Size { width, height }
}

fn dmabuf(fourcc: u32, modifiers: &[u64]) -> DmabufFormat {
    DmabufFormat { fourcc, modifiers: modifiers.to_vec(), size: size(64, 32) }
}

fn shm(format: PixelFormat, width: u32, height: u32, stride: u32) -> ShmFormat {
    ShmFormat { format, size: size(width, height), stride }
}

fn probe(dmabuf_formats: Vec<DmabufFormat>, has_dmabuf_device: bool) -> CaptureProbe {
    CaptureProbe { size: size(64, 32), shm_formats: Vec::new(), dmabuf_formats, has_dmabuf_device }
}

#[test]
fn only_recent_outputs_are_bound() {
    let mut state = DiscoveryState::new();
    assert!(!state.global_announced(1, "wl_output", 3));
    assert!(!state.global_announced(2, "wl_seat", 9));
    assert!(state.global_announced(3, "wl_output", 4));
    assert_eq!(state.outputs.len(), 1);
    assert_eq!(state.outputs[0].output, 3);
    assert_eq!(state.outputs[0].name, "");
    assert_eq!(state.outputs[0].size, size(0, 0));
}

#[test]
fn outputs_describe_themselves() {
    let mut state = DiscoveryState::new();
    state.global_announced(3, "wl_output", 4);
    state.global_announced(8, "wl_output", 4);
    state.output_event(8, OutputEvent::Name("DP-1".into()));
    state.output_event(8, OutputEvent::Description("screen".into()));
    state.output_event(8, OutputEvent::Mode { width: 800, height: 600 });
    state.output_event(8, OutputEvent::Other);
    state.output_event(9, OutputEvent::Name("nobody".into()));
    assert_eq!(state.outputs[0].name, "");
    assert_eq!(state.outputs[1].name, "DP-1");
    assert_eq!(state.outputs[1].description, "screen");
    assert_eq!(state.outputs[1].size, size(800, 600));
}

#[test]
fn logical_layout_fills_the_gaps() {
    let mut state = DiscoveryState::new();
    state.global_announced(3, "wl_output", 4);
    state.output_event(3, OutputEvent::Name("DP-1".into()));
    state.logical_event(0, LogicalOutputEvent::Name("other".into()));
    state.logical_event(0, LogicalOutputEvent::Description("screen".into()));
    state.logical_event(0, LogicalOutputEvent::Description("later".into()));
    state.logical_event(0, LogicalOutputEvent::Position { x: -5, y: 6 });
    state.logical_event(0, LogicalOutputEvent::Extent { width: 640, height: 480 });
    state.logical_event(0, LogicalOutputEvent::Extent { width: 0, height: 480 });
    state.logical_event(7, LogicalOutputEvent::Name("nobody".into()));
    let output = &state.outputs[0];
    assert_eq!(output.name, "DP-1");
    assert_eq!(output.description, "screen");
    assert_eq!(output.position, (-5, 6));
    assert_eq!(output.size, size(640, 480));
}

#[test]
fn windows_are_listed_and_told() {
    let mut state = CaptureState::new(true);
    state.toplevel_listed(1);
    state.toplevel_listed(2);
    state.toplevel_event(2, ToplevelEvent::Title("t".into()));
    state.toplevel_event(2, ToplevelEvent::AppId("a".into()));
    state.toplevel_event(2, ToplevelEvent::Identifier("i".into()));
    state.toplevel_event(1, ToplevelEvent::Closed);
    state.toplevel_event(5, ToplevelEvent::Title("nobody".into()));
    state.toplevel_event(1, ToplevelEvent::Other);
    assert!(!state.toplevels[0].active);
    assert_eq!(state.toplevels[0].title, "");
    let window = &state.toplevels[1];
    assert_eq!((window.handle, window.active), (2, true));
    assert_eq!(
        (window.title.as_str(), window.app_id.as_str(), window.identifier.as_str()),
        ("t", "a", "i")
    );
}

#[test]
fn new_window_says_nothing() {
    let window = ToplevelInfo::new(4);
    assert_eq!(window.handle, 4);
    assert!(window.active && window.title.is_empty() && window.identifier.is_empty());
}

#[test]
fn session_sizes_reach_every_format() {
    let mut state = CaptureState::new(false);
    state.session_event(SessionEvent::BufferSize { width: 10, height: 5 });
    state.session_event(SessionEvent::ShmFormat(PixelFormat::Xrgb8888));
    state.session_event(SessionEvent::DmabufFormat { format: 7, modifiers: Vec::new() });
    assert_eq!(state.shm_formats, vec![shm(PixelFormat::Xrgb8888, 10, 5, 40)]);
    state.session_event(SessionEvent::BufferSize { width: 20, height: 6 });
    assert_eq!(state.shm_formats, vec![shm(PixelFormat::Xrgb8888, 20, 6, 80)]);
    assert_eq!(state.dmabuf_formats[0].size, size(20, 6));
    assert!(!state.session_done);
    state.session_event(SessionEvent::Done);
    assert!(state.session_done);
    assert!(state.frame_state.is_none());
}

#[test]
fn modifiers_are_read_in_the_order_of_the_machine() {
    let mut state = CaptureState::new(false);
    let bytes: Vec<u8> = [1u64, 0x0102030405060708].iter().flat_map(|m| m.to_ne_bytes()).collect();
    state.session_event(SessionEvent::DmabufFormat { format: 7, modifiers: bytes });
    assert_eq!(state.dmabuf_formats[0].modifiers, vec![1, 0x0102030405060708]);
    assert_eq!(state.dmabuf_formats[0].fourcc, 7);
}

#[test]
fn modifiers_are_read_in_a_given_order() {
    let mut state = CaptureState::new(false);
    let event = SessionEvent::DmabufFormat { format: 7, modifiers: vec![0, 0, 0, 0, 0, 0, 0, 9, 1] };
    state.session_event_in(event, ByteOrder::Big);
    assert_eq!(state.dmabuf_formats[0].modifiers, vec![9]);
}

#[test]
fn devices_are_wanted_only_where_looked_for() {
    let id = 0x0102030405060708u64.to_le_bytes().to_vec();
    let mut looking = CaptureState::new(true);
    assert_eq!(
        looking.session_event(SessionEvent::DmabufDevice(id.clone())),
        Some(0x0102030405060708)
    );
    assert_eq!(looking.session_event(SessionEvent::DmabufDevice(vec![1; 7])), None);
    assert!(!looking.has_device);
    looking.device_opened();
    assert!(looking.has_device);
    let mut content = CaptureState::new(false);
    assert_eq!(content.session_event(SessionEvent::DmabufDevice(id)), None);
}

#[test]
fn stopped_session_fails_the_frame() {
    let mut state = CaptureState::new(false);
    state.session_event(SessionEvent::Stopped);
    assert!(state.session_done);
    assert_eq!(state.frame_state, Some(FrameState::Failed(FailureReason::Stopped)));
    assert!(matches!(state.frame_outcome(), Some(Err(CaptureError::Stopped))));
}

#[test]
fn frames_report_their_damage() {
    let mut state = CaptureState::new(false);
    state.frame_event(FrameEvent::Damage { x: 1, y: 2, width: 3, height: 4 });
    state.frame_event(FrameEvent::Other);
    assert!(state.frame_state.is_none());
    state.frame_event(FrameEvent::Ready);
    match state.frame_outcome() {
        Some(Ok(rects)) => {
            assert_eq!(rects, vec![DamageRect { x: 1, y: 2, width: 3, height: 4 }]);
        }
        other => panic!("{other:?}"),
    }
}

#[test]
fn pending_frames_have_no_outcome() {
    assert!(CaptureState::new(false).frame_outcome().is_none());
}

#[test]
fn failures_are_told_apart() {
    let outcome = |reason| {
        let mut state = CaptureState::new(false);
        state.frame_event(FrameEvent::Failed(reason));
        state.frame_outcome()
    };
    assert!(matches!(
        outcome(FailureReason::BufferConstraints),
        Some(Err(CaptureError::BufferConstraints))
    ));
    assert!(matches!(outcome(FailureReason::Stopped), Some(Err(CaptureError::Stopped))));
    assert!(matches!(outcome(FailureReason::Other), Some(Err(CaptureError::Failed))));
}

#[test]
fn capture_errors_have_words() {
    assert_eq!(CaptureError::from("lost".to_string()).message(), "lost");
    assert_eq!(CaptureError::BufferConstraints.message(), "buffer constraints changed");
    assert_eq!(CaptureError::Stopped.message(), "capture target stopped");
    assert_eq!(CaptureError::Failed.message(), "frame capture failed");
}

#[test]
fn probe_has_the_size_of_the_session() {
    let mut capture = DirectCapture::new();
    let mut state = CaptureState::new(true);
    state.session_event(SessionEvent::BufferSize { width: 10, height: 5 });
    state.device_opened();
    let first = capture.probe(state);
    assert_eq!(first.size, size(10, 5));
    assert!(first.has_dmabuf_device);
    let second = capture.probe(CaptureState::new(true));
    assert!(second.has_dmabuf_device);
    assert_eq!(second.size, size(0, 0));
}

#[test]
fn refreshing_takes_over_what_was_found() {
    let mut capture = DirectCapture::new();
    assert!(capture.outputs().is_empty() && capture.toplevels().is_empty());
    let mut discovery = DiscoveryState::new();
    discovery.global_announced(3, "wl_output", 4);
    discovery.output_event(3, OutputEvent::Name("DP-1".into()));
    capture.refresh_outputs(discovery);
    let mut listing = CaptureState::new(true);
    listing.toplevel_listed(6);
    listing.toplevel_event(6, ToplevelEvent::Identifier("id".into()));
    capture.refresh_toplevels(listing);
    assert_eq!(capture.outputs()[0].output, 3);
    assert_eq!(capture.toplevels()[0].handle, 6);
    assert_eq!(capture.find_output("DP-1"), Some(0));
    assert_eq!(capture.find_output("DP-2"), None);
    assert_eq!(capture.find_toplevel("id"), Some(0));
    assert_eq!(capture.find_toplevel(""), None);
}

fn tried(search: &mut DmabufSearch) -> Option<DmabufFormat> {
    match search.next() {
        Attempt::Try(format) => Some(format),
        Attempt::GiveUp(_) => None,
    }
}

#[test]
fn search_needs_a_device_and_a_modifier() {
    assert_eq!(
        DmabufSearch::start(&probe(vec![dmabuf(1, &[5])], false), None, None).err(),
        Some(BufferError::NoDevice)
    );
    assert_eq!(
        DmabufSearch::start(&probe(vec![dmabuf(1, &[])], true), None, None).err(),
        Some(BufferError::NoModifiers)
    );
}

#[test]
fn search_uses_the_first_modifier_on_offer() {
    let found = probe(vec![dmabuf(1, &[]), dmabuf(2, &[7, 8]), dmabuf(3, &[9, 7])], true);
    let mut search = DmabufSearch::start(&found, None, None).unwrap();
    assert_eq!(search.modifier, 7);
    assert_eq!(tried(&mut search), Some(dmabuf(2, &[7, 8])));
    assert_eq!(tried(&mut search), Some(dmabuf(3, &[9, 7])));
    assert_eq!(tried(&mut search), None);
}

#[test]
fn search_tries_distinct_formats_only() {
    let found = probe(vec![dmabuf(1, &[5]), dmabuf(1, &[5]), dmabuf(2, &[5])], true);
    let mut search = DmabufSearch::start(&found, None, Some(5)).unwrap();
    assert_eq!(tried(&mut search), Some(dmabuf(1, &[5])));
    assert_eq!(tried(&mut search), Some(dmabuf(2, &[5])));
    assert_eq!(tried(&mut search), None);
}

#[test]
fn search_keeps_to_the_preferred_code() {
    let found = probe(vec![dmabuf(1, &[5]), dmabuf(2, &[5]), dmabuf(1, &[5]), dmabuf(1, &[6])], true);
    let mut search = DmabufSearch::start(&found, Some(1), Some(5)).unwrap();
    assert_eq!(tried(&mut search), Some(dmabuf(1, &[5])));
    assert_eq!(tried(&mut search), Some(dmabuf(1, &[5])));
    assert_eq!(tried(&mut search), None);
}

#[test]
fn search_gives_the_last_reason() {
    let found = probe(vec![dmabuf(1, &[5])], true);
    let mut search = DmabufSearch::start(&found, Some(9), Some(5)).unwrap();
    match search.next() {
        Attempt::GiveUp(reason) => assert_eq!(reason, "no DMA-BUF formats were advertised"),
        Attempt::Try(format) => panic!("{format:?}"),
    }
    let mut search = DmabufSearch::start(&found, Some(1), Some(5)).unwrap();
    assert!(tried(&mut search).is_some());
    search.failed("no memory".to_string());
    match search.next() {
        Attempt::GiveUp(reason) => assert_eq!(reason, "no memory"),
        Attempt::Try(format) => panic!("{format:?}"),
    }
}

#[test]
fn allocator_knows_the_drm_list() {
    let known = dmabuf(fourcc("XR24"), &[5]);
    assert_eq!(
        request_allocation(&known, 5),
        Ok(Allocation { width: 64, height: 32, fourcc: fourcc("XR24"), modifier: Some(5) })
    );
    let unknown = dmabuf(0x12345678, &[5]);
    assert_eq!(
        request_allocation(&unknown, 5),
        Err(BufferError::UnknownFourcc(0x12345678))
    );
}

#[test]
fn implicit_layout_is_left_to_the_allocator() {
    let format = dmabuf(1, &[DRM_FORMAT_MOD_INVALID]);
    assert_eq!(
        plan_allocation(&format, DRM_FORMAT_MOD_INVALID, true),
        Ok(Allocation { width: 64, height: 32, fourcc: 1, modifier: None })
    );
    assert_eq!(
        plan_allocation(&format, 3, false),
        Err(BufferError::UnknownFourcc(1))
    );
}

#[test]
fn allocations_are_checked() {
    let format = dmabuf(1, &[5]);
    assert_eq!(check_allocation(&format, 5, 5, 1), Ok(()));
    assert_eq!(
        check_allocation(&format, 5, 6, 2),
        Err(BufferError::WrongModifier { actual: 6, expected: 5 })
    );
    assert_eq!(
        check_allocation(&format, 5, 5, 2),
        Err(BufferError::WrongFourcc { actual: 2, expected: 1 })
    );
}

#[test]
fn planes_name_the_layout_in_full() {
    let format = dmabuf(1, &[5]);
    let modifier = 0x0102030405060708;
    let planes = vec![Plane { offset: 0, stride: 256 }, Plane { offset: 8192, stride: 128 }];
    let submission = submit_planes(&format, modifier, &planes);
    assert_eq!((submission.width, submission.height, submission.fourcc), (64, 32, 1));
    assert_eq!(submission.planes.len(), 2);
    let second = submission.planes[1];
    assert_eq!((second.plane, second.offset, second.stride), (1, 8192, 128));
    assert_eq!(second.modifier_high, 0x01020304);
    assert_eq!(second.modifier_low, 0x05060708);
}

#[test]
fn compositor_decides_on_the_buffer() {
    assert!(finish_buffer(dmabuf(1, &[5]), 5, None).is_none());
    assert!(matches!(
        finish_buffer(dmabuf(1, &[5]), 5, Some(BufferCreateState::Failed)),
        Some(Err(BufferError::Rejected { fourcc: 1, modifier: 5, .. }))
    ));
    let mut state = CaptureState::new(false);
    state.buffer_event(true);
    match finish_buffer(dmabuf(1, &[5]), 5, state.buffer_create) {
        Some(Ok(buffer)) => {
            assert_eq!(buffer.dmabuf_format(), Some(dmabuf(1, &[5])));
            assert_eq!(buffer.modifier(), Some(5));
            assert_eq!(buffer.shm_format(), None);
            assert_eq!(buffer.size(), size(64, 32));
        }
        other => panic!("{other:?}"),
    }
    state.buffer_event(false);
    assert_eq!(state.buffer_create, Some(BufferCreateState::Failed));
}

#[test]
fn pools_hold_one_buffer() {
    let format = shm(PixelFormat::Xrgb8888, 10, 5, 40);
    let layout = create_shm_buffer(&[format], None).unwrap();
    assert_eq!(layout.format, format);
    assert_eq!((layout.pool_size, layout.width, layout.height, layout.stride), (200, 10, 5, 40));
}

#[test]
fn pools_must_fit_the_protocol() {
    let large = shm(PixelFormat::Xrgb8888, 32768, 16384, 131072);
    assert_eq!(create_shm_buffer(&[large], None).err(), Some(BufferError::PoolTooLarge));
    assert_eq!(
        create_shm_buffer(&[], Some(PixelFormat::Xrgb8888)).err(),
        Some(BufferError::NoShmFormat)
    );
}

#[test]
fn buffers_capture_what_they_missed() {
    let buffer = DirectCaptureBuffer::Shm { format: shm(PixelFormat::Xrgb8888, 10, 5, 40) };
    assert_eq!(buffer.shm_format(), Some(shm(PixelFormat::Xrgb8888, 10, 5, 40)));
    assert_eq!(buffer.dmabuf_format(), None);
    assert_eq!(buffer.modifier(), None);
    assert_eq!(
        buffer.damage_to_capture(&DamageSet::full()),
        vec![DamageRect { x: 0, y: 0, width: 10, height: 5 }]
    );
    assert!(buffer.damage_to_capture(&DamageSet::empty()).is_empty());
}

#[test]
fn rows_must_be_measurable() {
    let wide = SessionEvent::BufferSize { width: 1 << 30, height: 1 };
    let widest = SessionEvent::BufferSize { width: (1 << 30) - 1, height: 1 };
    let format = SessionEvent::ShmFormat(PixelFormat::Xrgb8888);

    let mut state = CaptureState::new(false);
    assert!(state.is_measurable(&wide));
    assert!(state.is_measurable(&format));
    state.session_event(SessionEvent::ShmFormat(PixelFormat::Xrgb8888));
    assert!(!state.is_measurable(&wide));
    assert!(state.is_measurable(&widest));
    assert!(state.is_measurable(&SessionEvent::Done));

    let mut state = CaptureState::new(false);
    state.session_event(wide);
    assert!(!state.is_measurable(&format));
}

#[test]
fn buffer_errors_have_words() {
    let expected = [
        (BufferError::NoDevice, "compositor did not provide a DMA-BUF device"),
        (BufferError::NoModifiers, "no DMA-BUF modifiers were advertised"),
        (BufferError::NoShmFormat, "no compatible SHM format was advertised"),
        (BufferError::PoolTooLarge, "out of range integral type conversion attempted"),
        (BufferError::UnknownFourcc(1), "UnrecognizedFourcc(1)"),
        (BufferError::UnknownFourcc(fourcc("ZZ99")), "UnrecognizedFourcc(ZZ99, 960059994)"),
        (
            BufferError::WrongModifier { actual: 6, expected: 0x0102030405060708 },
            "GBM returned modifier 0x0000000000000006, expected 0x0102030405060708",
        ),
        (
            BufferError::WrongFourcc { actual: fourcc("XR24"), expected: 0xab },
            "GBM returned fourcc=0x34325258, expected 0x000000ab",
        ),
        (
            BufferError::Rejected { fourcc: fourcc("AR24"), size: size(64, 32), modifier: 5 },
            "compositor rejected DMA-BUF buffer for fourcc=0x34325241, size=64x32, \
             modifier=0x0000000000000005",
        ),
    ];
    for (error, words) in expected {
        assert!(error.can_say());
        assert_eq!(error.message(), words);
    }
}

#[test]
fn unknown_codes_are_told_by_the_allocator() {
    for bytes in [*b"ZZ99", *b"Z9\0\0", *b"Z9\xc3\xa9", *b"Z9\xc3\0", *b"\0Z99", *b"\xc3\xa9Z9"] {
        let code = u32::from_le_bytes(bytes);
        let words = drm::buffer::DrmFourcc::try_from(code).unwrap_err().to_string();
        assert_eq!(request_allocation(&dmabuf(code, &[5]), 5).unwrap_err().message(), words);
    }
}

#[test]
fn codes_of_one_character_have_no_words() {
    for b0 in [0x41, 0xef, 0xf0, 0xf1, 0xf3, 0xf4, 0xf5] {
        for b1 in [0x7f, 0x80, 0x8f, 0x90, 0xbf, 0xc0] {
            for (b2, b3) in [(0x80, 0x80), (0xbf, 0xbf), (0x7f, 0x80), (0x80, 0xc0)] {
                let bytes = [b0, b1, b2, b3];
                let one = std::str::from_utf8(&bytes).is_ok_and(|s| s.chars().count() == 1);
                let error = BufferError::UnknownFourcc(u32::from_le_bytes(bytes));
                assert_eq!(error.can_say(), !one);
            }
        }
    }
}
