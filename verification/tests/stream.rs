use shiny_portal::buffers::{DirectCaptureBuffer, Plane};
use shiny_portal::capture::{CaptureError, CaptureProbe, CaptureTarget};
use shiny_portal::cast::{node_serial, prepare_stream, ScreencastThread, StreamReadyState};
use shiny_portal::config::Config;
use shiny_portal::damage::DamageRect;
use shiny_portal::formats::{fourcc, DmabufFormat, PixelFormat, ShmFormat, VideoFormat};
use shiny_portal::geometry::Size;
use shiny_portal::pod::{
    buffer_param, fixed_format_param, format_param, is_countable, pod_modifier_flags, Fraction, PodKey, PodKind,
    PodObject, PodValue, PropertyFlags, SPA_DATA_DMA_BUF, SPA_DATA_MEM_FD,
};
use shiny_portal::stream::{
    can_lay_out_planes, can_lay_out_shm, dmabuf_blocks, shm_block, AfterCapture, BlockError, BufferPlan, DataBlock, FormatParam,
    ParamStep, ProcessStep, Refusal, StreamingData, SPA_PARAM_FORMAT,
};
use shiny_portal::stream_formats::{FormatError, StreamFormatState};

const SIZE: Size = Size { width: 100, height: 50 };

fn dmabuf(code: &str, modifiers: &[u64]) -> DmabufFormat {
    DmabufFormat { fourcc: fourcc(code), modifiers: modifiers.to_vec(), size: SIZE }
}

fn shm(format: PixelFormat) -> ShmFormat {
    ShmFormat { format, size: SIZE, stride: 400 }
}

fn probe(
    dmabuf_formats: Vec<DmabufFormat>,
    shm_formats: Vec<ShmFormat>,
    has_dmabuf_device: bool,
) -> CaptureProbe {
    CaptureProbe { size: SIZE, shm_formats, dmabuf_formats, has_dmabuf_device }
}

fn usual_probe() -> CaptureProbe {
    probe(
        vec![dmabuf("XR24", &[3, 4]), dmabuf("AR24", &[5])],
        vec![shm(PixelFormat::Xrgb8888)],
        true,
    )
}

fn cast(allow_shm: bool) -> StreamingData {
    let formats = StreamFormatState::from_probe(usual_probe(), allow_shm).unwrap();
    StreamingData::new(formats, CaptureTarget::Output(1), false, allow_shm, 30)
}

fn shm_buffer() -> DirectCaptureBuffer {
    DirectCaptureBuffer::Shm { format: shm(PixelFormat::Xrgb8888) }
}

fn rect(x: i32, y: i32, width: i32, height: i32) -> DamageRect {
    DamageRect { x, y, width, height }
}

fn whole() -> Vec<DamageRect> {
    vec![rect(0, 0, 100, 50)]
}

fn missed(cast: &StreamingData, id: u64) -> Vec<DamageRect> {
    match cast.process(Some(id)) {
        ProcessStep::Capture(rects) => rects,
        other => panic!("{other:?}"),
    }
}

fn headers(param: &PodObject) -> Vec<(PodKey, PropertyFlags)> {
    param.properties.iter().map(|p| (p.key, p.flags)).collect()
}

fn flags(mandatory: bool, dont_fixate: bool) -> PropertyFlags {
    PropertyFlags { mandatory, dont_fixate }
}

fn offers(formats: &StreamFormatState) -> Vec<(VideoFormat, Vec<u64>)> {
    formats.offers.iter().map(|o| (o.spa_format, o.modifiers.clone())).collect()
}

#[test]
fn dmabuf_formats_are_offered_in_order() {
    let formats = StreamFormatState::from_probe(
        probe(
            vec![dmabuf("NV12", &[1]), dmabuf("XR24", &[3, 4]), dmabuf("AR24", &[]), dmabuf("AB24", &[5])],
            vec![shm(PixelFormat::Xrgb8888)],
            true,
        ),
        false,
    )
    .unwrap();
    assert!(formats.dmabuf_supported);
    assert_eq!(formats.size, SIZE);
    assert_eq!(
        offers(&formats),
        vec![(VideoFormat::BGRx, vec![3, 4]), (VideoFormat::RGBA, vec![5])]
    );
}

#[test]
fn shm_is_offered_only_if_allowed() {
    let without = StreamFormatState::from_probe(usual_probe(), false).unwrap();
    assert!(without.offers.iter().all(|offer| !offer.modifiers.is_empty()));
    let with = StreamFormatState::from_probe(usual_probe(), true).unwrap();
    assert_eq!(offers(&with)[2], (VideoFormat::BGRx, vec![]));
}

#[test]
fn dmabuf_offers_come_first() {
    let with = StreamFormatState::from_probe(usual_probe(), true).unwrap();
    let modifiers: Vec<usize> = with.offers.iter().map(|o| o.modifiers.len()).collect();
    assert_eq!(modifiers, vec![2, 1, 0]);
}

#[test]
fn shm_formats_are_offered_once() {
    let formats = StreamFormatState::from_probe(
        probe(
            vec![],
            vec![
                shm(PixelFormat::Xrgb8888),
                shm(PixelFormat::Other(4)),
                shm(PixelFormat::Xrgb8888),
                shm(PixelFormat::Argb8888),
            ],
            true,
        ),
        true,
    )
    .unwrap();
    assert!(!formats.dmabuf_supported);
    assert_eq!(
        offers(&formats),
        vec![(VideoFormat::BGRx, vec![]), (VideoFormat::BGRA, vec![])]
    );
}

#[test]
fn casts_without_formats_fail() {
    let error = |found, allow| StreamFormatState::from_probe(found, allow).err();
    assert_eq!(
        error(probe(vec![dmabuf("XR24", &[1])], vec![], false), false),
        Some(FormatError::NoDmabufPath)
    );
    assert_eq!(
        error(probe(vec![], vec![shm(PixelFormat::Xrgb8888)], true), false),
        Some(FormatError::NoDmabufPath)
    );
    assert_eq!(
        error(probe(vec![dmabuf("NV12", &[1])], vec![], true), false),
        Some(FormatError::NoDmabufFormats)
    );
    assert_eq!(
        error(probe(vec![], vec![shm(PixelFormat::Other(2))], true), true),
        Some(FormatError::NoFormats)
    );
}

#[test]
fn format_errors_have_words() {
    assert_eq!(
        FormatError::NoDmabufPath.message(),
        "compositor did not advertise a usable dma-buf capture path"
    );
    assert_eq!(
        FormatError::NoDmabufFormats.message(),
        "compositor did not advertise usable dma-buf formats and modifiers"
    );
    assert_eq!(
        FormatError::NoFormats.message(),
        "no capture formats could be mapped to pw spa video formats"
    );
}

#[test]
fn fallback_is_the_first_layout_of_the_format() {
    let formats = StreamFormatState::from_probe(usual_probe(), true).unwrap();
    assert_eq!(formats.fallback_modifier(VideoFormat::BGRx), Some(3));
    assert_eq!(formats.fallback_modifier(VideoFormat::BGRA), Some(5));
    assert_eq!(formats.fallback_modifier(VideoFormat::RGBA), None);
    let shm_only =
        StreamFormatState::from_probe(probe(vec![], vec![shm(PixelFormat::Argb8888)], false), true)
            .unwrap();
    assert_eq!(shm_only.fallback_modifier(VideoFormat::BGRA), None);
}

#[test]
fn offers_leave_the_layout_open() {
    let open = format_param(100, 50, VideoFormat::BGRx, &vec![7, u64::MAX], 0);
    assert_eq!(open.kind, PodKind::FormatOffer);
    assert_eq!(
        headers(&open).iter().map(|h| h.0).collect::<Vec<_>>(),
        vec![
            PodKey::MediaType,
            PodKey::MediaSubtype,
            PodKey::VideoSize,
            PodKey::VideoFramerate,
            PodKey::VideoFormat,
            PodKey::VideoModifier,
        ]
    );
    assert_eq!(pod_modifier_flags(&headers(&open)), Some(flags(true, true)));
    assert!(matches!(
        &open.properties[5].value,
        PodValue::LongEnum { default: 7, alternatives } if alternatives == &vec![7, -1]
    ));
    let plain = format_param(100, 50, VideoFormat::BGRx, &vec![], 0);
    assert_eq!(pod_modifier_flags(&headers(&plain)), None);
}

#[test]
fn rates_are_limited_on_demand() {
    let limited = format_param(100, 50, VideoFormat::BGRx, &vec![], 60);
    assert_eq!(limited.properties[4].key, PodKey::VideoMaxFramerate);
    assert!(matches!(
        limited.properties[4].value,
        PodValue::FractionRange {
            default: Fraction { num: 60, denom: 1 },
            min: Fraction { num: 1, denom: 1 },
            max: Fraction { num: 60, denom: 1 },
        }
    ));
    assert!(matches!(
        limited.properties[3].value,
        PodValue::Fraction(Fraction { num: 0, denom: 1 })
    ));
}

#[test]
fn settled_formats_are_settled() {
    let fixed = fixed_format_param(100, 50, VideoFormat::BGRA, u64::MAX, 25);
    assert_eq!(pod_modifier_flags(&headers(&fixed)), Some(flags(true, false)));
    assert!(matches!(fixed.properties[2].value, PodValue::Rectangle(SIZE)));
    assert!(matches!(fixed.properties[4].value, PodValue::Format(VideoFormat::BGRA)));
    assert!(matches!(fixed.properties[5].value, PodValue::Long(-1)));
    assert_eq!(fixed.properties[6].key, PodKey::VideoMaxFramerate);
    assert_eq!(fixed_format_param(100, 50, VideoFormat::BGRA, 0, 0).properties.len(), 6);
}

#[test]
fn layouts_stay_distinct() {
    let layout = |modifier| match fixed_format_param(1, 1, VideoFormat::BGRA, modifier, 0)
        .properties[5]
        .value
    {
        PodValue::Long(value) => value,
        _ => panic!("no layout"),
    };
    assert_ne!(layout(1 << 63), layout(0));
}

#[test]
fn buffers_are_four_bytes_a_pixel() {
    let param = buffer_param(100, 50, 2, true);
    assert_eq!(param.kind, PodKind::Buffers);
    assert!(matches!(
        &param.properties[0].value,
        PodValue::IntFlags { default: 8, flags } if flags == &vec![8]
    ));
    assert!(matches!(param.properties[1].value, PodValue::Int(16)));
    assert!(matches!(param.properties[2].value, PodValue::Int(2)));
    assert!(matches!(
        param.properties[3].value,
        PodValue::IntRange { default: 4, min: 1, max: 32 }
    ));
    assert!(matches!(param.properties[4].value, PodValue::Int(20000)));
    assert!(matches!(param.properties[5].value, PodValue::Int(400)));
    assert!(matches!(
        buffer_param(100, 50, 1, false).properties[0].value,
        PodValue::IntFlags { default: 4, .. }
    ));
}

#[test]
fn nothing_is_captured_without_a_buffer() {
    let cast = cast(false);
    assert!(matches!(cast.process(None), ProcessStep::Idle));
    assert!(matches!(cast.process(Some(1)), ProcessStep::Requeue));
}

#[test]
fn new_buffers_are_captured_whole() {
    let mut cast = cast(true);
    cast.attach_capture_buffer(1, shm_buffer());
    assert_eq!(missed(&cast, 1), whole());
}

#[test]
fn frame_damage_reaches_every_other_buffer() {
    let mut cast = cast(true);
    for id in [1, 2, 3] {
        cast.attach_capture_buffer(id, shm_buffer());
    }
    for id in [1, 2, 3] {
        assert_eq!(cast.captured(id, Ok(vec![])), AfterCapture::Nothing);
    }
    assert_eq!(cast.captured(2, Ok(vec![rect(1, 1, 2, 2)])), AfterCapture::Nothing);
    assert_eq!(missed(&cast, 2), vec![]);
    assert_eq!(missed(&cast, 1), vec![rect(1, 1, 2, 2)]);
    assert_eq!(missed(&cast, 3), vec![rect(1, 1, 2, 2)]);
}

#[test]
fn missed_damage_is_kept_until_captured() {
    let mut cast = cast(true);
    cast.attach_capture_buffer(1, shm_buffer());
    cast.attach_capture_buffer(2, shm_buffer());
    cast.update_buffer_damage(1, &vec![]);
    cast.update_buffer_damage(2, &vec![rect(0, 0, 1, 1)]);
    cast.update_buffer_damage(2, &vec![rect(5, 5, 1, 1)]);
    assert_eq!(missed(&cast, 1), vec![rect(0, 0, 1, 1), rect(5, 5, 1, 1)]);
    cast.update_buffer_damage(1, &vec![]);
    assert_eq!(missed(&cast, 1), vec![]);
}

#[test]
fn failed_captures_change_nothing() {
    let mut cast = cast(true);
    cast.attach_capture_buffer(1, shm_buffer());
    assert_eq!(
        cast.captured(1, Err(CaptureError::BufferConstraints)),
        AfterCapture::Reprobe
    );
    assert_eq!(cast.captured(1, Err(CaptureError::Stopped)), AfterCapture::Deactivate);
    assert_eq!(cast.captured(1, Err(CaptureError::Failed)), AfterCapture::Nothing);
    assert_eq!(
        cast.captured(1, Err(CaptureError::Connection("x".into()))),
        AfterCapture::Nothing
    );
    assert_eq!(missed(&cast, 1), whole());
}

#[test]
fn reprobing_makes_every_buffer_stale() {
    let mut cast = cast(true);
    cast.attach_capture_buffer(1, shm_buffer());
    cast.update_buffer_damage(1, &vec![]);
    let params = cast.reprobed(probe(vec![], vec![shm(PixelFormat::Argb8888)], false)).unwrap();
    assert_eq!(params.len(), 1);
    assert!(matches!(params[0].properties[5].value, PodValue::Format(VideoFormat::BGRA)));
    assert!(!cast.formats.dmabuf_supported);
    assert_eq!(missed(&cast, 1), whole());
}

#[test]
fn useless_probes_are_ignored() {
    let mut cast = cast(false);
    let before = offers(&cast.formats);
    assert_eq!(
        cast.reprobed(probe(vec![], vec![], true)).err(),
        Some(FormatError::NoDmabufPath)
    );
    assert_eq!(offers(&cast.formats), before);
}

#[test]
fn resetting_makes_every_buffer_stale() {
    let mut cast = cast(true);
    cast.attach_capture_buffer(1, shm_buffer());
    cast.attach_capture_buffer(2, shm_buffer());
    cast.update_buffer_damage(1, &vec![]);
    cast.reset_buffer_damage();
    assert_eq!(missed(&cast, 1), whole());
    assert_eq!(missed(&cast, 2), whole());
}

#[test]
fn ids_stay_distinct() {
    let mut cast = cast(true);
    cast.attach_capture_buffer(1, shm_buffer());
    cast.attach_capture_buffer(2, shm_buffer());
    cast.update_buffer_damage(1, &vec![]);
    cast.attach_capture_buffer(1, shm_buffer());
    assert_eq!(cast.buffers.iter().map(|b| b.id).collect::<Vec<_>>(), vec![1, 2]);
    assert_eq!(missed(&cast, 1), whole());
}

#[test]
fn removing_undoes_attaching() {
    let mut cast = cast(true);
    cast.attach_capture_buffer(1, shm_buffer());
    cast.attach_capture_buffer(2, shm_buffer());
    cast.attach_capture_buffer(3, shm_buffer());
    let mut fds = vec![4, -1, 0];
    assert_eq!(cast.remove_buffer(2, &mut fds), vec![4, 0]);
    assert_eq!(fds, vec![-1, -1, -1]);
    assert_eq!(cast.buffers.iter().map(|b| b.id).collect::<Vec<_>>(), vec![1, 3]);
    assert!(matches!(cast.process(Some(2)), ProcessStep::Requeue));
    assert_eq!(cast.remove_buffer(9, &mut Vec::new()), Vec::<i32>::new());
    assert_eq!(cast.buffers.len(), 2);
}

#[test]
fn released_fds_are_gone() {
    let mut cast = cast(true);
    let mut fds = vec![i64::from(i32::MAX), 1 << 40, -7, 3];
    assert_eq!(cast.remove_buffer(1, &mut fds), vec![i32::MAX, 3]);
    assert_eq!(fds, vec![-1, -1, -7, -1]);
    assert_eq!(cast.remove_buffer(1, &mut fds), Vec::<i32>::new());
    assert_eq!(fds, vec![-1, -1, -7, -1]);
}

#[test]
fn dmabufs_are_made_where_both_sides_have_them() {
    let mut cast = cast(false);
    let wanted = 1 << SPA_DATA_DMA_BUF | 1 << SPA_DATA_MEM_FD;
    assert_eq!(
        cast.plan_buffer(&vec![wanted]),
        BufferPlan::Dmabuf { fourcc: None, modifier: None }
    );
    cast.chosen_format = Some(VideoFormat::BGRA);
    assert_eq!(
        cast.plan_buffer(&vec![wanted, wanted]),
        BufferPlan::Dmabuf { fourcc: Some(fourcc("AR24")), modifier: Some(5) }
    );
    cast.chosen_modifier = Some(77);
    assert_eq!(
        cast.plan_buffer(&vec![wanted]),
        BufferPlan::Dmabuf { fourcc: Some(fourcc("AR24")), modifier: Some(77) }
    );
}

#[test]
fn shm_buffers_need_leave() {
    let memory = 1 << SPA_DATA_MEM_FD;
    assert_eq!(
        cast(false).plan_buffer(&vec![memory]),
        BufferPlan::Refused(Refusal::ShmDisabled { first_type: Some(4) })
    );
    assert_eq!(
        cast(false).plan_buffer(&vec![]),
        BufferPlan::Refused(Refusal::ShmDisabled { first_type: None })
    );
    let mut allowed = cast(true);
    assert_eq!(
        allowed.plan_buffer(&vec![memory, memory]),
        BufferPlan::Refused(Refusal::NotOneBlock { blocks: 2 })
    );
    assert_eq!(
        allowed.plan_buffer(&vec![memory]),
        BufferPlan::Shm { preferred: None, bytes: 20000 }
    );
    allowed.chosen_format = Some(VideoFormat::BGRx);
    assert_eq!(
        allowed.plan_buffer(&vec![memory]),
        BufferPlan::Shm { preferred: Some(PixelFormat::Xrgb8888), bytes: 20000 }
    );
}

#[test]
fn shm_block_holds_the_frame() {
    assert_eq!(
        shm_block(SIZE),
        DataBlock {
            data_type: SPA_DATA_MEM_FD,
            max_size: 20000,
            chunk_size: 20000,
            chunk_offset: 0,
            chunk_stride: 400,
        }
    );
}

#[test]
fn shm_memory_holds_the_frame() {
    match cast(true).plan_buffer(&vec![1 << SPA_DATA_MEM_FD]) {
        BufferPlan::Shm { bytes, .. } => {
            assert_eq!(u64::from(bytes), shm(PixelFormat::Xrgb8888).byte_size());
        }
        other => panic!("{other:?}"),
    }
}

#[test]
fn planes_have_a_block_each() {
    let buffer = DirectCaptureBuffer::Dmabuf { format: dmabuf("XR24", &[3]), modifier: 3 };
    let planes = vec![Plane { offset: 0, stride: 512 }, Plane { offset: 9000, stride: 64 }];
    let blocks = dmabuf_blocks(&buffer, 2, &planes).unwrap();
    assert_eq!(
        blocks[1],
        DataBlock {
            data_type: SPA_DATA_DMA_BUF,
            max_size: 20000,
            chunk_size: 3200,
            chunk_offset: 9000,
            chunk_stride: 64,
        }
    );
    assert_eq!(blocks[0].chunk_size, 25600);
    assert_eq!(
        dmabuf_blocks(&buffer, 1, &planes).err(),
        Some(BlockError::PlaneCount { blocks: 1, planes: 2 })
    );
    assert_eq!(
        dmabuf_blocks(&shm_buffer(), 2, &planes).err(),
        Some(BlockError::NotDmabuf)
    );
}

fn video(format: VideoFormat, modifier: u64, headers: Vec<(PodKey, PropertyFlags)>) -> FormatParam {
    FormatParam::Video { format, modifier, headers }
}

#[test]
fn other_params_are_ignored() {
    let mut cast = cast(false);
    let param = video(VideoFormat::BGRx, 3, vec![(PodKey::VideoModifier, flags(true, false))]);
    assert!(matches!(cast.param_changed(3, param), ParamStep::Nothing));
    assert!(matches!(
        cast.param_changed(SPA_PARAM_FORMAT, FormatParam::Missing),
        ParamStep::Nothing
    ));
    assert!(matches!(
        cast.param_changed(SPA_PARAM_FORMAT, FormatParam::Unparsable),
        ParamStep::Unparsable
    ));
    assert_eq!(cast.chosen_format, None);
}

#[test]
fn open_layouts_are_settled() {
    let mut cast = cast(false);
    let open = video(
        VideoFormat::BGRx,
        4,
        vec![(PodKey::Other(1), flags(false, false)), (PodKey::VideoModifier, flags(true, true))],
    );
    let params = match cast.param_changed(SPA_PARAM_FORMAT, open) {
        ParamStep::Publish(params) => params,
        other => panic!("{other:?}"),
    };
    assert_eq!(params.len(), 3);
    assert_eq!(cast.chosen_format, Some(VideoFormat::BGRx));
    assert_eq!(cast.chosen_modifier, None);
    let answer = video(VideoFormat::BGRx, 4, headers(&params[0]));
    assert!(matches!(
        cast.param_changed(SPA_PARAM_FORMAT, answer),
        ParamStep::CountPlanes { fourcc: code, modifier: 4 } if code == fourcc("XR24")
    ));
    assert_eq!(cast.chosen_modifier, Some(4));
}

#[test]
fn formats_without_code_end_the_negotiation() {
    let mut cast = cast(false);
    let param = video(VideoFormat::Other(9), 4, vec![(PodKey::VideoModifier, flags(true, false))]);
    assert!(matches!(
        cast.param_changed(SPA_PARAM_FORMAT, param),
        ParamStep::NoFourcc(VideoFormat::Other(9))
    ));
    assert_eq!(cast.chosen_modifier, Some(4));
}

#[test]
fn formats_without_layout_mean_shm() {
    let mut cast = cast(true);
    cast.chosen_modifier = Some(1);
    match cast.param_changed(SPA_PARAM_FORMAT, video(VideoFormat::BGRx, 4, vec![])) {
        ParamStep::Publish(params) => {
            assert_eq!(params.len(), 1);
            assert!(matches!(
                params[0].properties[0].value,
                PodValue::IntFlags { default: 4, .. }
            ));
        }
        other => panic!("{other:?}"),
    }
    assert_eq!(cast.chosen_modifier, None);
}

#[test]
fn planes_decide_on_the_blocks() {
    let cast = cast(false);
    assert!(cast.planes_counted(0).is_none());
    let param = cast.planes_counted(3).unwrap();
    assert!(matches!(param.properties[2].value, PodValue::Int(3)));
    assert!(matches!(
        param.properties[0].value,
        PodValue::IntFlags { default: 8, .. }
    ));
}

#[test]
fn casts_are_announced_once() {
    let mut ready = StreamReadyState::new(SIZE);
    assert_eq!(ready.send_if_ready(), None);
    assert_eq!(ready.set_serial(7, 100), None);
    let announced = ScreencastThread { node_id: 7, pipewire_serial: 100, size: SIZE };
    assert_eq!(ready.set_node(7, None), Some(announced));
    assert_eq!(ready.set_node(7, Some(101)), None);
    assert_eq!(ready.set_serial(7, 102), None);
    assert_eq!(ready.send_if_ready(), None);
}

#[test]
fn order_of_node_and_serial_does_not_matter() {
    let announced = ScreencastThread { node_id: 7, pipewire_serial: 100, size: SIZE };
    let mut ready = StreamReadyState::new(SIZE);
    assert_eq!(ready.set_node(7, None), None);
    assert_eq!(ready.set_serial(7, 100), Some(announced));
    let mut ready = StreamReadyState::new(SIZE);
    assert_eq!(ready.set_node(7, Some(100)), Some(announced));
}

#[test]
fn other_nodes_announce_nothing() {
    let mut ready = StreamReadyState::new(SIZE);
    assert_eq!(ready.set_node(7, None), None);
    assert_eq!(ready.set_serial(8, 100), None);
    let thread = ready.set_serial(7, 5).unwrap();
    assert_eq!((thread.node_id(), thread.pipewire_serial(), thread.size()), (7, 5, SIZE));
}

#[test]
fn serials_are_numbers_of_nodes() {
    assert_eq!(node_serial(true, Some("123")), Some(123));
    assert_eq!(node_serial(true, Some("12x")), None);
    assert_eq!(node_serial(true, None), None);
    assert_eq!(node_serial(false, Some("123")), None);
}

#[test]
fn streams_are_prepared_from_the_probe() {
    let config = Config { max_fps: 0, allow_screencast_shm: true };
    let mut prepared =
        prepare_stream(usual_probe(), true, CaptureTarget::Toplevel(4), config).unwrap();
    assert_eq!(prepared.params.len(), 3);
    assert!(prepared.data.overlay_cursor && prepared.data.allow_shm_fallback);
    assert_eq!(prepared.data.target, CaptureTarget::Toplevel(4));
    assert!(prepared.data.buffers.is_empty());
    assert_eq!(prepared.ready.set_node(1, Some(2)).unwrap().size, SIZE);
    let strict = Config { max_fps: 0, allow_screencast_shm: false };
    assert_eq!(
        prepare_stream(probe(vec![], vec![], true), false, CaptureTarget::Output(1), strict).err(),
        Some(FormatError::NoDmabufPath)
    );
}

fn huge_cast(allow_shm: bool) -> StreamingData {
    let mut found = usual_probe();
    found.size = Size { width: 1 << 29, height: 1 << 29 };
    let formats = StreamFormatState::from_probe(found, allow_shm).unwrap();
    StreamingData::new(formats, CaptureTarget::Output(1), false, allow_shm, 30)
}

#[test]
fn damage_must_be_weighable_in_every_other_buffer() {
    let damage = vec![rect(0, 0, 1 << 29, 1 << 29)];
    let mut huge = huge_cast(true);
    huge.attach_capture_buffer(1, shm_buffer());
    huge.attach_capture_buffer(2, shm_buffer());
    assert!(huge.can_propagate(1, &damage));
    huge.captured(1, Ok(Vec::new()));
    assert!(huge.can_propagate(1, &damage));
    assert!(!huge.can_propagate(2, &damage));
    assert!(huge.can_propagate(2, &vec![rect(0, 0, 8, 8)]));

    let mut usual = cast(true);
    usual.attach_capture_buffer(1, shm_buffer());
    usual.captured(1, Ok(Vec::new()));
    assert!(usual.can_propagate(2, &whole()));
}

#[test]
fn only_shm_buffers_must_be_countable() {
    let dmabuf_types = vec![1 << SPA_DATA_DMA_BUF];
    let shm_types = vec![1 << SPA_DATA_MEM_FD];
    assert!(cast(true).can_plan_buffer(&shm_types));
    assert!(huge_cast(true).can_plan_buffer(&dmabuf_types));
    assert!(!huge_cast(true).can_plan_buffer(&shm_types));
    assert!(huge_cast(false).can_plan_buffer(&shm_types));
    assert!(huge_cast(true).can_plan_buffer(&vec![1 << SPA_DATA_MEM_FD; 2]));
}

#[test]
fn shm_blocks_must_be_countable() {
    assert!(can_lay_out_shm(SIZE));
    assert!(can_lay_out_shm(Size { width: 65536, height: 16383 }));
    assert!(!can_lay_out_shm(Size { width: 65536, height: 16384 }));
    assert!(!can_lay_out_shm(Size { width: 1 << 29, height: 1 }));
    assert!(can_lay_out_shm(Size { width: (1 << 29) - 1, height: 1 }));
}

#[test]
fn plane_blocks_must_be_countable() {
    let buffer = DirectCaptureBuffer::Dmabuf { format: dmabuf("XR24", &[3]), modifier: 3 };
    let narrow = Plane { offset: 0, stride: 400 };
    let wide = Plane { offset: 0, stride: u32::MAX };
    assert!(can_lay_out_planes(&buffer, 1, &vec![narrow]));
    assert!(!can_lay_out_planes(&buffer, 2, &vec![narrow, wide]));
    assert!(can_lay_out_planes(&buffer, 1, &vec![narrow, wide]));
    assert!(can_lay_out_planes(&shm_buffer(), 1, &vec![wide]));
}

#[test]
fn only_shm_params_must_be_countable() {
    let open = vec![(PodKey::VideoModifier, flags(true, true))];
    let shm_only = video(VideoFormat::BGRx, 0, vec![]);
    assert!(cast(true).can_change_param(SPA_PARAM_FORMAT, &shm_only));
    let huge = huge_cast(true);
    assert!(!huge.can_change_param(SPA_PARAM_FORMAT, &shm_only));
    assert!(huge.can_change_param(SPA_PARAM_FORMAT + 1, &shm_only));
    assert!(huge.can_change_param(SPA_PARAM_FORMAT, &video(VideoFormat::BGRx, 3, open)));
    assert!(huge.can_change_param(SPA_PARAM_FORMAT, &FormatParam::Missing));
    assert!(huge.can_change_param(SPA_PARAM_FORMAT, &FormatParam::Unparsable));
}

#[test]
fn counted_planes_must_be_countable() {
    assert!(cast(true).can_count_planes(2));
    assert!(!huge_cast(true).can_count_planes(2));
    assert!(huge_cast(true).can_count_planes(0));
}

#[test]
fn frames_are_counted_in_signed_numbers() {
    assert!(is_countable(1920, 1080));
    assert!(is_countable(65536, 8191));
    assert!(!is_countable(65536, 8192));
    assert!(!is_countable(1 << 29, 1));
}

#[test]
fn refusals_have_words() {
    assert_eq!(
        Refusal::ShmDisabled { first_type: Some(4) }.message(),
        "pw did not allocate dma-buf although shm fallback is disabled; datas[0].type=Some(4)"
    );
    assert_eq!(
        Refusal::ShmDisabled { first_type: None }.message(),
        "pw did not allocate dma-buf although shm fallback is disabled; datas[0].type=None"
    );
    assert_eq!(
        Refusal::NotOneBlock { blocks: 3 }.message(),
        "expected one shm pw data block, got 3"
    );
}

#[test]
fn block_errors_have_words() {
    assert_eq!(
        BlockError::NotDmabuf.message(),
        "dma-buf capture allocation returned a non-dma-buf buffer"
    );
    assert_eq!(
        BlockError::PlaneCount { blocks: 1, planes: 2 }.message(),
        "pw allocated 1 dma-buf data blocks, but gbm buffer has 2 planes"
    );
}
