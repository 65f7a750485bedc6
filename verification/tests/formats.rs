use shiny_portal::bytes::{order_of_sample, read_u32, read_u64, read_u64s, ByteOrder};
use shiny_portal::formats::{
    choose_readable_shm_format, choose_shm_format, drm_fourcc_to_spa, format_name, fourcc,
    named_or_numbered, shm_format_to_spa, spa_to_drm_fourcc, spa_to_shm_format, DmabufFormat, PixelFormat, ShmFormat, VideoFormat,
    DRM_FORMAT_MOD_INVALID,
};
use shiny_portal::geometry::Size;
use wayland_client::protocol::wl_shm;

const PAIRS: [(&str, VideoFormat, PixelFormat); 12] = [
    ("AR24", VideoFormat::BGRA, PixelFormat::Argb8888),
    ("XR24", VideoFormat::BGRx, PixelFormat::Xrgb8888),
    ("RA24", VideoFormat::ABGR, PixelFormat::Rgba8888),
    ("RX24", VideoFormat::xBGR, PixelFormat::Rgbx8888),
    ("AB24", VideoFormat::RGBA, PixelFormat::Abgr8888),
    ("XB24", VideoFormat::RGBx, PixelFormat::Xbgr8888),
    ("BA24", VideoFormat::ARGB, PixelFormat::Bgra8888),
    ("BX24", VideoFormat::xRGB, PixelFormat::Bgrx8888),
    ("XR30", VideoFormat::xRGB_210LE, PixelFormat::Xrgb2101010),
    ("XB30", VideoFormat::xBGR_210LE, PixelFormat::Xbgr2101010),
    ("AR30", VideoFormat::ARGB_210LE, PixelFormat::Argb2101010),
    ("AB30", VideoFormat::ABGR_210LE, PixelFormat::Abgr2101010),
];

fn shm(format: PixelFormat) -> ShmFormat {
    ShmFormat { format, size: Size { width: 8, height: 2 }, stride: 32 }
}

#[test]
fn codes_are_four_characters_in_little_endian() {
    assert_eq!(fourcc("AR24"), 0x34325241);
    assert_eq!(fourcc("XR24"), 0x34325258);
    assert_eq!(fourcc("XB30"), u32::from_le_bytes(*b"XB30"));
    assert_eq!(fourcc("abcde"), u32::from_le_bytes(*b"abcd"));
}

#[test]
fn codes_agree_with_the_drm_list() {
    assert_eq!(fourcc("AR24"), drm::buffer::DrmFourcc::Argb8888 as u32);
    assert_eq!(fourcc("XB30"), drm::buffer::DrmFourcc::Xbgr2101010 as u32);
    assert_eq!(DRM_FORMAT_MOD_INVALID, u64::from(drm::buffer::DrmModifier::Invalid));
}

#[test]
fn codes_and_videos_invert() {
    for (code, video, _) in PAIRS {
        assert_eq!(drm_fourcc_to_spa(fourcc(code)), Some(video));
        assert_eq!(spa_to_drm_fourcc(video), Some(fourcc(code)));
    }
    assert_eq!(drm_fourcc_to_spa(fourcc("NV12")), None);
    assert_eq!(spa_to_drm_fourcc(VideoFormat::Other(23)), None);
}

#[test]
fn pixels_and_videos_invert() {
    for (_, video, pixel) in PAIRS {
        assert_eq!(shm_format_to_spa(pixel), Some(video));
        assert_eq!(spa_to_shm_format(video), Some(pixel));
    }
    assert_eq!(shm_format_to_spa(PixelFormat::Other(7)), None);
    assert_eq!(spa_to_shm_format(VideoFormat::Other(7)), None);
}

#[test]
fn codes_and_pixels_agree() {
    for (code, _, pixel) in PAIRS {
        assert_eq!(
            drm_fourcc_to_spa(fourcc(code)).and_then(spa_to_shm_format),
            Some(pixel)
        );
    }
}

#[test]
fn byte_size_is_rows_times_stride() {
    assert_eq!(shm(PixelFormat::Argb8888).byte_size(), 64);
    let large = ShmFormat {
        format: PixelFormat::Argb8888,
        size: Size { width: 1, height: u32::MAX },
        stride: u32::MAX,
    };
    assert_eq!(large.byte_size(), 18446744065119617025);
}

#[test]
fn preferred_shm_format_wins() {
    let formats = [shm(PixelFormat::Xrgb8888), shm(PixelFormat::Abgr2101010)];
    assert_eq!(
        choose_shm_format(&formats, Some(PixelFormat::Abgr2101010)),
        Some(shm(PixelFormat::Abgr2101010))
    );
    assert_eq!(
        choose_shm_format(&formats, Some(PixelFormat::Argb8888)),
        Some(shm(PixelFormat::Xrgb8888))
    );
}

#[test]
fn casts_prefer_formats_without_alpha() {
    let formats = [
        shm(PixelFormat::Other(9)),
        shm(PixelFormat::Argb8888),
        shm(PixelFormat::Xrgb8888),
    ];
    assert_eq!(choose_shm_format(&formats, None), Some(shm(PixelFormat::Xrgb8888)));
}

#[test]
fn casts_fall_back_to_the_first_format() {
    let formats = [shm(PixelFormat::Other(9)), shm(PixelFormat::Rgba8888)];
    assert_eq!(choose_shm_format(&formats, None), Some(shm(PixelFormat::Other(9))));
    assert_eq!(choose_shm_format(&[], Some(PixelFormat::Argb8888)), None);
}

#[test]
fn screenshots_prefer_formats_with_alpha() {
    let formats = [
        shm(PixelFormat::Xrgb2101010),
        shm(PixelFormat::Xrgb8888),
        shm(PixelFormat::Argb8888),
    ];
    assert_eq!(
        choose_readable_shm_format(&formats),
        Some(shm(PixelFormat::Argb8888))
    );
    assert_eq!(
        choose_readable_shm_format(&formats[..1]),
        Some(shm(PixelFormat::Xrgb2101010))
    );
}

#[test]
fn screenshots_refuse_unreadable_formats() {
    assert_eq!(choose_readable_shm_format(&[shm(PixelFormat::Rgba8888)]), None);
    assert_eq!(choose_readable_shm_format(&[]), None);
}

#[test]
fn copies_of_formats_are_equal() {
    let format = DmabufFormat {
        fourcc: 5,
        modifiers: vec![1, 2, 3],
        size: Size { width: 4, height: 5 },
    };
    assert_eq!(format.duplicate(), format);
}

#[test]
fn numbers_are_read_in_either_order() {
    let bytes = [0, 1, 2, 3, 4, 5, 6, 7, 8, 9];
    assert_eq!(read_u32(&bytes, 1, ByteOrder::Little), 0x04030201);
    assert_eq!(read_u32(&bytes, 1, ByteOrder::Big), 0x01020304);
    assert_eq!(read_u64(&bytes, 2, ByteOrder::Little), 0x0908070605040302);
    assert_eq!(read_u64(&bytes, 2, ByteOrder::Big), 0x0203040506070809);
}

#[test]
fn trailing_bytes_are_no_number() {
    let mut bytes = Vec::new();
    bytes.extend_from_slice(&7u64.to_be_bytes());
    bytes.extend_from_slice(&u64::MAX.to_be_bytes());
    bytes.extend_from_slice(&[1, 2, 3]);
    assert_eq!(read_u64s(&bytes, ByteOrder::Big), vec![7, u64::MAX]);
    assert_eq!(read_u64s(&bytes[..7], ByteOrder::Big), Vec::<u64>::new());
}

#[test]
fn samples_tell_the_byte_order() {
    assert_eq!(order_of_sample(u16::from_le_bytes([1, 0])), ByteOrder::Little);
    assert_eq!(order_of_sample(u16::from_be_bytes([1, 0])), ByteOrder::Big);
}

#[test]
fn formats_have_the_names_of_the_protocol() {
    let names = [
        (PixelFormat::Argb8888, wl_shm::Format::Argb8888),
        (PixelFormat::Xrgb8888, wl_shm::Format::Xrgb8888),
        (PixelFormat::Rgba8888, wl_shm::Format::Rgba8888),
        (PixelFormat::Rgbx8888, wl_shm::Format::Rgbx8888),
        (PixelFormat::Abgr8888, wl_shm::Format::Abgr8888),
        (PixelFormat::Xbgr8888, wl_shm::Format::Xbgr8888),
        (PixelFormat::Bgra8888, wl_shm::Format::Bgra8888),
        (PixelFormat::Bgrx8888, wl_shm::Format::Bgrx8888),
        (PixelFormat::Argb2101010, wl_shm::Format::Argb2101010),
        (PixelFormat::Xrgb2101010, wl_shm::Format::Xrgb2101010),
        (PixelFormat::Abgr2101010, wl_shm::Format::Abgr2101010),
        (PixelFormat::Xbgr2101010, wl_shm::Format::Xbgr2101010),
    ];
    for (format, listed) in names {
        assert_eq!(format_name(format), format!("{listed:?}"));
    }
    let code = wl_shm::Format::Nv12 as u32;
    assert_eq!(format_name(PixelFormat::Other(code)), "Nv12");
}

#[test]
fn formats_without_a_name_have_a_number() {
    assert_eq!(format_name(PixelFormat::Other(3)), "3");
    assert_eq!(named_or_numbered(3, None), "3");
    assert_eq!(named_or_numbered(3, Some("C8".to_string())), "C8");
}
