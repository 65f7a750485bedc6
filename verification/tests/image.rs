use shiny_portal::buffers::DirectCaptureBuffer;
use shiny_portal::bytes::ByteOrder;
use shiny_portal::capture::{CaptureProbe, CaptureTarget, DirectCapture, OutputInfo};
use shiny_portal::formats::{DmabufFormat, PixelFormat, ShmFormat};
use shiny_portal::geometry::Size;
use shiny_portal::image::{
    covers_frame, image_byte_len, read_frame, shm_to_rgba, ten_to_eight, two_to_eight, unpack_shm_pixel,
    ImageError, RgbaImage,
};
use shiny_portal::screenshot::{
    accept_buffer, can_crop_region, capture_region, capture_target, crop_region, encode_png,
    frame_len, name_file, screenshot_directory, screenshot_file_name, write_png, ScreenshotError,
};
use shiny_portal::shell::CustomRegion;

fn size(width: u32, height: u32) -> Size {
    Size { width, height }
}

/// An image whose pixels tell where they are.
fn numbered(width: u32, height: u32) -> RgbaImage {
    let mut pixels = Vec::new();
    for y in 0..height {
        for x in 0..width {
            pixels.extend_from_slice(&[x as u8, y as u8, 7, 255]);
        }
    }
    RgbaImage { width, height, pixels }
}

fn corner(image: &RgbaImage) -> (u8, u8) {
    (image.pixels[0], image.pixels[1])
}

fn shm(format: PixelFormat, width: u32, height: u32, stride: u32) -> ShmFormat {
    ShmFormat { format, size: size(width, height), stride }
}

fn region(x: i32, y: i32, width: i32, height: i32) -> CustomRegion {
    CustomRegion { monitor: "DP-1".to_string(), x, y, width, height }
}

#[test]
fn new_image_is_black_and_transparent() {
    let image = RgbaImage::new(3, 2).unwrap();
    assert_eq!((image.width, image.height), (3, 2));
    assert_eq!(image.pixels, vec![0; 24]);
}

#[test]
fn image_len_is_four_bytes_a_pixel() {
    assert_eq!(image_byte_len(3, 2), Ok(24));
    assert_eq!(image_byte_len(0, u32::MAX), Ok(0));
    assert_eq!(
        image_byte_len(u32::MAX, u32::MAX),
        Err(ImageError::DimensionsOverflow)
    );
    assert_eq!(
        RgbaImage::new(u32::MAX, u32::MAX).err(),
        Some(ImageError::DimensionsOverflow)
    );
}

#[test]
fn crop_takes_the_part() {
    let part = numbered(10, 8).crop(2, 3, 4, 2).unwrap();
    assert_eq!((part.width, part.height), (4, 2));
    assert_eq!(corner(&part), (2, 3));
    assert_eq!(&part.pixels[4 * 7..], &[5, 4, 7, 255]);
    assert_eq!(part.pixels.len(), 32);
}

#[test]
fn crop_stays_inside_the_image() {
    let part = numbered(10, 8).crop(-3, 6, 5, 100).unwrap();
    assert_eq!((part.width, part.height), (2, 2));
    assert_eq!(corner(&part), (0, 6));
}

#[test]
fn crop_of_nothing_is_an_error() {
    let image = numbered(10, 8);
    assert_eq!(image.crop(10, 0, 5, 5).err(), Some(ImageError::EmptyRegion));
    assert_eq!(image.crop(0, 0, 0, 5).err(), Some(ImageError::EmptyRegion));
    assert_eq!(image.crop(5, 5, -2, 2).err(), Some(ImageError::EmptyRegion));
    assert_eq!(image.crop(0, -9, 5, 9).err(), Some(ImageError::EmptyRegion));
}

#[test]
fn crops_compose() {
    let image = numbered(10, 8);
    let twice = image.crop(2, 1, 6, 6).unwrap().crop(1, 2, 3, 3).unwrap();
    let once = image.crop(3, 3, 3, 3).unwrap();
    assert_eq!(twice.pixels, once.pixels);
}

#[test]
fn ten_bits_round_to_nearest() {
    assert_eq!(ten_to_eight(0), 0);
    assert_eq!(ten_to_eight(2), 0);
    assert_eq!(ten_to_eight(3), 1);
    assert_eq!(ten_to_eight(512), 128);
    assert_eq!(ten_to_eight(1023), 255);
}

#[test]
fn two_bits_spread_over_the_range() {
    assert_eq!(
        [two_to_eight(0), two_to_eight(1), two_to_eight(2), two_to_eight(3), two_to_eight(5)],
        [0, 85, 170, 255, 85]
    );
}

#[test]
fn pixels_are_unpacked_by_format() {
    let pixel = 0x11223344;
    let expected = [
        (PixelFormat::Argb8888, [0x22, 0x33, 0x44, 0x11]),
        (PixelFormat::Xrgb8888, [0x22, 0x33, 0x44, 255]),
        (PixelFormat::Abgr8888, [0x44, 0x33, 0x22, 0x11]),
        (PixelFormat::Xbgr8888, [0x44, 0x33, 0x22, 255]),
    ];
    for (format, rgba) in expected {
        assert_eq!(unpack_shm_pixel(pixel, format), Ok(rgba), "{format:?}");
    }
    let deep = 2 << 30 | 1023 << 20 | 512 << 10 | 3;
    let expected = [
        (PixelFormat::Argb2101010, [255, 128, 1, 170]),
        (PixelFormat::Xrgb2101010, [255, 128, 1, 255]),
        (PixelFormat::Abgr2101010, [1, 128, 255, 170]),
        (PixelFormat::Xbgr2101010, [1, 128, 255, 255]),
    ];
    for (format, rgba) in expected {
        assert_eq!(unpack_shm_pixel(deep, format), Ok(rgba), "{format:?}");
    }
}

#[test]
fn readable_formats_are_those_preferred() {
    assert_eq!(
        unpack_shm_pixel(0, PixelFormat::Rgba8888),
        Err(ImageError::UnsupportedFormat(PixelFormat::Rgba8888))
    );
    assert_eq!(
        unpack_shm_pixel(0, PixelFormat::Other(3)),
        Err(ImageError::UnsupportedFormat(PixelFormat::Other(3)))
    );
}

#[test]
fn opaque_formats_have_full_alpha() {
    assert_eq!(unpack_shm_pixel(0, PixelFormat::Xrgb8888), Ok([0, 0, 0, 255]));
    assert_eq!(unpack_shm_pixel(0, PixelFormat::Xbgr2101010), Ok([0, 0, 0, 255]));
}

#[test]
fn unpacking_tells_pixels_apart() {
    let a = unpack_shm_pixel(0x01000000, PixelFormat::Argb8888).unwrap();
    let b = unpack_shm_pixel(0x02000000, PixelFormat::Argb8888).unwrap();
    assert_ne!(a, b);
}

#[test]
fn frames_are_read_row_by_row() {
    let format = shm(PixelFormat::Argb8888, 2, 2, 12);
    let mut bytes = vec![0; 24];
    for (offset, pixel) in [(0, 0x01020304u32), (4, 0x05060708), (12, 0x090a0b0c), (16, 0x0d0e0f10)] {
        bytes[offset..offset + 4].copy_from_slice(&pixel.to_be_bytes());
    }
    let image = read_frame(&bytes, format, ByteOrder::Big).unwrap();
    assert_eq!(
        image.pixels,
        vec![2, 3, 4, 1, 6, 7, 8, 5, 10, 11, 12, 9, 14, 15, 16, 13]
    );
}

#[test]
fn captured_frames_can_be_read() {
    let format = shm(PixelFormat::Xrgb8888, 3, 2, 12);
    let bytes: Vec<u8> = (0..6u32).flat_map(|i| (0x00010203 * i).to_ne_bytes()).collect();
    assert_eq!(bytes.len() as u64, format.byte_size());
    let image = shm_to_rgba(&bytes, format).unwrap();
    assert_eq!((image.width, image.height), (3, 2));
    assert_eq!(&image.pixels[..8], &[0, 0, 0, 255, 1, 2, 3, 255]);
    assert_eq!(&image.pixels[20..], &[5, 10, 15, 255]);
}

#[test]
fn unreadable_frames_are_errors() {
    assert_eq!(
        shm_to_rgba(&[0; 4], shm(PixelFormat::Bgra8888, 1, 1, 4)).err(),
        Some(ImageError::UnsupportedFormat(PixelFormat::Bgra8888))
    );
    assert_eq!(
        shm_to_rgba(&[], shm(PixelFormat::Argb8888, u32::MAX, u32::MAX, 0)).err(),
        Some(ImageError::DimensionsOverflow)
    );
    assert!(shm_to_rgba(&[], shm(PixelFormat::Bgra8888, 0, 5, 0)).unwrap().pixels.is_empty());
}

fn probe(shm_formats: Vec<ShmFormat>) -> CaptureProbe {
    CaptureProbe {
        size: size(1, 1),
        shm_formats,
        dmabuf_formats: Vec::new(),
        has_dmabuf_device: false,
    }
}

#[test]
fn screenshots_need_a_readable_format() {
    let good = shm(PixelFormat::Xbgr8888, 4, 4, 16);
    let bad = shm(PixelFormat::Bgrx8888, 4, 4, 16);
    assert_eq!(capture_target(&probe(vec![bad, good])).unwrap(), good);
    assert!(matches!(
        capture_target(&probe(vec![bad])),
        Err(ScreenshotError::NoReadableFormat)
    ));
}

#[test]
fn screenshot_buffers_must_fit_their_memory() {
    let wanted = shm(PixelFormat::Argb8888, 4, 4, 16);
    let smaller = shm(PixelFormat::Argb8888, 4, 3, 16);
    let larger = shm(PixelFormat::Argb8888, 4, 5, 16);
    let accept = |format| accept_buffer(wanted, &DirectCaptureBuffer::Shm { format });
    assert_eq!(accept(wanted).unwrap(), wanted);
    assert_eq!(accept(smaller).unwrap(), smaller);
    assert!(matches!(accept(larger), Err(ScreenshotError::ConstraintsChanged)));
    let dmabuf = DirectCaptureBuffer::Dmabuf {
        format: DmabufFormat { fourcc: 1, modifiers: vec![], size: size(4, 4) },
        modifier: 0,
    };
    assert!(matches!(accept_buffer(wanted, &dmabuf), Err(ScreenshotError::NotShm)));
}

#[test]
fn frame_len_is_its_byte_size() {
    assert_eq!(frame_len(shm(PixelFormat::Argb8888, 4, 4, 16)).unwrap(), 64);
}

fn capture_with(outputs: Vec<OutputInfo>) -> DirectCapture {
    let mut capture = DirectCapture::new();
    capture.outputs = outputs;
    capture
}

fn output(number: u32, name: &str, width: u32, height: u32) -> OutputInfo {
    OutputInfo {
        output: number,
        name: name.to_string(),
        description: String::new(),
        position: (0, 0),
        size: size(width, height),
    }
}

#[test]
fn region_leads_to_its_monitor() {
    let capture = capture_with(vec![
        output(3, "HDMI-A-1", 10, 10),
        output(5, "DP-1", 1920, 1080),
        output(7, "DP-1", 1, 1),
    ]);
    assert_eq!(
        capture_region(&capture, &region(0, 0, 1, 1)).unwrap(),
        (CaptureTarget::Output(5), size(1920, 1080))
    );
}

#[test]
fn region_without_monitor_is_an_error() {
    match capture_region(&capture_with(vec![]), &region(0, 0, 1, 1)) {
        Err(error @ ScreenshotError::MonitorNotFound(_)) => {
            assert_eq!(error.message(), "selected monitor DP-1 was not found");
        }
        other => panic!("{other:?}"),
    }
    for (width, height) in [(0, 5), (5, 0)] {
        assert!(matches!(
            capture_region(
                &capture_with(vec![output(1, "DP-1", width, height)]),
                &region(0, 0, 1, 1)
            ),
            Err(ScreenshotError::InvalidLogicalSize)
        ));
    }
}

#[test]
fn regions_are_scaled_to_pixels() {
    let image = numbered(20, 10);
    let part = crop_region(&image, &region(2, 1, 3, 2), size(10, 5)).unwrap();
    assert_eq!((part.width, part.height), (6, 4));
    assert_eq!(corner(&part), (4, 2));
}

#[test]
fn scaling_rounds_towards_zero() {
    let image = numbered(15, 15);
    let part = crop_region(&image, &region(-1, 1, 3, 3), size(10, 10)).unwrap();
    assert_eq!(corner(&part), (0, 1));
    assert_eq!((part.width, part.height), (3, 4));
}

#[test]
fn unscaled_regions_are_exact() {
    let image = numbered(20, 10);
    let part = crop_region(&image, &region(7, 3, 5, 4), size(20, 10)).unwrap();
    assert_eq!(part.pixels, image.crop(7, 3, 5, 4).unwrap().pixels);
}

#[test]
fn whole_monitor_is_the_whole_image() {
    let image = numbered(21, 9);
    let part = crop_region(&image, &region(0, 0, 7, 4), size(7, 4)).unwrap();
    assert_eq!(part.pixels, image.pixels);
}

#[test]
fn extreme_regions_can_be_cropped() {
    let image = numbered(3, 3);
    let whole = crop_region(
        &image,
        &region(i32::MIN, i32::MIN, i32::MAX, i32::MAX),
        size(1, 1),
    );
    assert!(matches!(
        whole,
        Err(ScreenshotError::Image(ImageError::EmptyRegion))
    ));
    let large = crop_region(&image, &region(0, 0, i32::MAX, i32::MAX), size(1, 1)).unwrap();
    assert_eq!(large.pixels, image.pixels);
}

#[test]
fn encoded_images_decode_to_their_pixels() {
    let image = numbered(5, 3);
    let file = encode_png(&image).unwrap();
    assert_ne!(file, image.pixels);
    let decoder = png::Decoder::new(std::io::Cursor::new(file));
    let mut reader = decoder.read_info().unwrap();
    let mut pixels = vec![0; reader.output_buffer_size().unwrap()];
    let info = reader.next_frame(&mut pixels).unwrap();
    assert_eq!((info.width, info.height), (5, 3));
    assert_eq!(info.color_type, png::ColorType::Rgba);
    assert_eq!(info.bit_depth, png::BitDepth::Eight);
    assert_eq!(pixels, image.pixels);
}

#[test]
fn empty_images_are_not_encoded() {
    for (width, height, words) in [
        (0, 4, "Zero width not allowed"),
        (4, 0, "Zero height not allowed"),
        (0, 0, "Zero width not allowed"),
    ] {
        let image = RgbaImage { width, height, pixels: Vec::new() };
        let error = encode_png(&image).err().unwrap();
        assert!(matches!(error, ScreenshotError::Encoding(_)));
        assert_eq!(error.message(), words);
        let error = write_png(&image, &b"/tmp".to_vec(), 1, 2).err().unwrap();
        assert_eq!(error.message(), words);
    }
}

#[test]
fn screenshots_lie_in_the_runtime_directory() {
    assert_eq!(
        screenshot_directory(Some(b"/run/user/1000".to_vec()), b"/tmp".to_vec()),
        b"/run/user/1000/xdg-desktop-portal-shiny".to_vec()
    );
    assert_eq!(
        screenshot_directory(None, b"/tmp".to_vec()),
        b"/tmp/xdg-desktop-portal-shiny".to_vec()
    );
    assert_eq!(
        screenshot_directory(Some(Vec::new()), b"/tmp".to_vec()),
        b"xdg-desktop-portal-shiny".to_vec()
    );
}

#[test]
fn screenshot_names_hold_process_and_number() {
    assert_eq!(screenshot_file_name(4321, 7), "shiny-screenshot-4321-7.png");
    assert_eq!(
        screenshot_file_name(u32::MAX, u64::MAX),
        "shiny-screenshot-4294967295-18446744073709551615.png"
    );
}

#[test]
fn screenshot_names_are_distinct() {
    assert_ne!(screenshot_file_name(1, 11), screenshot_file_name(11, 1));
    assert_ne!(screenshot_file_name(1, 11), screenshot_file_name(1, 1));
}

#[test]
fn saved_files_are_distinct() {
    let directory = b"/run/x y".to_vec();
    let first = name_file(vec![1], &directory, 5, 1);
    let second = name_file(vec![1], &directory, 5, 2);
    assert_ne!(first.path, second.path);
    assert_ne!(first.uri, second.uri);
    assert_eq!(first.path, b"/run/x y/shiny-screenshot-5-1.png".to_vec());
    assert_eq!(first.uri, "file:///run/x%20y/shiny-screenshot-5-1.png");
    assert_eq!(first.bytes, vec![1]);
}

#[test]
fn written_screenshot_is_named_and_encoded() {
    let image = numbered(2, 2);
    let file = write_png(&image, &b"/run".to_vec(), 12, 34).unwrap();
    assert_eq!(file.bytes, encode_png(&image).unwrap());
    assert_eq!(file.uri, "file:///run/shiny-screenshot-12-34.png");
}

#[test]
fn screenshot_errors_have_words() {
    let expected = [
        (
            ScreenshotError::NoReadableFormat,
            "compositor advertised no readable SHM screenshot format",
        ),
        (ScreenshotError::NotShm, "screenshot capture created a non-SHM buffer"),
        (
            ScreenshotError::ConstraintsChanged,
            "screenshot buffer constraints changed during allocation",
        ),
        (
            ScreenshotError::InvalidLogicalSize,
            "selected monitor has invalid logical dimensions",
        ),
        (
            ScreenshotError::Image(ImageError::DimensionsOverflow),
            "screenshot dimensions overflow address space",
        ),
        (
            ScreenshotError::Image(ImageError::EmptyRegion),
            "selected screenshot region is empty",
        ),
        (
            ScreenshotError::Image(ImageError::UnsupportedFormat(PixelFormat::Bgra8888)),
            "unsupported screenshot SHM format Bgra8888",
        ),
        (
            ScreenshotError::Image(ImageError::UnsupportedFormat(PixelFormat::Other(
                wayland_client::protocol::wl_shm::Format::Nv12 as u32,
            ))),
            "unsupported screenshot SHM format Nv12",
        ),
        (
            ScreenshotError::FrameTooLarge,
            "out of range integral type conversion attempted",
        ),
        (ScreenshotError::Encoding("no space left".to_string()), "no space left"),
    ];
    for (error, words) in expected {
        assert_eq!(error.message(), words);
    }
}

#[test]
fn frames_that_do_not_fit_are_failed_conversions() {
    assert_eq!(
        ScreenshotError::FrameTooLarge.message(),
        usize::try_from(u128::MAX).unwrap_err().to_string()
    );
}

#[test]
fn encoder_speaks_for_itself() {
    let mut bytes: Vec<u8> = Vec::new();
    let encoder = png::Encoder::new(&mut bytes, 0, 4);
    let words = encoder.write_header().err().unwrap().to_string();
    let image = RgbaImage { width: 0, height: 4, pixels: Vec::new() };
    assert_eq!(encode_png(&image).err().unwrap().message(), words);
}

#[test]
fn frames_are_covered_up_to_their_last_pixel() {
    let padded = shm(PixelFormat::Argb8888, 2, 2, 12);
    assert!(covers_frame(&[0; 20], padded));
    assert!(!covers_frame(&[0; 19], padded));
    let unreadable = shm(PixelFormat::Bgra8888, 5, 5, 20);
    assert!(covers_frame(&[0; 4], unreadable));
    assert!(!covers_frame(&[0; 3], unreadable));
    assert!(covers_frame(&[], shm(PixelFormat::Argb8888, 0, 5, 0)));
    assert!(covers_frame(&[], shm(PixelFormat::Argb8888, u32::MAX, u32::MAX, 0)));
    assert!(!covers_frame(&[], shm(PixelFormat::Argb8888, 1, 1, u32::MAX)));
}

#[test]
fn far_edges_must_be_computable() {
    let image = numbered(20, 10);
    assert!(can_crop_region(&region(-5, 3, 5, 4), &image, size(10, 5)));
    assert!(can_crop_region(
        &region(i32::MAX, i32::MAX, i32::MAX, i32::MAX),
        &image,
        size(1, 1)
    ));
    let wide = RgbaImage { width: u32::MAX, height: 0, pixels: Vec::new() };
    assert!(!can_crop_region(&region(i32::MAX, 0, i32::MAX, 0), &wide, size(1, 1)));
    assert!(can_crop_region(&region(i32::MIN, 0, i32::MAX, 0), &wide, size(1, 1)));
}

#[test]
fn noisy_images_are_encoded() {
    let mut state: u32 = 1;
    let mut pixels = Vec::new();
    for _ in 0..4 * 150 * 90 {
        state = state.wrapping_mul(1664525).wrapping_add(1013904223);
        pixels.push((state >> 24) as u8);
    }
    let image = RgbaImage { width: 150, height: 90, pixels };
    let file = encode_png(&image).unwrap();
    let mut reader = png::Decoder::new(std::io::Cursor::new(file)).read_info().unwrap();
    let mut decoded = vec![0; reader.output_buffer_size().unwrap()];
    reader.next_frame(&mut decoded).unwrap();
    assert_eq!(decoded, image.pixels);
}
