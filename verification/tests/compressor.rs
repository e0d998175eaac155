use base64::Engine;
use clawgotchi::screenshot::{compress_screenshot_base64, CompressError, MAX_SCREENSHOT_BASE64};

fn noisy_rgba(width: u32, height: u32) -> image::RgbaImage {
    // a simple linear-congruential stream keeps the image incompressible
    let mut state: u32 = 0x2545_f491;
    image::RgbaImage::from_fn(width, height, |_, _| {
        state = state.wrapping_mul(1664525).wrapping_add(1013904223);
        let b = state.to_le_bytes();
        image::Rgba([b[0], b[1], b[2], 255])
    })
}

fn jpeg_base64(img: &image::DynamicImage, quality: u8) -> String {
    let mut bytes: Vec<u8> = Vec::new();
    let mut enc = image::codecs::jpeg::JpegEncoder::new_with_quality(&mut bytes, quality);
    enc.encode_image(img).unwrap();
    base64::engine::general_purpose::STANDARD.encode(&bytes)
}

/// A readable JPEG inflated over the budget with comment segments.
fn bloated_jpeg() -> Vec<u8> {
    let img = image::DynamicImage::ImageRgba8(noisy_rgba(640, 480));
    let mut tiny: Vec<u8> = Vec::new();
    let mut enc = image::codecs::jpeg::JpegEncoder::new_with_quality(&mut tiny, 80);
    enc.encode_image(&img).unwrap();
    let mut out: Vec<u8> = Vec::with_capacity(5_000_000);
    out.extend_from_slice(&tiny[..2]); // start-of-image marker
    for _ in 0..75 {
        out.extend_from_slice(&[0xFF, 0xFE, 0xFF, 0xFD]); // comment, length 65533
        out.extend(std::iter::repeat(0u8).take(65531));
    }
    out.extend_from_slice(&tiny[2..]);
    out
}

#[test]
fn oversized_capture_is_reencoded_under_budget() {
    let raw = base64::engine::general_purpose::STANDARD.encode(&bloated_jpeg());
    assert!(raw.len() > MAX_SCREENSHOT_BASE64, "the capture must start over budget");
    let out = compress_screenshot_base64(&raw).unwrap();
    assert!(out.len() <= MAX_SCREENSHOT_BASE64);
    assert_ne!(out, raw);
    // the result must still be a readable image
    let bytes = base64::engine::general_purpose::STANDARD.decode(&out).unwrap();
    image::load_from_memory_with_format(&bytes, image::ImageFormat::Jpeg).unwrap();
}

#[test]
fn capture_within_budget_is_returned_byte_identical() {
    let img = image::DynamicImage::ImageRgba8(noisy_rgba(32, 32));
    let raw = jpeg_base64(&img, 80);
    assert!(raw.len() <= MAX_SCREENSHOT_BASE64);
    assert_eq!(compress_screenshot_base64(&raw).unwrap(), raw);
}

#[test]
fn empty_capture_is_a_no_op() {
    assert_eq!(compress_screenshot_base64("").unwrap(), "");
}

#[test]
fn oversized_text_that_is_not_base64_fails_to_decode() {
    let raw = "!".repeat(MAX_SCREENSHOT_BASE64 + 1);
    match compress_screenshot_base64(&raw) {
        Err(e @ CompressError::Decode(_)) => {
            assert!(e.message().starts_with("Failed to decode screenshot: "));
        },
        _ => panic!("invalid base64 over the budget must fail to decode"),
    }
}

#[test]
fn oversized_base64_that_is_no_image_fails_to_parse() {
    let zeros = vec![0u8; 5_500_000];
    let raw = base64::engine::general_purpose::STANDARD.encode(&zeros);
    assert!(raw.len() > MAX_SCREENSHOT_BASE64);
    match compress_screenshot_base64(&raw) {
        Err(e @ CompressError::Parse(_)) => {
            assert!(e.message().starts_with("Failed to parse screenshot image: "));
        },
        _ => panic!("bytes that are no image must fail to parse"),
    }
}

#[test]
fn capacity_error_has_its_own_message() {
    assert_eq!(CompressError::TooLarge.message(), "Screenshot too large to attach");
}
