use base64::engine::general_purpose::STANDARD;
use base64::Engine;
use std::io::Cursor;

use wisp::images::{compress_image, get_image_info, ImageCompressConfig};

fn noise_png(width: u32, height: u32) -> Vec<u8> {
    let mut seed: u32 = 12345;
    let img = image::RgbImage::from_fn(width, height, |_, _| {
        seed = seed.wrapping_mul(1103515245).wrapping_add(12345);
        let b = (seed >> 16) as u8;
        image::Rgb([b, b.wrapping_mul(3), b.wrapping_add(7)])
    });
    let mut out = Cursor::new(Vec::new());
    image::DynamicImage::ImageRgb8(img)
        .write_to(&mut out, image::ImageFormat::Png)
        .expect("png written");
    out.into_inner()
}

#[test]
fn small_images_are_kept() {
    let bytes = noise_png(4, 4);
    let data = STANDARD.encode(&bytes);
    let r = compress_image(data.clone(), "image/png".to_string(), None).unwrap();
    assert!(!r.was_compressed);
    assert_eq!(r.data, data);
    assert_eq!(r.original_size, bytes.len());
    assert_eq!(r.compressed_size, bytes.len());
}

#[test]
fn bad_base64_is_refused() {
    let err = compress_image("!!!".to_string(), "image/png".to_string(), None).unwrap_err();
    assert!(err.starts_with("Failed to decode base64: "), "{}", err);
}

#[test]
fn large_png_becomes_jpeg() {
    let bytes = noise_png(300, 300);
    assert!(bytes.len() >= 50 * 1024);
    let data = STANDARD.encode(&bytes);
    let r = compress_image(data.clone(), "image/png".to_string(), None).unwrap();
    assert!(r.was_compressed);
    assert_eq!(r.mime_type, "image/jpeg");
    assert_eq!(r.original_size, bytes.len());
    assert!(r.compressed_size < bytes.len());
    let decoded = STANDARD.decode(&r.data).unwrap();
    assert_eq!(decoded.len(), r.compressed_size);
    let info = get_image_info(r.data.clone()).unwrap();
    assert_eq!((info.width, info.height), (300, 300));
}

#[test]
fn oversized_image_is_scaled_down() {
    let bytes = noise_png(300, 200);
    let data = STANDARD.encode(&bytes);
    let config = ImageCompressConfig { max_width: 150, max_height: 150, jpeg_quality: 70 };
    let r = compress_image(data, "image/png".to_string(), Some(config)).unwrap();
    assert!(r.was_compressed);
    let info = get_image_info(r.data).unwrap();
    assert_eq!((info.width, info.height), (150, 100));
}

#[test]
fn unreadable_large_data_reports_format_failure() {
    let junk = vec![7u8; 60 * 1024];
    let err = compress_image(STANDARD.encode(&junk), "image/png".to_string(), None).unwrap_err();
    assert!(err.starts_with("Failed to read image"), "{}", err);
}

#[test]
fn image_info_reports_layout_and_size() {
    let bytes = noise_png(5, 3);
    let info = get_image_info(STANDARD.encode(&bytes)).unwrap();
    assert_eq!(info.width, 5);
    assert_eq!(info.height, 3);
    assert_eq!(info.format, "rgb");
    assert_eq!(info.size_bytes, bytes.len());
}

#[test]
fn default_config_limits() {
    let c = ImageCompressConfig::default();
    assert_eq!((c.max_width, c.max_height, c.jpeg_quality), (2048, 2048, 80));
}
