use image_viewer::cache::ImageCache;
use image_viewer::pipeline::{
    decode_bytes, decode_image, encode_resized, image_to_base64, lookup_decoded, resize_image, resize_rgba,
    DecodedImage, ImageFailure,
};

fn rgba_4x4() -> Vec<u8> {
    (0..64u32).map(|i| (i * 4) as u8).collect()
}

fn png_bytes(w: u32, h: u32, pixels: Vec<u8>) -> Vec<u8> {
    let buf = image::RgbaImage::from_raw(w, h, pixels).unwrap();
    let mut out = std::io::Cursor::new(Vec::new());
    buf.write_to(&mut out, image::ImageFormat::Png).unwrap();
    out.into_inner()
}

const PREFIX: &str = "data:image/png;base64,";

#[test]
fn resize_4x4_to_2x2() {
    let r = resize_rgba(&rgba_4x4(), 4, 4, 2, 2).ok().unwrap();
    assert_eq!(r.width, 2);
    assert_eq!(r.height, 2);
    assert!(r.data.len() > PREFIX.len());
    assert!(r.data.starts_with(PREFIX));
}

#[test]
fn resize_ignores_aspect_ratio() {
    let r = resize_rgba(&rgba_4x4(), 4, 4, 7, 1).ok().unwrap();
    assert_eq!((r.width, r.height), (7, 1));
    let r = resize_rgba(&vec![10u8; 4 * 3 * 2], 3, 2, 1, 9).ok().unwrap();
    assert_eq!((r.width, r.height), (1, 9));
}

#[test]
fn resize_output_decodes_to_target_size() {
    let r = resize_rgba(&rgba_4x4(), 4, 4, 3, 5).ok().unwrap();
    let b64 = &r.data[PREFIX.len()..];
    let png = base64::Engine::decode(&base64::engine::general_purpose::STANDARD, b64).unwrap();
    let img = decode_bytes(&png).ok().unwrap();
    assert_eq!((img.width, img.height), (3, 5));
    assert_eq!(img.pixels.len(), 3 * 5 * 4);
}

#[test]
fn resize_rejects_mismatched_buffer() {
    assert!(matches!(resize_rgba(&vec![0u8; 10], 2, 2, 1, 1), Err(ImageFailure::Decode(_))));
}

#[test]
fn resize_rejects_oversized_target() {
    assert!(matches!(
        resize_rgba(&Vec::new(), 0, 0, u32::MAX, u32::MAX),
        Err(ImageFailure::TooLarge)
    ));
}

#[test]
fn resize_to_zero_width_cannot_be_encoded() {
    assert!(matches!(resize_rgba(&rgba_4x4(), 4, 4, 0, 2), Err(ImageFailure::Encode(_))));
}

#[test]
fn image_to_base64_is_padded_data_uri() {
    let s = image_to_base64(&vec![255u8, 0, 0, 255], 1, 1).ok().unwrap();
    assert!(s.starts_with(PREFIX));
    let body = &s[PREFIX.len()..];
    assert!(!body.is_empty());
    assert_eq!(body.len() % 4, 0);
    let png = base64::Engine::decode(&base64::engine::general_purpose::STANDARD, body).unwrap();
    assert_eq!(&png[1..4], b"PNG");
}

#[test]
fn decode_bytes_round_trips_png() {
    let pixels = rgba_4x4();
    let img = decode_bytes(&png_bytes(4, 4, pixels.clone())).ok().unwrap();
    assert_eq!((img.width, img.height), (4, 4));
    assert_eq!(img.pixels.as_slice(), pixels.as_slice());
}

#[test]
fn decode_bytes_rejects_garbage() {
    assert!(matches!(decode_bytes(b"not an image"), Err(ImageFailure::Decode(_))));
    assert!(matches!(decode_bytes(&[]), Err(ImageFailure::Decode(_))));
}

#[test]
fn second_decode_is_a_cache_hit_with_same_pixels() {
    let mut cache = ImageCache::new(4);
    assert!(lookup_decoded(&mut cache, "p.png").is_none());
    let bytes = png_bytes(4, 4, rgba_4x4());
    let first = decode_image(&mut cache, "p.png", &bytes).ok().unwrap();
    let second: DecodedImage = lookup_decoded(&mut cache, "p.png").unwrap();
    assert_eq!(second.width, first.width);
    assert_eq!(second.height, first.height);
    assert_eq!(second.data.as_slice(), first.pixels.as_slice());
}

#[test]
fn failed_decode_leaves_cache_untouched() {
    let mut cache = ImageCache::new(4);
    assert!(matches!(decode_image(&mut cache, "bad.png", b"xyz"), Err(ImageFailure::Decode(_))));
    assert_eq!(cache.len(), 0);
    assert!(!cache.contains("bad.png"));
}

#[test]
fn decode_evicts_when_full() {
    let mut cache = ImageCache::new(1);
    let bytes = png_bytes(4, 4, rgba_4x4());
    decode_image(&mut cache, "a.png", &bytes).ok().unwrap();
    decode_image(&mut cache, "b.png", &bytes).ok().unwrap();
    assert!(!cache.contains("a.png"));
    assert!(cache.contains("b.png"));
}

#[test]
fn resize_image_from_file_bytes() {
    let bytes = png_bytes(4, 4, rgba_4x4());
    let r = resize_image(&bytes, 2, 2).ok().unwrap();
    assert_eq!((r.width, r.height), (2, 2));
    assert!(r.data.starts_with(PREFIX));
    assert!(matches!(resize_image(b"junk", 2, 2), Err(ImageFailure::Decode(_))));
}

#[test]
fn decoded_image_copies_cached_pixels() {
    let img = decode_bytes(&png_bytes(4, 4, rgba_4x4())).ok().unwrap();
    let d = DecodedImage::from_cached(&img);
    assert_eq!((d.width, d.height), (4, 4));
    assert_eq!(d.data, rgba_4x4());
}

#[test]
fn encode_resized_keeps_size_and_payload() {
    let r = encode_resized(&vec![0u8; 4 * 3 * 2], 3, 2).ok().unwrap();
    assert_eq!((r.width, r.height), (3, 2));
    assert!(r.data.len() > PREFIX.len());
    let png = base64::Engine::decode(
        &base64::engine::general_purpose::STANDARD,
        &r.data[PREFIX.len()..],
    )
    .unwrap();
    let img = decode_bytes(&png).ok().unwrap();
    assert_eq!(img.pixels.as_slice(), vec![0u8; 24].as_slice());
}

#[test]
fn encode_resized_refuses_empty_target() {
    assert!(matches!(encode_resized(&Vec::new(), 0, 3), Err(ImageFailure::Encode(_))));
    assert!(matches!(encode_resized(&Vec::new(), 3, 0), Err(ImageFailure::Encode(_))));
    assert!(matches!(image_to_base64(&Vec::new(), 0, 0), Err(ImageFailure::Encode(_))));
}
