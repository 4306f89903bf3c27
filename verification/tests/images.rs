use pasteboard::clipboard::{
    capture_text_with_hash, capture_thumbnail, hash_bytes, would_store, TextCapture,
};
use pasteboard::db::RecordStore;
use pasteboard::paste::decode_rgba;

fn pixels(w: u32, h: u32) -> Vec<u8> {
    (0..(w * h * 4)).map(|i| (i % 251) as u8).collect()
}

#[test]
fn short_buffers_are_invalid_images() {
    let bytes = vec![0u8; 15];
    assert_eq!(capture_thumbnail(2, 2, &bytes), Err("图片数据无效".to_string()));
}

#[test]
fn thumbnails_match_the_image_crate() {
    let bytes = pixels(640, 100);
    let (tw, th, tp) = capture_thumbnail(640, 100, &bytes).unwrap();
    let img = image::RgbaImage::from_raw(640, 100, bytes.clone()).unwrap();
    let expected = image::DynamicImage::ImageRgba8(img).thumbnail(320, 1280).into_rgba8();
    assert_eq!((tw, th), (320, 50));
    assert_eq!((tw, th), (expected.width(), expected.height()));
    assert_eq!(tp, expected.into_raw());
}

#[test]
fn tall_images_are_fitted_to_the_height_bound() {
    let bytes = pixels(10, 2560);
    let (tw, th, tp) = capture_thumbnail(10, 2560, &bytes).unwrap();
    assert_eq!((tw, th), (5, 1280));
    assert_eq!(tp.len(), 5 * 1280 * 4);
}

#[test]
fn longer_buffers_still_hold_the_image() {
    let mut bytes = pixels(4, 4);
    bytes.extend_from_slice(&[1, 2, 3]);
    assert!(capture_thumbnail(4, 4, &bytes).is_ok());
}

#[test]
fn png_files_decode_to_their_pixels() {
    let bytes = pixels(3, 2);
    let img = image::RgbaImage::from_raw(3, 2, bytes.clone()).unwrap();
    let mut file = std::io::Cursor::new(Vec::new());
    img.write_to(&mut file, image::ImageFormat::Png).unwrap();
    let (w, h, p) = decode_rgba("/img/clip_1.png", file.get_ref()).unwrap();
    assert_eq!((w, h), (3, 2));
    assert_eq!(p, bytes);
    assert_eq!(hash_bytes(&p), hash_bytes(&bytes));
}

#[test]
fn garbage_does_not_decode() {
    assert!(decode_rgba("/img/clip_1.png", b"not an image").is_err());
}

#[test]
fn the_path_extension_picks_the_decoder() {
    let img = image::RgbaImage::from_raw(1, 1, vec![1, 2, 3, 4]).unwrap();
    let mut file = std::io::Cursor::new(Vec::new());
    img.write_to(&mut file, image::ImageFormat::Png).unwrap();
    let no_ext = image::ImageFormat::from_path("/img/clip_1").unwrap_err().to_string();
    assert_eq!(decode_rgba("/img/clip_1", file.get_ref()), Err(no_ext));
    let other = image::ImageFormat::from_path("/img/clip_1.xyz").unwrap_err().to_string();
    assert_eq!(decode_rgba("/img/clip_1.xyz", file.get_ref()), Err(other));
    assert!(decode_rgba("/img/clip_1.PNG", file.get_ref()).is_ok());
}

#[test]
fn only_new_nonblank_text_is_stored() {
    let h = "abc".to_string();
    assert!(!would_store(&None, "  ", &h));
    assert!(would_store(&None, "x", &h));
    assert!(!would_store(&Some("abc".to_string()), "x", &h));
    assert!(would_store(&Some("abd".to_string()), "x", &h));
}

#[test]
fn a_repeat_needs_no_new_id() {
    let rows = vec![];
    let mut store = RecordStore::restore(rows, i64::MAX).unwrap();
    let mut last = Some("abc".to_string());
    let r = capture_text_with_hash(&mut last, &mut store, 200, "x", "abc".to_string(), 1);
    assert!(matches!(r, TextCapture::Duplicate));
    let r = capture_text_with_hash(&mut last, &mut store, 200, " ", "zzz".to_string(), 1);
    assert!(matches!(r, TextCapture::Blank));
}
