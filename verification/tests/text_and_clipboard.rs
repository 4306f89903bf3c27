use std::collections::hash_map::DefaultHasher;
use std::hash::{Hash, Hasher};
use pasteboard::clipboard::{
    capture_text, capture_text_with_hash, hash_bytes, image_file_names, is_link, ms_from_epoch_millis,
    note_image, now_ms, store_image, TextCapture,
};
use pasteboard::db::{get, insert, list, trim_plan, RecordStore};
use pasteboard::text::{chars_of, to_decimal, to_lower_hex, white_space};

#[test]
fn lower_hex_matches_std_formatting() {
    for n in [0u64, 1, 9, 10, 15, 16, 255, 256, 0xdead_beef, u64::MAX] {
        assert_eq!(to_lower_hex(n), format!("{:x}", n));
    }
}

#[test]
fn decimal_matches_std_formatting() {
    for n in [0i64, 7, -7, 10, 1_700_000_000_123, i64::MIN, i64::MAX] {
        assert_eq!(to_decimal(n), format!("{}", n));
    }
}

#[test]
fn white_space_matches_char_is_whitespace() {
    for c in ['\t', '\n', ' ', '\u{85}', '\u{a0}', '\u{2003}', '\u{3000}', 'a', '\u{200b}', '-'] {
        assert_eq!(white_space(c), c.is_whitespace());
    }
}

#[test]
fn chars_of_keeps_every_character() {
    assert_eq!(chars_of("a剪b"), vec!['a', '剪', 'b']);
}

#[test]
fn links_are_trimmed_http_urls_without_spaces() {
    assert!(is_link("https://example.com/a?b=c"));
    assert!(is_link("  http://example.com \n"));
    assert!(!is_link("https://example.com/a b"));
    assert!(!is_link("ftp://example.com"));
    assert!(!is_link("see http://example.com"));
    assert!(!is_link("http:/"));
    assert!(!is_link(""));
    assert!(!is_link("   "));
    assert!(is_link("http://"));
}

#[test]
fn hash_is_lower_hex_and_repeatable() {
    let a = hash_bytes(b"hello");
    let b = hash_bytes(b"hello");
    let c = hash_bytes(b"hellp");
    assert_eq!(a, b);
    assert_ne!(a, c);
    assert!(!a.is_empty() && a.len() <= 16);
    assert!(a.chars().all(|ch| ch.is_ascii_hexdigit() && !ch.is_ascii_uppercase()));
}

#[test]
fn hash_matches_default_hasher_of_slice() {
    let bytes: &[u8] = b"clipboard text";
    let mut h = DefaultHasher::new();
    bytes.hash(&mut h);
    assert_eq!(hash_bytes(bytes), format!("{:x}", h.finish()));
}

#[test]
fn epoch_millis_are_cut_to_i64() {
    assert_eq!(ms_from_epoch_millis(None), 0);
    assert_eq!(ms_from_epoch_millis(Some(1_700_000_000_000)), 1_700_000_000_000);
    assert_eq!(ms_from_epoch_millis(Some(1u128 << 64)), 0);
    assert_eq!(ms_from_epoch_millis(Some((1u128 << 63) + 5)), i64::MIN + 5);
}

#[test]
fn now_is_after_2020() {
    assert!(now_ms() > 1_577_836_800_000);
}

#[test]
fn blank_text_is_left_for_the_image_path() {
    let mut store = RecordStore::new();
    let mut last = None;
    let r = capture_text(&mut last, &mut store, 200, "  \n\t", 5);
    assert!(matches!(r, TextCapture::Blank));
    assert!(last.is_none());
    assert_eq!(store.len(), 0);
}

#[test]
fn text_is_stored_once_then_deduplicated() {
    let mut store = RecordStore::new();
    let mut last = None;
    let first = capture_text(&mut last, &mut store, 200, "hello", 10);
    match first {
        TextCapture::Stored { id, files } => {
            assert_eq!(id, 1);
            assert!(files.is_empty());
        }
        _ => panic!("expected a stored record"),
    }
    assert_eq!(last, Some(hash_bytes(b"hello")));
    let again = capture_text(&mut last, &mut store, 200, "hello", 11);
    assert!(matches!(again, TextCapture::Duplicate));
    assert_eq!(store.len(), 1);
    let rec = get(&store, 1).unwrap();
    assert_eq!(rec.kind, "text");
    assert_eq!(rec.content, "hello");
    assert_eq!(rec.preview, "hello");
    assert_eq!(rec.thumb_path, None);
    assert!(!rec.pinned);
    assert_eq!(rec.created_at, 10);
    assert_eq!(rec.last_used_at, 10);
}

#[test]
fn links_are_stored_with_link_kind() {
    let mut store = RecordStore::new();
    let mut last = None;
    capture_text(&mut last, &mut store, 200, " https://example.com ", 1);
    assert_eq!(get(&store, 1).unwrap().kind, "link");
    assert_eq!(get(&store, 1).unwrap().content, " https://example.com ");
}

#[test]
fn capture_with_known_hash_skips_only_repeats() {
    let mut store = RecordStore::new();
    let mut last = Some("abc".to_string());
    let r = capture_text_with_hash(&mut last, &mut store, 200, "x", "abc".to_string(), 1);
    assert!(matches!(r, TextCapture::Duplicate));
    let r = capture_text_with_hash(&mut last, &mut store, 200, "x", "abd".to_string(), 2);
    assert!(matches!(r, TextCapture::Stored { id: 1, .. }));
    assert_eq!(last, Some("abd".to_string()));
}

#[test]
fn capture_trims_to_the_limit() {
    let mut store = RecordStore::new();
    let mut last = None;
    for i in 0..5i64 {
        let text = format!("item {}", i);
        let r = capture_text(&mut last, &mut store, 3, &text, 100 + i);
        assert!(matches!(r, TextCapture::Stored { .. }));
    }
    assert_eq!(store.len(), 3);
    let ids: Vec<i64> = list(&store).iter().map(|r| r.id).collect();
    assert_eq!(ids, vec![5, 4, 3]);
}

#[test]
fn images_repeat_detection() {
    let mut last = None;
    assert!(note_image(&mut last, "f00".to_string()));
    assert_eq!(last, Some("f00".to_string()));
    assert!(!note_image(&mut last, "f00".to_string()));
    assert!(note_image(&mut last, "f01".to_string()));
}

#[test]
fn image_files_are_named_by_time() {
    let (a, b) = image_file_names(1700000000123);
    assert_eq!(a, "clip_1700000000123.png");
    assert_eq!(b, "thumb_1700000000123.png");
}

#[test]
fn images_are_stored_with_thumbnail() {
    let mut store = RecordStore::new();
    let (id, files) = store_image(&mut store, 200, "/img/clip_1.png", "/img/thumb_1.png", 1);
    assert_eq!(id, 1);
    assert!(files.is_empty());
    let rec = get(&store, id).unwrap();
    assert_eq!(rec.kind, "image");
    assert_eq!(rec.content, "/img/clip_1.png");
    assert_eq!(rec.preview, "[图片]");
    assert_eq!(rec.thumb_path, Some("/img/thumb_1.png".to_string()));
}

#[test]
fn a_pasted_record_is_not_captured_again() {
    let mut store = RecordStore::new();
    let id = insert(&mut store, "text", "hello", "hello", None, 1);
    let mut last = Some(hash_bytes(b"hello"));
    pasteboard::db::touch(&mut store, id, 5);
    let r = capture_text(&mut last, &mut store, 200, "hello", 6);
    assert!(matches!(r, TextCapture::Duplicate));
    assert_eq!(store.len(), 1);
}

#[test]
fn trim_plan_is_repeatable() {
    let mut store = RecordStore::new();
    for t in [5i64, 3, 3, 9, 1] {
        insert(&mut store, "text", "x", "x", None, t);
    }
    let a: Vec<i64> = trim_plan(&store, 2).iter().map(|r| r.id).collect();
    let b: Vec<i64> = trim_plan(&store, 2).iter().map(|r| r.id).collect();
    assert_eq!(a, b);
    assert_eq!(a, vec![5, 2, 3]);
}
