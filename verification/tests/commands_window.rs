use pasteboard::commands::{
    current_ms, exit_cleanup, list_records, missing_record_message, save_record, set_settings,
    thumb_data_uri, truncate, SaveJob,
};
use pasteboard::db::{insert, list, set_pinned, touch, Record, RecordStore};
use pasteboard::paste::{paste_payload, Payload};
use pasteboard::settings::Settings;
use pasteboard::tray::{icon_click_action, menu_action, TrayAction};
use pasteboard::window::{
    click_outside, dismiss_panel, escape_pressed, no_activate_style, position_near_cursor, WorkArea,
};

fn settings() -> Settings {
    Settings {
        save_path: "C:\\clips".to_string(),
        max_records: 200,
        clear_on_shutdown: false,
        autostart: true,
        hotkey: "Alt+V".to_string(),
    }
}

#[test]
fn truncate_cuts_long_previews() {
    assert_eq!(truncate("hello", 5), "hello");
    assert_eq!(truncate("hello", 3), "hel…");
    assert_eq!(truncate("剪贴板历史", 2), "剪贴…");
    assert_eq!(truncate("", 0), "");
    assert_eq!(truncate("a", 0), "…");
}

#[test]
fn thumbnails_become_png_data_uris() {
    assert_eq!(thumb_data_uri(Some(b"hi".as_slice())), Some("data:image/png;base64,aGk=".to_string()));
    assert_eq!(thumb_data_uri(Some(b"".as_slice())), Some("data:image/png;base64,".to_string()));
    assert_eq!(thumb_data_uri(Some(b"abc".as_slice())), Some("data:image/png;base64,YWJj".to_string()));
    assert_eq!(thumb_data_uri(None), None);
}

#[test]
fn list_rows_show_truncated_previews_and_thumbs() {
    let long: String = std::iter::repeat('x').take(700).collect();
    let records = vec![
        Record {
            id: 1,
            kind: "text".to_string(),
            content: long.clone(),
            preview: long.clone(),
            thumb_path: None,
            pinned: true,
            created_at: 3,
            last_used_at: 4,
        },
        Record {
            id: 2,
            kind: "image".to_string(),
            content: "/i.png".to_string(),
            preview: "[图片]".to_string(),
            thumb_path: Some("/t.png".to_string()),
            pinned: false,
            created_at: 1,
            last_used_at: 2,
        },
    ];
    let rows = list_records(&records, &vec![None, Some(b"hi".to_vec())]);
    assert_eq!(rows.len(), 2);
    assert_eq!(rows[0].id, 1);
    assert_eq!(rows[0].preview.chars().count(), 601);
    assert!(rows[0].preview.ends_with('…'));
    assert_eq!(rows[0].thumb, None);
    assert!(rows[0].pinned);
    assert_eq!((rows[0].created_at, rows[0].last_used_at), (3, 4));
    assert_eq!(rows[1].kind, "image");
    assert_eq!(rows[1].preview, "[图片]");
    assert_eq!(rows[1].thumb, Some("data:image/png;base64,aGk=".to_string()));
}

#[test]
fn saving_picks_file_names_by_kind() {
    let mut s = RecordStore::new();
    let t = insert(&mut s, "text", "hello", "hello", None, 1);
    let i = insert(&mut s, "image", "/img/clip_1.png", "[图片]", Some("/th.png"), 2);
    match save_record(&s, t) {
        Ok(SaveJob::WriteText { content, file_name }) => {
            assert_eq!(content, "hello");
            assert_eq!(file_name, "clip_1.txt");
        }
        _ => panic!("expected a text job"),
    }
    match save_record(&s, i) {
        Ok(SaveJob::CopyImage { from, file_name }) => {
            assert_eq!(from, "/img/clip_1.png");
            assert_eq!(file_name, "clip_2.png");
        }
        _ => panic!("expected an image job"),
    }
    assert!(matches!(save_record(&s, 9), Err(e) if e == "记录不存在"));
    assert_eq!(missing_record_message(), "记录不存在");
}

#[test]
fn new_settings_clamp_the_limit_and_trim() {
    let mut st = settings();
    let mut s = RecordStore::new();
    for t in 0..120 {
        insert(&mut s, "text", "x", "x", None, t);
    }
    set_pinned(&mut s, 1, true);
    let files = set_settings(&mut st, &mut s, "D:\\new".to_string(), 5, true, false);
    assert!(files.is_empty());
    assert_eq!(st.max_records, 100);
    assert_eq!(st.save_path, "D:\\new");
    assert!(st.clear_on_shutdown);
    assert!(!st.autostart);
    assert_eq!(st.hotkey, "Alt+V");
    assert_eq!(s.len(), 100);
    let shown = list(&s);
    assert_eq!(shown[0].id, 1);
    assert_eq!(shown[1].id, 120);
    assert_eq!(shown[99].id, 22);
    set_settings(&mut st, &mut s, "D:\\new".to_string(), 1000, true, false);
    assert_eq!(st.max_records, 300);
}

#[test]
fn exit_cleanup_keeps_pinned_when_asked() {
    let mut s = RecordStore::new();
    insert(&mut s, "image", "/a.png", "[图片]", Some("/ta.png"), 1);
    insert(&mut s, "text", "b", "b", None, 2);
    set_pinned(&mut s, 2, true);
    let mut st = settings();
    assert!(exit_cleanup(&st, &mut s).is_empty());
    assert_eq!(s.len(), 2);
    st.clear_on_shutdown = true;
    assert_eq!(exit_cleanup(&st, &mut s), vec!["/a.png".to_string(), "/ta.png".to_string()]);
    assert_eq!(s.len(), 1);
    assert_eq!(list(&s)[0].id, 2);
}

#[test]
fn paste_payload_and_touch() {
    let mut s = RecordStore::new();
    let t = insert(&mut s, "text", "hello", "hello", None, 1);
    let i = insert(&mut s, "image", "/i.png", "[图片]", Some("/t.png"), 2);
    assert!(matches!(paste_payload(&s, t), Ok(Payload::Text { content }) if content == "hello"));
    assert!(matches!(paste_payload(&s, i), Ok(Payload::Image { path }) if path == "/i.png"));
    assert!(matches!(paste_payload(&s, 3), Err(e) if e == "记录不存在"));
    touch(&mut s, t, 10);
    assert_eq!(list(&s)[0].id, t);
    assert_eq!(list(&s)[0].last_used_at, 10);
}

#[test]
fn current_time_is_recent() {
    assert!(current_ms() > 1_577_836_800_000);
}

#[test]
fn panel_goes_to_the_lower_right_of_the_cursor() {
    let area = WorkArea { cursor_x: 500, cursor_y: 400, left: 0, top: 0, right: 1920, bottom: 1040 };
    assert_eq!(position_near_cursor(Some((383, 509)), Some(area)), (514, 414));
}

#[test]
fn panel_flips_near_the_far_edges() {
    let area = WorkArea { cursor_x: 1800, cursor_y: 1000, left: 0, top: 0, right: 1920, bottom: 1040 };
    assert_eq!(position_near_cursor(Some((383, 509)), Some(area)), (1800 - 383 - 14, 1000 - 509 - 14));
}

#[test]
fn panel_is_held_inside_the_work_area() {
    let area = WorkArea { cursor_x: 100, cursor_y: 100, left: 0, top: 0, right: 300, bottom: 400 };
    assert_eq!(position_near_cursor(Some((383, 509)), Some(area)), (0, 0));
    let area = WorkArea { cursor_x: 10, cursor_y: 10, left: 0, top: 0, right: 400, bottom: 600 };
    assert_eq!(position_near_cursor(None, Some(area)), (0, 24));
}

#[test]
fn panel_falls_back_without_a_cursor() {
    assert_eq!(position_near_cursor(Some((383, 509)), None), (100, 100));
}

#[test]
fn panel_dismissal_rules() {
    assert!(dismiss_panel(false, true));
    assert!(!dismiss_panel(true, true));
    assert!(!dismiss_panel(false, false));
    assert!(click_outside(0, true, 5, 5, 10, 10, 20, 20));
    assert!(!click_outside(0, true, 10, 10, 10, 10, 20, 20));
    assert!(click_outside(0, true, 20, 15, 10, 10, 20, 20));
    assert!(!click_outside(-1, true, 5, 5, 10, 10, 20, 20));
    assert!(!click_outside(0, false, 5, 5, 10, 10, 20, 20));
    assert!(escape_pressed(0, true, 0x1B));
    assert!(!escape_pressed(0, true, 0x1C));
    assert!(!escape_pressed(-1, true, 0x1B));
    assert!(!escape_pressed(0, false, 0x1B));
}

#[test]
fn no_activate_style_toggles_only_the_flag() {
    let flag: isize = 0x0800_0000;
    assert_eq!(no_activate_style(0x100, flag, true), Some(0x100 | flag));
    assert_eq!(no_activate_style(0x100 | flag, flag, true), None);
    assert_eq!(no_activate_style(0x100 | flag, flag, false), Some(0x100));
    assert_eq!(no_activate_style(0x100, flag, false), None);
}

#[test]
fn tray_entries() {
    assert_eq!(menu_action("settings"), Some(TrayAction::ShowSettings));
    assert_eq!(menu_action("clipboard"), Some(TrayAction::ShowClipboard));
    assert_eq!(menu_action("quit"), Some(TrayAction::Quit));
    assert_eq!(menu_action("other"), None);
    assert_eq!(icon_click_action(true, true), Some(TrayAction::ShowClipboard));
    assert_eq!(icon_click_action(true, false), None);
    assert_eq!(icon_click_action(false, true), None);
}
