use pasteboard::hotkey::{on_trigger, parse, register, Hotkey, KeyCode, Modifiers, TriggerAction};
use pasteboard::settings::{clamp_max_records, default_save_path, load, Settings};

fn mods(ctrl: bool, alt: bool, shift: bool, meta: bool) -> Option<Modifiers> {
    Some(Modifiers { ctrl, alt, shift, meta })
}

#[test]
fn parses_ctrl_shift_v() {
    assert_eq!(
        parse("Ctrl+Shift+V"),
        Some(Hotkey { mods: mods(true, false, true, false), key: KeyCode::Letter(21) })
    );
}

#[test]
fn parses_alt_v() {
    assert_eq!(
        parse("Alt+V"),
        Some(Hotkey { mods: mods(false, true, false, false), key: KeyCode::Letter(21) })
    );
}

#[test]
fn parsing_ignores_case_and_spaces() {
    assert_eq!(parse(" control + SHIFT + v "), parse("Ctrl+Shift+V"));
    assert_eq!(
        parse("win+cmd+9"),
        Some(Hotkey { mods: mods(false, false, false, true), key: KeyCode::Digit(9) })
    );
    assert_eq!(
        parse("Super+Meta+a"),
        Some(Hotkey { mods: mods(false, false, false, true), key: KeyCode::Letter(0) })
    );
}

#[test]
fn a_key_alone_has_no_modifiers() {
    assert_eq!(parse("z"), Some(Hotkey { mods: None, key: KeyCode::Letter(25) }));
    assert_eq!(parse("0"), Some(Hotkey { mods: None, key: KeyCode::Digit(0) }));
}

#[test]
fn texts_without_a_key_do_not_parse() {
    assert_eq!(parse(""), None);
    assert_eq!(parse("Ctrl+Shift"), None);
    assert_eq!(parse("Ctrl+F1"), None);
    assert_eq!(parse("Alt+é"), None);
    assert_eq!(parse("Alt+V+Foo"), None);
    assert_eq!(parse("Ctrl++"), None);
}

#[test]
fn the_last_key_wins() {
    assert_eq!(
        parse("Foo+Alt+V"),
        Some(Hotkey { mods: mods(false, true, false, false), key: KeyCode::Letter(21) })
    );
    assert_eq!(
        parse("A+B"),
        Some(Hotkey { mods: None, key: KeyCode::Letter(1) })
    );
}

#[test]
fn register_reports_unparsable_text() {
    assert_eq!(register("Ctrl+F1"), Err("无法解析快捷键: Ctrl+F1".to_string()));
    assert!(register("Alt+V").is_ok());
}

#[test]
fn trigger_toggles_the_panel() {
    assert_eq!(on_trigger(true), TriggerAction::Hide);
    assert_eq!(on_trigger(false), TriggerAction::ShowClipboard);
}

#[test]
fn default_save_path_uses_the_profile_folder() {
    assert_eq!(default_save_path(Some("C:\\Users\\me")), "C:\\Users\\me\\Documents\\ClipNest");
    assert_eq!(default_save_path(None), "ClipNest");
}

#[test]
fn default_settings() {
    let s = Settings::default_for(Some("C:\\Users\\me"));
    assert_eq!(s.save_path, "C:\\Users\\me\\Documents\\ClipNest");
    assert_eq!(s.max_records, 200);
    assert!(!s.clear_on_shutdown);
    assert!(s.autostart);
    assert_eq!(s.hotkey, "Alt+V");
}

#[test]
fn loading_falls_back_to_defaults() {
    let (s, write) = load(None, None);
    assert!(write);
    assert_eq!(s.save_path, "ClipNest");
    assert_eq!(s.max_records, 200);
    let stored = Settings {
        save_path: "D:\\clips".to_string(),
        max_records: 150,
        clear_on_shutdown: true,
        autostart: false,
        hotkey: "Ctrl+Shift+V".to_string(),
    };
    let (s, write) = load(Some(stored), None);
    assert!(!write);
    assert_eq!(s.save_path, "D:\\clips");
    assert_eq!(s.max_records, 150);
    assert!(s.clear_on_shutdown);
    assert!(!s.autostart);
    assert_eq!(s.hotkey, "Ctrl+Shift+V");
}

#[test]
fn record_limit_is_held_within_bounds() {
    assert_eq!(clamp_max_records(0), 100);
    assert_eq!(clamp_max_records(99), 100);
    assert_eq!(clamp_max_records(100), 100);
    assert_eq!(clamp_max_records(250), 250);
    assert_eq!(clamp_max_records(300), 300);
    assert_eq!(clamp_max_records(301), 300);
    assert_eq!(clamp_max_records(u32::MAX), 300);
}
