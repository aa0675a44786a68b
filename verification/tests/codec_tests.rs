use soundboard_state::codec::hotkeys_to_json;
use soundboard_state::codec::parse_hotkeys;
use soundboard_state::codec::parse_settings;
use soundboard_state::codec::settings_to_json;
use soundboard_state::state::HotkeyMap;
use soundboard_state::state::Settings;

fn settings(multi: bool, repeat: bool, on_top: bool, volume: &str) -> Settings {
    Settings {
        multi_sound_enabled: multi,
        repeat_sound_enabled: repeat,
        always_on_top: on_top,
        volume: volume.to_string(),
    }
}

#[test]
fn settings_default_renders_exactly() {
    let text = settings_to_json(&Settings::default());
    let expected = "{\n  \"multi_sound_enabled\": true,\n  \"repeat_sound_enabled\": false,\n  \"always_on_top\": false,\n  \"volume\": 1.0\n}";
    assert_eq!(text, expected);
}

#[test]
fn settings_round_trip() {
    let s = settings(false, true, true, "0.25");
    let text = settings_to_json(&s);
    let back = parse_settings(&text).expect("own output must parse");
    assert_eq!(back.multi_sound_enabled, false);
    assert_eq!(back.repeat_sound_enabled, true);
    assert_eq!(back.always_on_top, true);
    assert_eq!(back.volume, "0.25");
}

#[test]
fn settings_round_trip_exponent_volume() {
    let s = settings(true, true, false, "-3.5e-7");
    let text = settings_to_json(&s);
    let back = parse_settings(&text).expect("own output must parse");
    assert_eq!(back.volume, "-3.5e-7");
}

#[test]
fn settings_parse_accepts_other_whitespace() {
    let text = "{\"multi_sound_enabled\":true,\"repeat_sound_enabled\":false,\"always_on_top\":true,\"volume\":2}";
    let s = parse_settings(text).expect("compact form must parse");
    assert_eq!(s.always_on_top, true);
    assert_eq!(s.volume, "2");
}

#[test]
fn settings_parse_rejects_garbage() {
    assert!(parse_settings("not json at all").is_none());
    assert!(parse_settings("").is_none());
    assert!(parse_settings("{}").is_none());
    assert!(parse_settings("[1, 2]").is_none());
}

#[test]
fn settings_parse_rejects_trailing_text() {
    let s = Settings::default();
    let mut text = settings_to_json(&s);
    text.push_str(" x");
    assert!(parse_settings(&text).is_none());
}

#[test]
fn settings_parse_rejects_bad_volume() {
    let text = "{\"multi_sound_enabled\":true,\"repeat_sound_enabled\":false,\"always_on_top\":true,\"volume\":nope}";
    assert!(parse_settings(text).is_none());
}

#[test]
fn hotkeys_empty_renders_exactly() {
    let h = HotkeyMap::new();
    assert_eq!(hotkeys_to_json(&h), "{}");
}

#[test]
fn hotkeys_one_entry_renders_exactly() {
    let mut h = HotkeyMap::new();
    assert!(h.push_binding("play".to_string(), "Ctrl+P".to_string()));
    assert_eq!(hotkeys_to_json(&h), "{\n  \"play\": \"Ctrl+P\"\n}");
}

#[test]
fn hotkeys_round_trip_two_entries() {
    let mut h = HotkeyMap::new();
    assert!(h.push_binding("play".to_string(), "Ctrl+P".to_string()));
    assert!(h.push_binding("stop".to_string(), "Ctrl+S".to_string()));
    let text = hotkeys_to_json(&h);
    let back = parse_hotkeys(&text).expect("own output must parse");
    assert_eq!(back.len(), 2);
    assert_eq!(back.get("play").unwrap().as_str(), "Ctrl+P");
    assert_eq!(back.get("stop").unwrap().as_str(), "Ctrl+S");
}

#[test]
fn hotkeys_round_trip_empty() {
    let h = HotkeyMap::new();
    let text = hotkeys_to_json(&h);
    let back = parse_hotkeys(&text).expect("own output must parse");
    assert_eq!(back.len(), 0);
}

#[test]
fn hotkeys_escapes_round_trip() {
    let mut h = HotkeyMap::new();
    assert!(h.push_binding("we\"ird".to_string(), "a\\b\nc\td".to_string()));
    assert!(h.push_binding("control\u{1}key".to_string(), "caf\u{e9} \u{1f3b5}".to_string()));
    let text = hotkeys_to_json(&h);
    assert!(text.contains("we\\\"ird"));
    assert!(text.contains("a\\\\b\\nc\\td"));
    assert!(text.contains("control\\u0001key"));
    let back = parse_hotkeys(&text).expect("own output must parse");
    assert_eq!(back.get("we\"ird").unwrap().as_str(), "a\\b\nc\td");
    assert_eq!(back.get("control\u{1}key").unwrap().as_str(), "caf\u{e9} \u{1f3b5}");
}

#[test]
fn hotkeys_parse_unescapes_unicode() {
    let back = parse_hotkeys("{\"mute\": \"\\u0041lt+M\"}").expect("must parse");
    assert_eq!(back.get("mute").unwrap().as_str(), "Alt+M");
}

#[test]
fn hotkeys_parse_rejects_duplicate_keys() {
    assert!(parse_hotkeys("{\"play\": \"a\", \"play\": \"b\"}").is_none());
}

#[test]
fn hotkeys_parse_rejects_garbage() {
    assert!(parse_hotkeys("").is_none());
    assert!(parse_hotkeys("{\"play\": 3}").is_none());
    assert!(parse_hotkeys("{\"play\" \"a\"}").is_none());
    assert!(parse_hotkeys("{\"play\": \"a\",}").is_none());
}
