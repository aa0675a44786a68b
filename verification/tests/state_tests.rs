use soundboard_state::state::AppState;
use soundboard_state::state::HotkeyMap;
use soundboard_state::state::Settings;

#[test]
fn settings_default_values() {
    let s = Settings::default();
    assert_eq!(s.multi_sound_enabled, true);
    assert_eq!(s.repeat_sound_enabled, false);
    assert_eq!(s.always_on_top, false);
    assert_eq!(s.volume, "1.0");
    assert_eq!(s.volume.parse::<f32>().unwrap(), 1.0f32);
    assert!(s.is_wf());
}

#[test]
fn settings_wf_check() {
    let mut s = Settings::default();
    s.volume = "-12.5e3".to_string();
    assert!(s.is_wf());
    s.volume = "NaN".to_string();
    assert!(!s.is_wf());
    s.volume = "01".to_string();
    assert!(!s.is_wf());
    s.volume = "".to_string();
    assert!(!s.is_wf());
}

#[test]
fn settings_clone_copies_all_fields() {
    let mut s = Settings::default();
    s.always_on_top = true;
    s.volume = "0.5".to_string();
    let c = s.clone();
    assert_eq!(c.multi_sound_enabled, s.multi_sound_enabled);
    assert_eq!(c.repeat_sound_enabled, s.repeat_sound_enabled);
    assert_eq!(c.always_on_top, true);
    assert_eq!(c.volume, "0.5");
}

#[test]
fn hotkey_map_starts_empty() {
    let h = HotkeyMap::default();
    assert_eq!(h.len(), 0);
    assert!(h.get("play").is_none());
}

#[test]
fn hotkey_map_push_and_get() {
    let mut h = HotkeyMap::new();
    assert!(h.push_binding("play".to_string(), "Ctrl+P".to_string()));
    assert!(h.push_binding("stop".to_string(), "Ctrl+S".to_string()));
    assert_eq!(h.len(), 2);
    assert_eq!(h.get("play").unwrap().as_str(), "Ctrl+P");
    assert_eq!(h.get("stop").unwrap().as_str(), "Ctrl+S");
    assert!(h.get("pause").is_none());
}

#[test]
fn hotkey_map_refuses_rebinding() {
    let mut h = HotkeyMap::new();
    assert!(h.push_binding("play".to_string(), "Ctrl+P".to_string()));
    assert!(!h.push_binding("play".to_string(), "Alt+P".to_string()));
    assert_eq!(h.len(), 1);
    assert_eq!(h.get("play").unwrap().as_str(), "Ctrl+P");
}

#[test]
fn hotkey_map_clone_copies_entries() {
    let mut h = HotkeyMap::new();
    assert!(h.push_binding("play".to_string(), "Ctrl+P".to_string()));
    let c = h.clone();
    assert_eq!(c.len(), 1);
    assert_eq!(c.get("play").unwrap().as_str(), "Ctrl+P");
}

#[test]
fn app_state_get_returns_a_copy() {
    let mut st = AppState::new_default();
    let copy = st.get_settings();
    st.settings.always_on_top = true;
    assert_eq!(copy.always_on_top, false);
    assert_eq!(st.get_settings().always_on_top, true);
}

#[test]
fn app_state_sets_are_independent() {
    let mut st = AppState::new_default();
    let mut s = Settings::default();
    s.volume = "0.75".to_string();
    st.set_settings(s);
    let mut h = HotkeyMap::new();
    assert!(h.push_binding("play".to_string(), "P".to_string()));
    st.set_hotkeys(h);
    assert_eq!(st.get_settings().volume, "0.75");
    assert_eq!(st.get_hotkeys().len(), 1);
}
