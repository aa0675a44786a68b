use soundboard_state::commands::load_hotkeys;
use soundboard_state::commands::load_settings;
use soundboard_state::commands::save_hotkeys;
use soundboard_state::commands::save_settings;
use soundboard_state::commands::startup;
use soundboard_state::commands::toggle_always_on_top;
use soundboard_state::errors::AppError;
use soundboard_state::state::AppState;
use soundboard_state::state::HotkeyMap;
use soundboard_state::state::Settings;

fn settings(multi: bool, repeat: bool, on_top: bool, volume: &str) -> Settings {
    Settings {
        multi_sound_enabled: multi,
        repeat_sound_enabled: repeat,
        always_on_top: on_top,
        volume: volume.to_string(),
    }
}

#[test]
fn startup_without_files_yields_defaults() {
    let (st, chrome) = startup(None, None);
    let s = load_settings(&st);
    assert_eq!(s.multi_sound_enabled, true);
    assert_eq!(s.repeat_sound_enabled, false);
    assert_eq!(s.always_on_top, false);
    assert_eq!(s.volume, "1.0");
    assert_eq!(load_hotkeys(&st).len(), 0);
    assert_eq!(chrome, false);
}

#[test]
fn startup_with_corrupt_files_yields_defaults() {
    let (st, chrome) = startup(
        Some("{\"multi_sound_enabled\": tru".to_string()),
        Some("[not an object]".to_string()),
    );
    let s = load_settings(&st);
    assert_eq!(s.multi_sound_enabled, true);
    assert_eq!(s.volume, "1.0");
    assert_eq!(load_hotkeys(&st).len(), 0);
    assert_eq!(chrome, false);
}

#[test]
fn save_settings_then_fresh_startup_reads_it_back() {
    let mut st = AppState::new_default();
    let plan = save_settings(&mut st, settings(false, true, true, "0.3")).expect("must save");
    assert_eq!(plan.always_on_top, true);
    let (st2, chrome) = startup(Some(plan.file_text), None);
    let s = load_settings(&st2);
    assert_eq!(s.multi_sound_enabled, false);
    assert_eq!(s.repeat_sound_enabled, true);
    assert_eq!(s.always_on_top, true);
    assert_eq!(s.volume, "0.3");
    assert_eq!(chrome, true);
}

#[test]
fn save_hotkeys_then_fresh_startup_reads_it_back() {
    let mut st = AppState::new_default();
    let mut h = HotkeyMap::new();
    assert!(h.push_binding("play".to_string(), "Ctrl+P".to_string()));
    let text = save_hotkeys(&mut st, h);
    let (st2, _) = startup(None, Some(text));
    let back = load_hotkeys(&st2);
    assert_eq!(back.len(), 1);
    assert_eq!(back.get("play").unwrap().as_str(), "Ctrl+P");
}

#[test]
fn save_hotkeys_then_load_in_same_process() {
    let mut st = AppState::new_default();
    let mut h = HotkeyMap::new();
    assert!(h.push_binding("play".to_string(), "Ctrl+P".to_string()));
    save_hotkeys(&mut st, h);
    let back = load_hotkeys(&st);
    assert_eq!(back.len(), 1);
    assert_eq!(back.get("play").unwrap().as_str(), "Ctrl+P");
}

#[test]
fn toggle_changes_memory_and_chrome_but_persists_nothing() {
    let mut st = AppState::new_default();
    let chrome = toggle_always_on_top(&mut st, true);
    assert_eq!(chrome, true);
    let s = load_settings(&st);
    assert_eq!(s.always_on_top, true);
    // the other fields are untouched
    assert_eq!(s.multi_sound_enabled, true);
    assert_eq!(s.volume, "1.0");
}

#[test]
fn two_saves_last_writer_wins() {
    let mut st = AppState::new_default();
    let p1 = save_settings(&mut st, settings(true, false, false, "0.1")).expect("must save");
    let p2 = save_settings(&mut st, settings(false, false, true, "0.9")).expect("must save");
    let s = load_settings(&st);
    assert_eq!(s.volume, "0.9");
    assert_eq!(s.always_on_top, true);
    // the final file content is whichever write lands last; both texts
    // are complete documents, never an interleaving
    let (a, _) = startup(Some(p1.file_text), None);
    let (b, _) = startup(Some(p2.file_text), None);
    assert_eq!(load_settings(&a).volume, "0.1");
    assert_eq!(load_settings(&b).volume, "0.9");
}

#[test]
fn save_settings_with_bad_volume_swaps_memory_but_fails() {
    let mut st = AppState::new_default();
    let r = save_settings(&mut st, settings(true, false, false, "loud"));
    let e = r.err().expect("must fail");
    assert!(matches!(e, AppError::Serialization(_)));
    assert!(e.message().starts_with("serialization error: "));
    // the in-memory value was already applied: best effort, by design
    assert_eq!(load_settings(&st).volume, "loud");
}

#[test]
fn error_messages_carry_their_class() {
    assert_eq!(
        AppError::StateUnavailable("poisoned".to_string()).message(),
        "state unavailable: poisoned"
    );
    assert_eq!(AppError::Io("disk full".to_string()).message(), "io error: disk full");
    assert_eq!(
        AppError::Serialization("bad value".to_string()).message(),
        "serialization error: bad value"
    );
    assert_eq!(
        AppError::WindowChrome("unsupported".to_string()).message(),
        "window error: unsupported"
    );
}
