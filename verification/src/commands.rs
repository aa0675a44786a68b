//! The command surface a UI shell drives, and the startup hydration.
//!
//! Each command is the decision half of one request/response pair of the
//! UI: it reads or rewrites the in-memory state and returns what the
//! host must do next — the window-chrome flag to apply, the file text to
//! write.  The host performs the I/O around these calls and maps its own
//! failures onto `AppError`.

use vstd::prelude::*;
use vstd::string::StringExecFns;

use crate::codec::hotkeys_json;
use crate::codec::hotkeys_to_json;
use crate::codec::lemma_hotkeys_round_trip;
use crate::codec::lemma_settings_round_trip;
use crate::codec::parse_hotkeys;
use crate::codec::parse_hotkeys_text;
use crate::codec::parse_settings;
use crate::codec::parse_settings_text;
use crate::codec::settings_json;
use crate::codec::settings_to_json;
use crate::errors::AppError;
use crate::state::AppState;
use crate::state::HotkeyMap;
use crate::state::Settings;
use crate::json::is_json_number;
use crate::state::SettingsV;
use crate::state::default_settings;
use crate::state::unique_keys;

verus! {

/// What `save_settings` instructs the host to do once the in-memory swap
/// is done: apply the flag to the window chrome, then write the file.
pub struct SavePlan {
    /// The always-on-top flag to hand to the window chrome.
    pub always_on_top: bool,
    /// The full new content of the settings file.
    pub file_text: String,
}

/// A value copy of the current settings, for the UI.
pub fn load_settings(state: &AppState) -> (s: Settings)
    ensures
        s@ == state.settings@,
{
    state.get_settings()
}

/// Replace the in-memory settings wholesale, and say what the host must
/// apply and persist.  The swap happens even when the record cannot be
/// rendered; only the persistence step is then refused.
pub fn save_settings(state: &mut AppState, new_settings: Settings) -> (r: Result<
    SavePlan,
    AppError,
>)
    ensures
        final(state).settings@ == new_settings@,
        final(state).hotkeys == old(state).hotkeys,
        r is Ok <==> new_settings.wf(),
        r matches Ok(p) ==> p.always_on_top == new_settings@.always_on_top && p.file_text@
            == settings_json(new_settings@),
        r matches Err(e) ==> e is Serialization,
{
    let on_top = new_settings.always_on_top;
    if !new_settings.is_wf() {
        state.set_settings(new_settings);
        return Err(
            AppError::Serialization(String::from_str("the volume is not a JSON number")),
        );
    }
    let text = settings_to_json(&new_settings);
    state.set_settings(new_settings);
    Ok(SavePlan { always_on_top: on_top, file_text: text })
}

/// A value copy of the current hotkey table, for the UI.
pub fn load_hotkeys(state: &AppState) -> (h: HotkeyMap)
    ensures
        h@ == state.hotkeys@,
{
    state.get_hotkeys()
}

/// Replace the in-memory hotkey table wholesale; the returned text is the
/// full new content of the hotkeys file, which the host must write.
pub fn save_hotkeys(state: &mut AppState, new_hotkeys: HotkeyMap) -> (text: String)
    ensures
        final(state).hotkeys@ == new_hotkeys@,
        final(state).settings == old(state).settings,
        text@ == hotkeys_json(new_hotkeys@),
{
    let text = hotkeys_to_json(&new_hotkeys);
    state.set_hotkeys(new_hotkeys);
    text
}

/// Flip only the always-on-top flag in memory and say what the host must
/// hand to the window chrome.  Nothing is persisted: the file keeps its
/// old flag until the next full settings save.
pub fn toggle_always_on_top(state: &mut AppState, enabled: bool) -> (chrome: bool)
    ensures
        final(state).settings@.always_on_top == enabled,
        final(state).settings@.multi_sound_enabled == old(state).settings@.multi_sound_enabled,
        final(state).settings@.repeat_sound_enabled == old(state).settings@.repeat_sound_enabled,
        final(state).settings@.volume == old(state).settings@.volume,
        final(state).hotkeys == old(state).hotkeys,
        chrome == enabled,
{
    state.settings.always_on_top = enabled;
    enabled
}

/// What the settings file hydrates to at process start: the parsed record
/// when the file exists and parses, the compiled-in default otherwise.  A
/// corrupt file is treated exactly like a missing one, never as a failure.
pub open spec fn hydrated_settings(file: Option<Seq<char>>) -> SettingsV {
    match file {
        None => default_settings(),
        Some(t) => match parse_settings_text(t) {
            Some(v) => v,
            None => default_settings(),
        },
    }
}

/// What the hotkeys file hydrates to at process start: the parsed table
/// when the file exists and parses, the empty table otherwise.
pub open spec fn hydrated_hotkeys(file: Option<Seq<char>>) -> Seq<(Seq<char>, Seq<char>)> {
    match file {
        None => Seq::empty(),
        Some(t) => match parse_hotkeys_text(t) {
            Some(es) => es,
            None => Seq::empty(),
        },
    }
}

/// Build the startup state from whatever the two config files held
/// (`None` for a file that does not exist or could not be read), and say
/// which always-on-top flag the host must apply to the window chrome.
/// Startup never fails: whatever the files held, the state is well
/// formed.
pub fn startup(settings_file: Option<String>, hotkeys_file: Option<String>) -> (r: (AppState, bool))
    ensures
        r.0.settings@ == hydrated_settings(
            match settings_file {
                Some(t) => Some(t@),
                None => None,
            },
        ),
        r.0.hotkeys@ == hydrated_hotkeys(
            match hotkeys_file {
                Some(t) => Some(t@),
                None => None,
            },
        ),
        r.0.settings.wf(),
        r.0.hotkeys.wf(),
        r.1 == r.0.settings@.always_on_top,
{
    let settings = match settings_file {
        None => Settings::default(),
        Some(t) => match parse_settings(t.as_str()) {
            Some(s) => s,
            None => Settings::default(),
        },
    };
    let hotkeys = match hotkeys_file {
        None => HotkeyMap::new(),
        Some(t) => match parse_hotkeys(t.as_str()) {
            Some(h) => h,
            None => HotkeyMap::new(),
        },
    };
    let on_top = settings.always_on_top;
    (AppState { settings, hotkeys }, on_top)
}

/// With no file, or a file that does not parse, hydration falls back to
/// the compiled-in defaults — a missing and a corrupt file are treated
/// alike, and neither is a failure.
pub proof fn lemma_hydration_fallback(t: Seq<char>)
    ensures
        hydrated_settings(None) == default_settings(),
        hydrated_hotkeys(None) == Seq::<(Seq<char>, Seq<char>)>::empty(),
        parse_settings_text(t) is None ==> hydrated_settings(Some(t)) == default_settings(),
        parse_hotkeys_text(t) is None ==> hydrated_hotkeys(Some(t)) == Seq::<
            (Seq<char>, Seq<char>),
        >::empty(),
{
}

/// Saving any well-formed settings record and starting a fresh process on
/// the file it wrote yields that record again.
pub proof fn lemma_saved_settings_survive_restart(v: SettingsV)
    requires
        is_json_number(v.volume),
    ensures
        hydrated_settings(Some(settings_json(v))) == v,
{
    lemma_settings_round_trip(v);
}

/// Saving any hotkey table with distinct action names and starting a
/// fresh process on the file it wrote yields that table again, the empty
/// table included.
pub proof fn lemma_saved_hotkeys_survive_restart(es: Seq<(Seq<char>, Seq<char>)>)
    requires
        unique_keys(es),
    ensures
        hydrated_hotkeys(Some(hotkeys_json(es))) == es,
{
    lemma_hotkeys_round_trip(es);
}

} // verus!
