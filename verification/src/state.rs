//! The two configuration records and the shared state container that the
//! command surface works on.

use vstd::prelude::*;
use vstd::string::StringExecFns;

use crate::json::is_json_number;
use crate::scan::number_end;
use crate::scan::str_chars;

verus! {

/// Ghost image of a `Settings` record.
pub struct SettingsV {
    pub multi_sound_enabled: bool,
    pub repeat_sound_enabled: bool,
    pub always_on_top: bool,
    pub volume: Seq<char>,
}

/// The typed record of user-configurable application behaviour.
///
/// The volume is carried as the decimal text of a JSON number, exactly as it
/// stands in the settings file: this layer never interprets the loudness
/// numerically, it only stores the value and round-trips it through disk.
/// The host converts between its floating-point slider value and this text.
/// No bounds are placed on the volume: any JSON number is accepted.
pub struct Settings {
    pub multi_sound_enabled: bool,
    pub repeat_sound_enabled: bool,
    pub always_on_top: bool,
    pub volume: String,
}

impl View for Settings {
    type V = SettingsV;

    open spec fn view(&self) -> SettingsV {
        SettingsV {
            multi_sound_enabled: self.multi_sound_enabled,
            repeat_sound_enabled: self.repeat_sound_enabled,
            always_on_top: self.always_on_top,
            volume: self.volume@,
        }
    }
}

/// The compiled-in defaults: multiple sounds on, repeat off, not always on
/// top, full volume.
pub open spec fn default_settings() -> SettingsV {
    SettingsV {
        multi_sound_enabled: true,
        repeat_sound_enabled: false,
        always_on_top: false,
        volume: "1.0"@,
    }
}

/// The default volume text is one well-formed JSON number.
pub proof fn lemma_default_volume_wf()
    ensures
        is_json_number("1.0"@),
{
    reveal_strlit("1.0");
    let t = "1.0"@;
    assert(t.len() == 3 && t[0] == '1' && t[1] == '.' && t[2] == '0');
    assert(t.drop_first() =~= seq!['.', '0']);
    assert(crate::json::chomp_digits(seq!['.', '0']) == seq!['.', '0']);
    assert(crate::json::chomp_digits(t) == seq!['.', '0']);
    assert(seq!['.', '0'].skip(1) =~= seq!['0']);
    assert(seq!['0'].drop_first() =~= Seq::<char>::empty());
    assert(crate::json::chomp_digits(Seq::<char>::empty()) =~= Seq::<char>::empty());
    assert(crate::json::chomp_digits(seq!['0']).len() == 0);
    assert(crate::json::after_int(t) == Some(seq!['.', '0']));
    assert(crate::json::after_frac(seq!['.', '0']) matches Some(r) && r.len() == 0);
}

impl Settings {
    /// The record can be written to disk: its volume text is one JSON number.
    pub open spec fn wf(&self) -> bool {
        is_json_number(self@.volume)
    }

    /// Executable form of `wf`, for callers outside verified code.
    pub fn is_wf(&self) -> (b: bool)
        ensures
            b == self.wf(),
    {
        let cs = str_chars(self.volume.as_str());
        proof {
            assert(cs@.skip(0) =~= cs@);
        }
        match number_end(&cs, 0) {
            Some(j) => j == cs.len(),
            None => false,
        }
    }
}

impl Default for Settings {
    /// The record every process starts from.
    fn default() -> (s: Self)
        ensures
            s@ == default_settings(),
            s.wf(),
    {
        proof {
            lemma_default_volume_wf();
        }
        Settings {
            multi_sound_enabled: true,
            repeat_sound_enabled: false,
            always_on_top: false,
            volume: String::from_str("1.0"),
        }
    }
}

impl Clone for Settings {
    fn clone(&self) -> (s: Self)
        ensures
            s@ == self@,
    {
        Settings {
            multi_sound_enabled: self.multi_sound_enabled,
            repeat_sound_enabled: self.repeat_sound_enabled,
            always_on_top: self.always_on_top,
            volume: self.volume.clone(),
        }
    }
}

/// One key binding: the action identifier, and the key combination bound
/// to it.
pub type Binding = (String, String);

/// No two entries bind the same action.
pub open spec fn unique_keys(es: Seq<(Seq<char>, Seq<char>)>) -> bool {
    forall|i: int, j: int| 0 <= i < j < es.len() ==> es[i].0 != es[j].0
}

/// The table of hotkey bindings: action identifiers mapped to key
/// combinations.  Entries keep their order so that the file a table is
/// saved to is reproducible, but the order carries no meaning.
pub struct HotkeyMap {
    pub entries: Vec<Binding>,
}

/// The text of each binding of a vector of bindings.
pub open spec fn bindings_view(ev: Seq<Binding>) -> Seq<(Seq<char>, Seq<char>)> {
    Seq::new(ev.len(), |i: int| (ev[i].0@, ev[i].1@))
}

impl View for HotkeyMap {
    type V = Seq<(Seq<char>, Seq<char>)>;

    open spec fn view(&self) -> Seq<(Seq<char>, Seq<char>)> {
        bindings_view(self.entries@)
    }
}

impl HotkeyMap {
    /// Every action is bound at most once.
    pub open spec fn wf(&self) -> bool {
        unique_keys(self@)
    }

    /// The empty table.
    pub fn new() -> (h: Self)
        ensures
            h@ == Seq::<(Seq<char>, Seq<char>)>::empty(),
            h.wf(),
    {
        let h = HotkeyMap { entries: Vec::new() };
        proof {
            assert(h@ =~= Seq::<(Seq<char>, Seq<char>)>::empty());
        }
        h
    }

    pub fn len(&self) -> (n: usize)
        ensures
            n == self@.len(),
    {
        self.entries.len()
    }

    /// Bind an action, provided it is not bound yet; reports whether the
    /// binding was added.
    pub fn push_binding(&mut self, key: String, value: String) -> (added: bool)
        ensures
            added == !exists|i: int| 0 <= i < old(self)@.len() && old(self)@[i].0 == key@,
            added ==> final(self)@ == old(self)@.push((key@, value@)),
            !added ==> final(self)@ == old(self)@,
            old(self).wf() ==> final(self).wf(),
    {
        let n = self.entries.len();
        let mut i: usize = 0;
        while i < n
            invariant
                i <= n,
                n == self@.len(),
                forall|m: int| 0 <= m < i ==> self@[m].0 != key@,
            decreases n - i,
        {
            if self.entries[i].0 == key {
                proof {
                    assert(self@[i as int].0 == key@);
                }
                return false;
            }
            i = i + 1;
        }
        let ghost before = self@;
        self.entries.push((key, value));
        proof {
            assert(self@ =~= before.push((key@, value@)));
        }
        true
    }

    /// The key combination bound to an action, if any.
    pub fn get(&self, key: &str) -> (r: Option<&String>)
        ensures
            match r {
                Some(v) => exists|i: int|
                    0 <= i < self@.len() && self@[i] == (key@, v@),
                None => forall|i: int| 0 <= i < self@.len() ==> self@[i].0 != key@,
            },
    {
        let needle = String::from_str(key);
        let n = self.entries.len();
        let mut i: usize = 0;
        while i < n
            invariant
                i <= n,
                n == self@.len(),
                needle@ == key@,
                forall|m: int| 0 <= m < i ==> self@[m].0 != key@,
            decreases n - i,
        {
            if self.entries[i].0 == needle {
                proof {
                    assert(self@[i as int].0 == key@);
                }
                return Some(&self.entries[i].1);
            }
            i = i + 1;
        }
        None
    }
}

impl Default for HotkeyMap {
    /// A fresh process starts with no bindings.
    fn default() -> (h: Self)
        ensures
            h@ == Seq::<(Seq<char>, Seq<char>)>::empty(),
            h.wf(),
    {
        HotkeyMap::new()
    }
}

impl Clone for HotkeyMap {
    fn clone(&self) -> (h: Self)
        ensures
            h@ == self@,
    {
        let n = self.entries.len();
        let mut entries: Vec<Binding> = Vec::new();
        let mut i: usize = 0;
        while i < n
            invariant
                i <= n,
                n == self@.len(),
                entries@.len() == i,
                forall|m: int|
                    0 <= m < i ==> (entries@[m].0@, entries@[m].1@) == self@[m],
            decreases n - i,
        {
            let k = self.entries[i].0.clone();
            let v = self.entries[i].1.clone();
            entries.push((k, v));
            i = i + 1;
        }
        let h = HotkeyMap { entries };
        proof {
            assert(h@ =~= self@);
        }
        h
    }
}

/// The process-lifetime holder of the current settings and hotkey table.
/// A host that dispatches commands concurrently guards the two fields with
/// two independent locks; every command touches exactly one of them.
pub struct AppState {
    pub settings: Settings,
    pub hotkeys: HotkeyMap,
}

impl AppState {
    /// The state a process starts in before any file is read.
    pub fn new_default() -> (st: Self)
        ensures
            st.settings@ == default_settings(),
            st.settings.wf(),
            st.hotkeys@ == Seq::<(Seq<char>, Seq<char>)>::empty(),
            st.hotkeys.wf(),
    {
        AppState { settings: Settings::default(), hotkeys: HotkeyMap::default() }
    }

    /// A value copy of the current settings; the shared record stays put.
    pub fn get_settings(&self) -> (s: Settings)
        ensures
            s@ == self.settings@,
    {
        self.settings.clone()
    }

    /// Replace the settings record wholesale; the hotkey table is untouched.
    pub fn set_settings(&mut self, s: Settings)
        ensures
            final(self).settings@ == s@,
            final(self).hotkeys == old(self).hotkeys,
    {
        self.settings = s;
    }

    /// A value copy of the current hotkey table.
    pub fn get_hotkeys(&self) -> (h: HotkeyMap)
        ensures
            h@ == self.hotkeys@,
    {
        self.hotkeys.clone()
    }

    /// Replace the hotkey table wholesale; the settings are untouched.
    pub fn set_hotkeys(&mut self, h: HotkeyMap)
        ensures
            final(self).hotkeys@ == h@,
            final(self).settings == old(self).settings,
    {
        self.hotkeys = h;
    }
}

} // verus!
