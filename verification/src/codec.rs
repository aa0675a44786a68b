//! The on-disk JSON format of the two records: the exact text a save
//! produces, the parser a load runs, and the proof that the two agree.

use vstd::prelude::*;

use crate::json::escape_text;
use crate::json::is_json_number;
use crate::json::is_number_char;
use crate::json::is_ws_char;
use crate::json::lemma_number_concat;
use crate::json::lemma_number_head;
use crate::json::lemma_parse_string_len;
use crate::json::lemma_skip_ws_concat;
use crate::json::lemma_skip_ws_len;
use crate::json::lemma_string_round_trip;
use crate::json::lemma_take_prefix_exact;
use crate::json::lemma_take_prefix_len;
use crate::json::number_rest;
use crate::json::parse_string_rest;
use crate::json::skip_ws;
use crate::json::take_prefix;
use crate::json::tok;
use crate::scan::chars_to_string;
use crate::scan::escape_onto;
use crate::scan::expect_lit;
use crate::scan::number_end;
use crate::scan::push_str_chars;
use crate::scan::skip_ws_at;
use crate::scan::str_chars;
use crate::scan::string_body;
use crate::scan::tok_at;
use crate::state::Binding;
use crate::state::HotkeyMap;
use crate::state::Settings;
use crate::state::SettingsV;
use crate::state::bindings_view;
use crate::state::unique_keys;

verus! {

/// `true` or `false`, as it stands in the file.
pub open spec fn bool_text(b: bool) -> Seq<char> {
    if b {
        "true"@
    } else {
        "false"@
    }
}

/// One rendered `"key": <value>` field on its own indented line, followed
/// by the rest of the document.
pub open spec fn field_text(key: Seq<char>, value: Seq<char>, r: Seq<char>) -> Seq<char> {
    "\n  "@ + (key + (":"@ + (" "@ + (value + r))))
}

/// One rendered field alone, without what follows it.
pub open spec fn field_prefix(key: Seq<char>, value: Seq<char>) -> Seq<char> {
    "\n  "@ + (key + (":"@ + (" "@ + value)))
}

/// A field with its continuation is the field alone, then the continuation.
pub proof fn lemma_field_split(key: Seq<char>, value: Seq<char>, r: Seq<char>)
    ensures
        field_text(key, value, r) == field_prefix(key, value) + r,
{
    assert(field_text(key, value, r) =~= field_prefix(key, value) + r);
}

/// The exact text written to the settings file: a pretty-printed JSON
/// object holding the four fields, in a fixed order, indented by two
/// spaces.
pub open spec fn settings_json(v: SettingsV) -> Seq<char> {
    "{"@ + field_text(
        "\"multi_sound_enabled\""@,
        bool_text(v.multi_sound_enabled),
        ","@ + field_text(
            "\"repeat_sound_enabled\""@,
            bool_text(v.repeat_sound_enabled),
            ","@ + field_text(
                "\"always_on_top\""@,
                bool_text(v.always_on_top),
                ","@ + field_text("\"volume\""@, v.volume, "\n"@ + "}"@),
            ),
        ),
    )
}

/// Parse `true` or `false` after optional whitespace.
pub open spec fn parse_bool_tok(t: Seq<char>) -> Option<(bool, Seq<char>)> {
    let u = skip_ws(t);
    match take_prefix(u, "true"@) {
        Some(r) => Some((true, r)),
        None => match take_prefix(u, "false"@) {
            Some(r) => Some((false, r)),
            None => None,
        },
    }
}

/// Parse one JSON number after optional whitespace: its text, and the rest.
pub open spec fn parse_number_tok(t: Seq<char>) -> Option<(Seq<char>, Seq<char>)> {
    let u = skip_ws(t);
    match number_rest(u) {
        Some(r) => {
            let n = u.take(u.len() - r.len());
            if is_json_number(n) {
                Some((n, r))
            } else {
                None
            }
        },
        None => None,
    }
}

/// Parse one `"key": <bool>` field: the key, a colon, a boolean.
pub open spec fn parse_bool_field(t: Seq<char>, key: Seq<char>) -> Option<(bool, Seq<char>)> {
    match tok(t, key) {
        None => None,
        Some(a) => match tok(a, ":"@) {
            None => None,
            Some(b) => parse_bool_tok(b),
        },
    }
}

/// Parse one `"key": <number>` field: the key, a colon, a JSON number.
pub open spec fn parse_number_field(t: Seq<char>, key: Seq<char>) -> Option<
    (Seq<char>, Seq<char>),
> {
    match tok(t, key) {
        None => None,
        Some(a) => match tok(a, ":"@) {
            None => None,
            Some(b) => parse_number_tok(b),
        },
    }
}

/// What a settings file denotes: the parser a load runs over the file text.
/// The object must hold exactly the four known fields, in their fixed
/// order; whitespace between tokens is free.
pub open spec fn parse_settings_text(t: Seq<char>) -> Option<SettingsV> {
    match tok(t, "{"@) {
        None => None,
        Some(t1) => match parse_bool_field(t1, "\"multi_sound_enabled\""@) {
            None => None,
            Some((msound, t4)) => match tok(t4, ","@) {
                None => None,
                Some(t5) => match parse_bool_field(t5, "\"repeat_sound_enabled\""@) {
                    None => None,
                    Some((rsound, t8)) => match tok(t8, ","@) {
                        None => None,
                        Some(t9) => match parse_bool_field(t9, "\"always_on_top\""@) {
                            None => None,
                            Some((ontop, t12)) => match tok(t12, ","@) {
                                None => None,
                                Some(t13) => match parse_number_field(t13, "\"volume\""@) {
                                    None => None,
                                    Some((vol, t16)) => match tok(t16, "}"@) {
                                        None => None,
                                        Some(t17) => if skip_ws(t17).len() == 0 {
                                            Some(
                                                SettingsV {
                                                    multi_sound_enabled: msound,
                                                    repeat_sound_enabled: rsound,
                                                    always_on_top: ontop,
                                                    volume: vol,
                                                },
                                            )
                                        } else {
                                            None
                                        },
                                    },
                                },
                            },
                        },
                    },
                },
            },
        },
    }
}

/// A literal token at the head of the text is consumed exactly.
proof fn lemma_tok_direct(p: Seq<char>, r: Seq<char>)
    requires
        p.len() > 0,
        !is_ws_char(p[0]),
    ensures
        tok(p + r, p) == Some(r),
{
    assert((p + r)[0] == p[0]);
    assert(skip_ws(p + r) == p + r);
    lemma_take_prefix_exact(p, r);
}

/// A literal token, preceded by an all-whitespace block, is consumed
/// exactly.
proof fn lemma_tok_ws(w: Seq<char>, p: Seq<char>, r: Seq<char>)
    requires
        forall|i: int| 0 <= i < w.len() ==> is_ws_char(#[trigger] w[i]),
        p.len() > 0,
        !is_ws_char(p[0]),
    ensures
        tok(w + (p + r), p) == Some(r),
{
    lemma_skip_ws_concat(w, p + r);
    assert((p + r)[0] == p[0]);
    assert(skip_ws(p + r) == p + r);
    lemma_take_prefix_exact(p, r);
}

/// A rendered boolean, after one space, parses back to itself.
proof fn lemma_bool_tok(b: bool, r: Seq<char>)
    ensures
        parse_bool_tok(" "@ + (bool_text(b) + r)) == Some((b, r)),
{
    reveal_strlit(" ");
    reveal_strlit("true");
    reveal_strlit("false");
    let u = bool_text(b) + r;
    lemma_skip_ws_concat(" "@, u);
    assert(u[0] == bool_text(b)[0]);
    assert(skip_ws(u) == u);
    if b {
        lemma_take_prefix_exact("true"@, r);
    } else {
        assert(take_prefix(u, "true"@) is None) by {
            if take_prefix(u, "true"@) is Some {
                assert(u.subrange(0, 4)[0] == u[0]);
            }
        }
        lemma_take_prefix_exact("false"@, r);
    }
}

/// The rendered form of one boolean field, indented, parses back to its
/// value and the following text.
proof fn lemma_bool_field(key: Seq<char>, b: bool, r: Seq<char>)
    requires
        key.len() > 0,
        !is_ws_char(key[0]),
    ensures
        parse_bool_field(field_text(key, bool_text(b), r), key) == Some((b, r)),
{
    reveal_strlit("\n  ");
    reveal_strlit(":");
    let nl = "\n  "@;
    let c = ":"@;
    let none = Seq::<char>::empty();
    assert(forall|i: int| 0 <= i < nl.len() ==> is_ws_char(#[trigger] nl[i])) by {
        assert(nl[0] == '\n' && nl[1] == ' ' && nl[2] == ' ');
    }
    let t3 = " "@ + (bool_text(b) + r);
    let t2 = c + t3;
    lemma_tok_ws(nl, key, t2);
    assert(t2 =~= none + (c + t3));
    lemma_tok_ws(none, c, t3);
    lemma_bool_tok(b, r);
}

/// The rendered form of the volume field, indented, parses back to the
/// volume text and the following text, which must not begin with a
/// character that could extend the number.
proof fn lemma_number_field(key: Seq<char>, vol: Seq<char>, r: Seq<char>)
    requires
        key.len() > 0,
        !is_ws_char(key[0]),
        is_json_number(vol),
        r.len() > 0,
        !is_number_char(r[0]),
        !is_ws_char(vol[0]),
    ensures
        parse_number_field(field_text(key, vol, r), key) == Some((vol, r)),
{
    reveal_strlit("\n  ");
    reveal_strlit(":");
    reveal_strlit(" ");
    let nl = "\n  "@;
    let c = ":"@;
    let sp = " "@;
    let none = Seq::<char>::empty();
    assert(forall|i: int| 0 <= i < nl.len() ==> is_ws_char(#[trigger] nl[i])) by {
        assert(nl[0] == '\n' && nl[1] == ' ' && nl[2] == ' ');
    }
    let t15 = sp + (vol + r);
    let t14 = c + t15;
    lemma_tok_ws(nl, key, t14);
    assert(t14 =~= none + (c + t15));
    lemma_tok_ws(none, c, t15);
    let u = vol + r;
    lemma_skip_ws_concat(sp, u);
    assert(u[0] == vol[0]);
    assert(skip_ws(u) == u);
    lemma_number_concat(vol, r);
    assert(u.take(u.len() - r.len()) =~= vol);
}

/// Saving a well-formed settings record and loading the text back yields
/// the same record: the codec round-trips every settings value.
pub proof fn lemma_settings_round_trip(v: SettingsV)
    requires
        is_json_number(v.volume),
    ensures
        parse_settings_text(settings_json(v)) == Some(v),
{
    reveal_strlit("{");
    reveal_strlit("\"multi_sound_enabled\"");
    reveal_strlit("\"repeat_sound_enabled\"");
    reveal_strlit("\"always_on_top\"");
    reveal_strlit("\"volume\"");
    reveal_strlit(",");
    reveal_strlit("\n");
    reveal_strlit("}");
    let lb = "{"@;
    let cm = ","@;
    let nle = "\n"@;
    let rb = "}"@;
    let k1 = "\"multi_sound_enabled\""@;
    let k2 = "\"repeat_sound_enabled\""@;
    let k3 = "\"always_on_top\""@;
    let k4 = "\"volume\""@;
    let vol = v.volume;
    let none = Seq::<char>::empty();
    let t16 = nle + rb;
    let g4 = field_text(k4, vol, t16);
    let g3 = field_text(k3, bool_text(v.always_on_top), cm + g4);
    let g2 = field_text(k2, bool_text(v.repeat_sound_enabled), cm + g3);
    let g1 = field_text(k1, bool_text(v.multi_sound_enabled), cm + g2);
    assert(settings_json(v) == lb + g1);
    lemma_tok_direct(lb, g1);
    lemma_bool_field(k1, v.multi_sound_enabled, cm + g2);
    lemma_tok_direct(cm, g2);
    lemma_bool_field(k2, v.repeat_sound_enabled, cm + g3);
    lemma_tok_direct(cm, g3);
    lemma_bool_field(k3, v.always_on_top, cm + g4);
    lemma_tok_direct(cm, g4);
    lemma_number_head(vol);
    assert(t16[0] == '\n');
    lemma_number_field(k4, vol, t16);
    assert(t16 =~= nle + (rb + none));
    assert(forall|i: int| 0 <= i < nle.len() ==> is_ws_char(#[trigger] nle[i])) by {
        assert(nle[0] == '\n');
    }
    lemma_tok_ws(nle, rb, none);
    assert(skip_ws(none).len() == 0);
}

/// Append one `"key": value` field on its own indented line.
fn push_field(out: &mut Vec<char>, key: &str, value: &str)
    ensures
        final(out)@ == old(out)@ + field_prefix(key@, value@),
{
    push_str_chars(out, "\n  ");
    push_str_chars(out, key);
    push_str_chars(out, ":");
    push_str_chars(out, " ");
    push_str_chars(out, value);
    proof {
        assert(out@ =~= old(out)@ + field_prefix(key@, value@));
    }
}

fn bool_str(b: bool) -> (r: &'static str)
    ensures
        r@ == bool_text(b),
{
    if b {
        "true"
    } else {
        "false"
    }
}

/// Render a settings record as its file text.
pub fn settings_to_json(s: &Settings) -> (r: String)
    ensures
        r@ == settings_json(s@),
{
    let mut out: Vec<char> = Vec::new();
    push_str_chars(&mut out, "{");
    push_field(&mut out, "\"multi_sound_enabled\"", bool_str(s.multi_sound_enabled));
    push_str_chars(&mut out, ",");
    push_field(&mut out, "\"repeat_sound_enabled\"", bool_str(s.repeat_sound_enabled));
    push_str_chars(&mut out, ",");
    push_field(&mut out, "\"always_on_top\"", bool_str(s.always_on_top));
    push_str_chars(&mut out, ",");
    push_field(&mut out, "\"volume\"", s.volume.as_str());
    push_str_chars(&mut out, "\n");
    push_str_chars(&mut out, "}");
    proof {
        let lb = "{"@;
        let cm = ","@;
        let nle = "\n"@;
        let rb = "}"@;
        let k1 = "\"multi_sound_enabled\""@;
        let k2 = "\"repeat_sound_enabled\""@;
        let k3 = "\"always_on_top\""@;
        let k4 = "\"volume\""@;
        let fp1 = field_prefix(k1, bool_text(s.multi_sound_enabled));
        let fp2 = field_prefix(k2, bool_text(s.repeat_sound_enabled));
        let fp3 = field_prefix(k3, bool_text(s.always_on_top));
        let fp4 = field_prefix(k4, s.volume@);
        let t16 = nle + rb;
        lemma_field_split(k4, s.volume@, t16);
        let r4 = fp4 + t16;
        lemma_field_split(k3, bool_text(s.always_on_top), cm + r4);
        let r3 = fp3 + (cm + r4);
        lemma_field_split(k2, bool_text(s.repeat_sound_enabled), cm + r3);
        let r2 = fp2 + (cm + r3);
        lemma_field_split(k1, bool_text(s.multi_sound_enabled), cm + r2);
        let r1 = fp1 + (cm + r2);
        assert(settings_json(s@) == lb + r1);
        // rotate the right-nested document text into the order it was
        // appended in
        let x1 = lb + fp1;
        vstd::seq_lib::lemma_concat_associative(lb, fp1, cm + r2);
        let x2 = x1 + cm;
        vstd::seq_lib::lemma_concat_associative(x1, cm, r2);
        let x3 = x2 + fp2;
        vstd::seq_lib::lemma_concat_associative(x2, fp2, cm + r3);
        let x4 = x3 + cm;
        vstd::seq_lib::lemma_concat_associative(x3, cm, r3);
        let x5 = x4 + fp3;
        vstd::seq_lib::lemma_concat_associative(x4, fp3, cm + r4);
        let x6 = x5 + cm;
        vstd::seq_lib::lemma_concat_associative(x5, cm, r4);
        let x7 = x6 + fp4;
        vstd::seq_lib::lemma_concat_associative(x6, fp4, t16);
        let x8 = x7 + nle;
        vstd::seq_lib::lemma_concat_associative(x7, nle, rb);
        assert(settings_json(s@) == (x8 + rb));
        assert(Seq::<char>::empty() + lb =~= lb);
    }
    chars_to_string(&out)
}

fn parse_bool_at(v: &Vec<char>, i: usize) -> (r: Option<(bool, usize)>)
    requires
        i <= v@.len(),
    ensures
        match r {
            Some((b, j)) => i <= j <= v@.len() && parse_bool_tok(v@.skip(i as int)) == Some(
                (b, v@.skip(j as int)),
            ),
            None => parse_bool_tok(v@.skip(i as int)) is None,
        },
{
    let j = skip_ws_at(v, i);
    match expect_lit(v, j, "true") {
        Some(k) => Some((true, k)),
        None => match expect_lit(v, j, "false") {
            Some(k) => Some((false, k)),
            None => None,
        },
    }
}

fn copy_range(v: &Vec<char>, a: usize, b: usize) -> (r: Vec<char>)
    requires
        a <= b <= v@.len(),
    ensures
        r@ == v@.subrange(a as int, b as int),
{
    let mut r: Vec<char> = Vec::new();
    let mut k = a;
    while k < b
        invariant
            a <= k <= b <= v@.len(),
            r@ == v@.subrange(a as int, k as int),
        decreases b - k,
    {
        r.push(v[k]);
        proof {
            assert(v@.subrange(a as int, k + 1 as int) =~= v@.subrange(a as int, k as int).push(
                v@[k as int],
            ));
        }
        k = k + 1;
    }
    r
}

fn parse_number_at(v: &Vec<char>, i: usize) -> (r: Option<(Vec<char>, usize)>)
    requires
        i <= v@.len(),
    ensures
        match r {
            Some((w, j)) => i <= j <= v@.len() && parse_number_tok(v@.skip(i as int)) == Some(
                (w@, v@.skip(j as int)),
            ),
            None => parse_number_tok(v@.skip(i as int)) is None,
        },
{
    let j0 = skip_ws_at(v, i);
    match number_end(v, j0) {
        Some(j) => {
            let w = copy_range(v, j0, j);
            proof {
                let u = v@.skip(j0 as int);
                let rest = v@.skip(j as int);
                assert(u.take(u.len() - rest.len()) =~= v@.subrange(j0 as int, j as int));
            }
            match number_end(&w, 0) {
                Some(e) => {
                    proof {
                        assert(w@.skip(0) =~= w@);
                    }
                    if e == w.len() {
                        Some((w, j))
                    } else {
                        None
                    }
                },
                None => {
                    proof {
                        assert(w@.skip(0) =~= w@);
                    }
                    None
                },
            }
        },
        None => None,
    }
}

/// The continuation after one rendered hotkey entry: a comma and the next
/// entry, or the closing line of the object.
pub open spec fn entries_cont(es: Seq<(Seq<char>, Seq<char>)>, j: int) -> Seq<char>
    decreases es.len() - j, 1int,
{
    if 0 <= j < es.len() {
        ","@ + entries_text(es, j)
    } else {
        "\n"@ + "}"@
    }
}

/// The rendered text of the entries from index `i` on, starting with the
/// line break and indent that precede an entry.
pub open spec fn entries_text(es: Seq<(Seq<char>, Seq<char>)>, i: int) -> Seq<char>
    decreases es.len() - i, 0int,
{
    if 0 <= i < es.len() {
        "\n  "@ + ("\""@ + (escape_text(es[i].0) + (seq!['"'] + (":"@ + (" "@ + ("\""@ + (
        escape_text(es[i].1) + (seq!['"'] + entries_cont(es, i + 1)))))))))
    } else {
        Seq::empty()
    }
}

/// The exact text written to the hotkeys file: a pretty-printed JSON
/// object with one `"action": "keys"` member per binding, in table order.
pub open spec fn hotkeys_json(es: Seq<(Seq<char>, Seq<char>)>) -> Seq<char> {
    if es.len() == 0 {
        "{"@ + "}"@
    } else {
        "{"@ + entries_text(es, 0)
    }
}

/// Parse a quoted string after optional whitespace.
pub open spec fn parse_qstring(t: Seq<char>) -> Option<(Seq<char>, Seq<char>)> {
    match tok(t, "\""@) {
        None => None,
        Some(t1) => parse_string_rest(t1),
    }
}

/// A parsed quoted string consumes at least its closing quote.
pub proof fn lemma_qstring_len(t: Seq<char>)
    ensures
        parse_qstring(t) matches Some((k, r)) ==> r.len() < t.len(),
{
    lemma_skip_ws_len(t);
    lemma_take_prefix_len(skip_ws(t), "\""@);
    match tok(t, "\""@) {
        Some(t1) => {
            lemma_parse_string_len(t1);
        },
        None => {},
    }
}

/// Parse one `"action": "keys"` member and whatever follows it: after the
/// member, a comma continues the list and a closing brace ends it.
pub open spec fn parse_entries(t: Seq<char>) -> Option<(Seq<(Seq<char>, Seq<char>)>, Seq<char>)>
    decreases t.len(),
    via parse_entries_decreases
{
    match parse_qstring(t) {
        None => None,
        Some((k, r1)) => match tok(r1, ":"@) {
            None => None,
            Some(r2) => match parse_qstring(r2) {
                None => None,
                Some((val, r3)) => {
                    let r4 = skip_ws(r3);
                    if r4.len() > 0 && r4[0] == ',' {
                        match parse_entries(r4.drop_first()) {
                            None => None,
                            Some((es, r5)) => Some((seq![(k, val)] + es, r5)),
                        }
                    } else if r4.len() > 0 && r4[0] == '}' {
                        Some((seq![(k, val)], r4.drop_first()))
                    } else {
                        None
                    }
                },
            },
        },
    }
}

#[via_fn]
proof fn parse_entries_decreases(t: Seq<char>) {
    lemma_qstring_len(t);
    match parse_qstring(t) {
        Some((k, r1)) => {
            lemma_skip_ws_len(r1);
            lemma_take_prefix_len(skip_ws(r1), ":"@);
            match tok(r1, ":"@) {
                Some(r2) => {
                    lemma_qstring_len(r2);
                    match parse_qstring(r2) {
                        Some((val, r3)) => {
                            lemma_skip_ws_len(r3);
                        },
                        None => {},
                    }
                },
                None => {},
            }
        },
        None => {},
    }
}

/// What a hotkeys file denotes: an object of string-to-string members
/// whose action names are pairwise distinct.
pub open spec fn parse_hotkeys_text(t: Seq<char>) -> Option<Seq<(Seq<char>, Seq<char>)>> {
    match tok(t, "{"@) {
        None => None,
        Some(t1) => {
            let u = skip_ws(t1);
            match take_prefix(u, "}"@) {
                Some(r) => if skip_ws(r).len() == 0 {
                    Some(Seq::empty())
                } else {
                    None
                },
                None => match parse_entries(t1) {
                    None => None,
                    Some((es, r)) => if skip_ws(r).len() == 0 && unique_keys(es) {
                        Some(es)
                    } else {
                        None
                    },
                },
            }
        },
    }
}

/// Append the rendered entries from index `i` on, and the closing line.
#[verifier::rlimit(100)]
fn push_entries(out: &mut Vec<char>, entries: &Vec<Binding>, i: usize)
    requires
        i < entries@.len(),
    ensures
        final(out)@ == old(out)@ + entries_text(bindings_view(entries@), i as int),
    decreases entries@.len() - i,
{
    push_str_chars(out, "\n  ");
    push_str_chars(out, "\"");
    let kc = str_chars(entries[i].0.as_str());
    escape_onto(out, &kc);
    push_str_chars(out, "\"");
    push_str_chars(out, ":");
    push_str_chars(out, " ");
    push_str_chars(out, "\"");
    let vc = str_chars(entries[i].1.as_str());
    escape_onto(out, &vc);
    push_str_chars(out, "\"");
    let n = entries.len();
    if i + 1 < n {
        push_str_chars(out, ",");
        push_entries(out, entries, i + 1);
    } else {
        push_str_chars(out, "\n");
        push_str_chars(out, "}");
    }
    proof {
        reveal_strlit("\"");
        assert("\""@ =~= seq!['"']);
        assert(out@ =~= old(out)@ + entries_text(bindings_view(entries@), i as int));
    }
}

/// Render a hotkey table as its file text.
pub fn hotkeys_to_json(h: &HotkeyMap) -> (r: String)
    ensures
        r@ == hotkeys_json(h@),
{
    let mut out: Vec<char> = Vec::new();
    push_str_chars(&mut out, "{");
    if h.entries.len() == 0 {
        push_str_chars(&mut out, "}");
    } else {
        push_entries(&mut out, &h.entries, 0);
    }
    proof {
        assert(out@ =~= hotkeys_json(h@));
    }
    chars_to_string(&out)
}

fn parse_qstring_at(v: &Vec<char>, i: usize) -> (r: Option<(Vec<char>, usize)>)
    requires
        i <= v@.len(),
    ensures
        match r {
            Some((w, j)) => i <= j <= v@.len() && parse_qstring(v@.skip(i as int)) == Some(
                (w@, v@.skip(j as int)),
            ),
            None => parse_qstring(v@.skip(i as int)) is None,
        },
{
    match tok_at(v, i, "\"") {
        Some(j1) => string_body(v, j1),
        None => None,
    }
}

/// Whether no two bindings share an action name.
fn all_keys_unique(entries: &Vec<Binding>) -> (b: bool)
    ensures
        b == unique_keys(bindings_view(entries@)),
{
    let n = entries.len();
    let mut i: usize = 0;
    while i < n
        invariant
            i <= n,
            n == entries@.len(),
            forall|a: int, bb: int|
                0 <= a < bb < n && a < i ==> bindings_view(entries@)[a].0 != bindings_view(
                    entries@,
                )[bb].0,
        decreases n - i,
    {
        let mut j = i + 1;
        while j < n
            invariant
                i < j <= n,
                n == entries@.len(),
                forall|bb: int|
                    i < bb < j ==> bindings_view(entries@)[i as int].0 != bindings_view(
                        entries@,
                    )[bb].0,
            decreases n - j,
        {
            if entries[i].0 == entries[j].0 {
                proof {
                    assert(bindings_view(entries@)[i as int].0 == bindings_view(
                        entries@,
                    )[j as int].0);
                }
                return false;
            }
            j = j + 1;
        }
        i = i + 1;
    }
    true
}

/// Parse a hotkeys file; `None` for anything but a well-formed object of
/// distinct string members.
pub fn parse_hotkeys(text: &str) -> (r: Option<HotkeyMap>)
    ensures
        match r {
            Some(h) => parse_hotkeys_text(text@) == Some(h@) && h.wf(),
            None => parse_hotkeys_text(text@) is None,
        },
{
    let v = str_chars(text);
    proof {
        assert(v@.skip(0) =~= text@);
    }
    let i1 = match tok_at(&v, 0, "{") {
        Some(j) => j,
        None => {
            return None;
        },
    };
    let ub = skip_ws_at(&v, i1);
    match expect_lit(&v, ub, "}") {
        Some(j) => {
            let end = skip_ws_at(&v, j);
            if end == v.len() {
                proof {
                    assert(v@.skip(end as int).len() == 0);
                }
                return Some(HotkeyMap::new());
            } else {
                proof {
                    assert(v@.skip(end as int).len() > 0);
                }
                return None;
            }
        },
        None => {},
    }
    let len = v.len();
    let mut entries: Vec<Binding> = Vec::new();
    let mut pos = i1;
    loop
        invariant
            i1 <= pos <= len,
            len == v@.len(),
            i1 <= v@.len(),
            take_prefix(skip_ws(v@.skip(i1 as int)), "}"@) is None,
            tok(v@.skip(0), "{"@) == Some(v@.skip(i1 as int)),
            v@.skip(0) == text@,
            forall|es2: Seq<(Seq<char>, Seq<char>)>, r2: Seq<char>|
                parse_entries(v@.skip(pos as int)) == Some::<
                    (Seq<(Seq<char>, Seq<char>)>, Seq<char>),
                >((es2, r2)) ==> parse_entries(v@.skip(i1 as int)) == Some::<
                    (Seq<(Seq<char>, Seq<char>)>, Seq<char>),
                >((bindings_view(entries@) + es2, r2)),
            parse_entries(v@.skip(pos as int)) is None ==> parse_entries(
                v@.skip(i1 as int),
            ) is None,
        decreases len - pos,
    {
        let ghost ev0 = entries@;
        let ghost pos0 = pos;
        let (kc, p1) = match parse_qstring_at(&v, pos) {
            Some(x) => x,
            None => {
                return None;
            },
        };
        let p2 = match tok_at(&v, p1, ":") {
            Some(j) => j,
            None => {
                return None;
            },
        };
        let (vc, p3) = match parse_qstring_at(&v, p2) {
            Some(x) => x,
            None => {
                return None;
            },
        };
        let p4 = skip_ws_at(&v, p3);
        let key = chars_to_string(&kc);
        let value = chars_to_string(&vc);
        if p4 < len && v[p4] == ',' {
            entries.push((key, value));
            pos = p4 + 1;
            proof {
                let r4 = v@.skip(p4 as int);
                assert(r4[0] == v@[p4 as int]);
                assert(r4.drop_first() =~= v@.skip(pos as int));
                assert(bindings_view(entries@) =~= bindings_view(ev0).push((kc@, vc@)));
                assert forall|es2: Seq<(Seq<char>, Seq<char>)>, r2: Seq<char>|
                    parse_entries(v@.skip(pos as int)) == Some::<
                        (Seq<(Seq<char>, Seq<char>)>, Seq<char>),
                    >((es2, r2)) implies parse_entries(v@.skip(i1 as int)) == Some::<
                    (Seq<(Seq<char>, Seq<char>)>, Seq<char>),
                >((bindings_view(entries@) + es2, r2)) by {
                    assert(parse_entries(v@.skip(pos0 as int)) == Some::<
                        (Seq<(Seq<char>, Seq<char>)>, Seq<char>),
                    >((seq![(kc@, vc@)] + es2, r2)));
                    assert(bindings_view(ev0) + (seq![(kc@, vc@)] + es2) =~= bindings_view(
                        entries@,
                    ) + es2);
                }
            }
        } else if p4 < len && v[p4] == '}' {
            entries.push((key, value));
            proof {
                let r4 = v@.skip(p4 as int);
                assert(r4[0] == v@[p4 as int]);
                assert(r4.drop_first() =~= v@.skip(p4 + 1 as int));
                assert(parse_entries(v@.skip(pos0 as int)) == Some::<
                    (Seq<(Seq<char>, Seq<char>)>, Seq<char>),
                >((seq![(kc@, vc@)], v@.skip(p4 + 1 as int))));
                assert(bindings_view(ev0) + seq![(kc@, vc@)] =~= bindings_view(entries@));
            }
            proof {
                assert(parse_entries(v@.skip(i1 as int)) == Some::<
                    (Seq<(Seq<char>, Seq<char>)>, Seq<char>),
                >((bindings_view(entries@), v@.skip(p4 + 1 as int))));
            }
            let end = skip_ws_at(&v, p4 + 1);
            if end != len {
                proof {
                    assert(v@.skip(end as int).len() > 0);
                }
                return None;
            }
            proof {
                assert(v@.skip(end as int).len() == 0);
            }
            if all_keys_unique(&entries) {
                let h = HotkeyMap { entries };
                return Some(h);
            } else {
                return None;
            }
        } else {
            proof {
                let r4 = v@.skip(p4 as int);
                if r4.len() > 0 {
                    assert(r4[0] == v@[p4 as int]);
                }
            }
            return None;
        }
    }
}

/// The rendered entries from index `i` on parse back to exactly the
/// entries from `i` on, consuming the whole text.
proof fn lemma_entries_round_trip(es: Seq<(Seq<char>, Seq<char>)>, i: int)
    requires
        0 <= i < es.len(),
    ensures
        parse_entries(entries_text(es, i)) == Some(
            (es.skip(i), Seq::<char>::empty()),
        ),
    decreases es.len() - i,
{
    reveal_strlit("\n  ");
    reveal_strlit("\"");
    reveal_strlit(":");
    reveal_strlit(" ");
    reveal_strlit(",");
    reveal_strlit("\n");
    reveal_strlit("}");
    let k = es[i].0;
    let val = es[i].1;
    let nl = "\n  "@;
    let q = "\""@;
    let c = ":"@;
    let sp = " "@;
    let cont = entries_cont(es, i + 1);
    let x6 = escape_text(val) + (seq!['"'] + cont);
    let x5 = q + x6;
    let x4 = sp + x5;
    let x3 = c + x4;
    let x2 = escape_text(k) + (seq!['"'] + x3);
    let x1 = q + x2;
    let t = nl + x1;
    assert(entries_text(es, i) == t);
    assert(forall|m: int| 0 <= m < nl.len() ==> is_ws_char(#[trigger] nl[m])) by {
        assert(nl[0] == '\n' && nl[1] == ' ' && nl[2] == ' ');
    }
    lemma_skip_ws_concat(nl, x1);
    assert(x1[0] == '"');
    assert(skip_ws(x1) == x1);
    lemma_take_prefix_exact(q, x2);
    assert(tok(t, q) == Some(x2));
    assert(x2 =~= escape_text(k) + seq!['"'] + x3);
    lemma_string_round_trip(k, x3);
    assert(parse_qstring(t) == Some((k, x3)));
    assert(x3[0] == ':');
    assert(skip_ws(x3) == x3);
    lemma_take_prefix_exact(c, x4);
    assert(tok(x3, c) == Some(x4));
    assert(forall|m: int| 0 <= m < sp.len() ==> is_ws_char(#[trigger] sp[m])) by {
        assert(sp[0] == ' ');
    }
    lemma_skip_ws_concat(sp, x5);
    assert(x5[0] == '"');
    assert(skip_ws(x5) == x5);
    lemma_take_prefix_exact(q, x6);
    assert(x6 =~= escape_text(val) + seq!['"'] + cont);
    lemma_string_round_trip(val, cont);
    assert(parse_qstring(x4) == Some((val, cont)));
    if i + 1 < es.len() {
        let e1 = entries_text(es, i + 1);
        assert(cont == ","@ + e1);
        assert(cont[0] == ',');
        assert(skip_ws(cont) == cont);
        assert(cont.drop_first() =~= e1);
        lemma_entries_round_trip(es, i + 1);
        assert(seq![(k, val)] + es.skip(i + 1) =~= es.skip(i));
    } else {
        assert(cont == "\n"@ + "}"@);
        assert(cont[0] == '\n');
        assert(cont.drop_first() =~= "}"@);
        assert(("}"@)[0] == '}');
        assert(skip_ws("}"@) == "}"@);
        assert(skip_ws(cont) == "}"@);
        assert(("}"@).drop_first() =~= Seq::<char>::empty());
        assert(es.skip(i) =~= seq![(k, val)]);
    }
}

/// Saving a hotkey table with distinct action names and loading the text
/// back yields the same table: the codec round-trips every such table,
/// the empty one included.
pub proof fn lemma_hotkeys_round_trip(es: Seq<(Seq<char>, Seq<char>)>)
    requires
        unique_keys(es),
    ensures
        parse_hotkeys_text(hotkeys_json(es)) == Some(es),
{
    reveal_strlit("{");
    reveal_strlit("}");
    reveal_strlit("\"");
    reveal_strlit("\n  ");
    let lb = "{"@;
    let rb = "}"@;
    let nl = "\n  "@;
    let none = Seq::<char>::empty();
    if es.len() == 0 {
        lemma_tok_direct(lb, rb);
        assert(rb[0] == '}');
        assert(skip_ws(rb) == rb);
        lemma_take_prefix_exact(rb, none);
        assert(rb + none =~= rb);
        assert(skip_ws(none).len() == 0);
        assert(es =~= Seq::<(Seq<char>, Seq<char>)>::empty());
    } else {
        let e0 = entries_text(es, 0);
        lemma_tok_direct(lb, e0);
        let x1 = "\""@ + (escape_text(es[0].0) + (seq!['"'] + (":"@ + (" "@ + ("\""@ + (
        escape_text(es[0].1) + (seq!['"'] + entries_cont(es, 1))))))));
        assert(e0 == nl + x1);
        assert(forall|m: int| 0 <= m < nl.len() ==> is_ws_char(#[trigger] nl[m])) by {
            assert(nl[0] == '\n' && nl[1] == ' ' && nl[2] == ' ');
        }
        lemma_skip_ws_concat(nl, x1);
        assert(x1[0] == '"');
        assert(skip_ws(x1) == x1);
        assert(take_prefix(x1, rb) is None) by {
            if take_prefix(x1, rb) is Some {
                assert(x1.subrange(0, 1)[0] == x1[0]);
            }
        }
        lemma_entries_round_trip(es, 0);
        assert(es.skip(0) =~= es);
        assert(skip_ws(none).len() == 0);
    }
}

/// Parse a settings file; `None` for anything but a well-formed settings
/// object.
pub fn parse_settings(text: &str) -> (r: Option<Settings>)
    ensures
        match r {
            Some(s) => parse_settings_text(text@) == Some(s@) && s.wf(),
            None => parse_settings_text(text@) is None,
        },
{
    let v = str_chars(text);
    proof {
        assert(v@.skip(0) =~= text@);
    }
    let i1 = match tok_at(&v, 0, "{") {
        Some(j) => j,
        None => {
            return None;
        },
    };
    let i2 = match tok_at(&v, i1, "\"multi_sound_enabled\"") {
        Some(j) => j,
        None => {
            return None;
        },
    };
    let i3 = match tok_at(&v, i2, ":") {
        Some(j) => j,
        None => {
            return None;
        },
    };
    let (msound, i4) = match parse_bool_at(&v, i3) {
        Some(p) => p,
        None => {
            return None;
        },
    };
    let i5 = match tok_at(&v, i4, ",") {
        Some(j) => j,
        None => {
            return None;
        },
    };
    let i6 = match tok_at(&v, i5, "\"repeat_sound_enabled\"") {
        Some(j) => j,
        None => {
            return None;
        },
    };
    let i7 = match tok_at(&v, i6, ":") {
        Some(j) => j,
        None => {
            return None;
        },
    };
    let (rsound, i8) = match parse_bool_at(&v, i7) {
        Some(p) => p,
        None => {
            return None;
        },
    };
    let i9 = match tok_at(&v, i8, ",") {
        Some(j) => j,
        None => {
            return None;
        },
    };
    let i10 = match tok_at(&v, i9, "\"always_on_top\"") {
        Some(j) => j,
        None => {
            return None;
        },
    };
    let i11 = match tok_at(&v, i10, ":") {
        Some(j) => j,
        None => {
            return None;
        },
    };
    let (ontop, i12) = match parse_bool_at(&v, i11) {
        Some(p) => p,
        None => {
            return None;
        },
    };
    let i13 = match tok_at(&v, i12, ",") {
        Some(j) => j,
        None => {
            return None;
        },
    };
    let i14 = match tok_at(&v, i13, "\"volume\"") {
        Some(j) => j,
        None => {
            return None;
        },
    };
    let i15 = match tok_at(&v, i14, ":") {
        Some(j) => j,
        None => {
            return None;
        },
    };
    let (vol, i16) = match parse_number_at(&v, i15) {
        Some(p) => p,
        None => {
            return None;
        },
    };
    let i17 = match tok_at(&v, i16, "}") {
        Some(j) => j,
        None => {
            return None;
        },
    };
    let end = skip_ws_at(&v, i17);
    if end != v.len() {
        proof {
            assert(v@.skip(end as int).len() == v@.len() - end);
        }
        return None;
    }
    proof {
        assert(v@.skip(end as int).len() == 0);
    }
    let volume = chars_to_string(&vol);
    Some(
        Settings {
            multi_sound_enabled: msound,
            repeat_sound_enabled: rsound,
            always_on_top: ontop,
            volume,
        },
    )
}

} // verus!
