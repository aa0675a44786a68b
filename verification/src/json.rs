//! Textual building blocks of the JSON config files: whitespace, literal
//! tokens, the JSON number grammar, and string escaping.  Everything is
//! stated over `Seq<char>`, with executable counterparts working on a
//! `Vec<char>` and an index.

use vstd::prelude::*;

verus! {

/// JSON insignificant whitespace.
pub open spec fn is_ws_char(c: char) -> bool {
    c == ' ' || c == '\t' || c == '\n' || c == '\r'
}

/// The text with its leading whitespace removed.
pub open spec fn skip_ws(t: Seq<char>) -> Seq<char>
    decreases t.len(),
{
    if t.len() > 0 && is_ws_char(t[0]) {
        skip_ws(t.drop_first())
    } else {
        t
    }
}

/// What remains after the literal `p`, if the text starts with it.
pub open spec fn take_prefix(t: Seq<char>, p: Seq<char>) -> Option<Seq<char>> {
    if p.len() <= t.len() && t.subrange(0, p.len() as int) == p {
        Some(t.skip(p.len() as int))
    } else {
        None
    }
}

/// Skip whitespace, then the literal `p`.
pub open spec fn tok(t: Seq<char>, p: Seq<char>) -> Option<Seq<char>> {
    take_prefix(skip_ws(t), p)
}

pub proof fn lemma_skip_ws_len(t: Seq<char>)
    ensures
        skip_ws(t).len() <= t.len(),
    decreases t.len(),
{
    if t.len() > 0 && is_ws_char(t[0]) {
        lemma_skip_ws_len(t.drop_first());
    }
}

/// Skipping whitespace removes a leading all-whitespace block.
pub proof fn lemma_skip_ws_concat(w: Seq<char>, t: Seq<char>)
    requires
        forall|i: int| 0 <= i < w.len() ==> is_ws_char(#[trigger] w[i]),
    ensures
        skip_ws(w + t) == skip_ws(t),
    decreases w.len(),
{
    if w.len() == 0 {
        assert(w + t =~= t);
    } else {
        assert((w + t)[0] == w[0]);
        assert((w + t).drop_first() =~= w.drop_first() + t);
        lemma_skip_ws_concat(w.drop_first(), t);
    }
}

/// The literal itself is removed from text that starts with it.
pub proof fn lemma_take_prefix_exact(p: Seq<char>, r: Seq<char>)
    ensures
        take_prefix(p + r, p) == Some(r),
{
    assert((p + r).subrange(0, p.len() as int) =~= p);
    assert((p + r).skip(p.len() as int) =~= r);
}

pub proof fn lemma_take_prefix_len(t: Seq<char>, p: Seq<char>)
    ensures
        take_prefix(t, p) matches Some(r) ==> r.len() + p.len() == t.len(),
{
}

pub open spec fn is_digit(c: char) -> bool {
    '0' <= c && c <= '9'
}

/// A character that can occur inside a JSON number token.
pub open spec fn is_number_char(c: char) -> bool {
    is_digit(c) || c == '-' || c == '+' || c == '.' || c == 'e' || c == 'E'
}

/// The text with its leading run of digits removed.
pub open spec fn chomp_digits(t: Seq<char>) -> Seq<char>
    decreases t.len(),
{
    if t.len() > 0 && is_digit(t[0]) {
        chomp_digits(t.drop_first())
    } else {
        t
    }
}

/// What remains after the integer part of a JSON number: a single `0`,
/// or a nonzero digit followed by any further digits.
pub open spec fn after_int(t: Seq<char>) -> Option<Seq<char>> {
    if t.len() == 0 || !is_digit(t[0]) {
        None
    } else if t[0] == '0' {
        Some(t.drop_first())
    } else {
        Some(chomp_digits(t))
    }
}

/// What remains after the optional fraction part: `.` then at least one digit.
pub open spec fn after_frac(t: Seq<char>) -> Option<Seq<char>> {
    if t.len() > 0 && t[0] == '.' {
        if t.len() > 1 && is_digit(t[1]) {
            Some(chomp_digits(t.skip(1)))
        } else {
            None
        }
    } else {
        Some(t)
    }
}

/// What remains after the optional exponent part: `e`/`E`, an optional
/// sign, then at least one digit.
pub open spec fn after_exp(t: Seq<char>) -> Option<Seq<char>> {
    if t.len() > 0 && (t[0] == 'e' || t[0] == 'E') {
        let u = if t.len() > 1 && (t[1] == '+' || t[1] == '-') {
            t.skip(2)
        } else {
            t.drop_first()
        };
        if u.len() > 0 && is_digit(u[0]) {
            Some(chomp_digits(u))
        } else {
            None
        }
    } else {
        Some(t)
    }
}

/// What remains after one complete JSON number token, if the text starts
/// with one.
pub open spec fn number_rest(t: Seq<char>) -> Option<Seq<char>> {
    let t1 = if t.len() > 0 && t[0] == '-' {
        t.drop_first()
    } else {
        t
    };
    match after_int(t1) {
        None => None,
        Some(t2) => match after_frac(t2) {
            None => None,
            Some(t3) => after_exp(t3),
        },
    }
}

/// The whole text is exactly one JSON number.
pub open spec fn is_json_number(t: Seq<char>) -> bool {
    match number_rest(t) {
        Some(r) => r.len() == 0,
        None => false,
    }
}

/// A digit run never reaches past a following non-digit character.
pub proof fn lemma_chomp_concat(a: Seq<char>, b: Seq<char>)
    requires
        b.len() > 0,
        !is_digit(b[0]),
    ensures
        chomp_digits(a + b) == chomp_digits(a) + b,
    decreases a.len(),
{
    if a.len() == 0 {
        assert(a + b =~= b);
        assert(chomp_digits(a) + b =~= b);
    } else if is_digit(a[0]) {
        assert((a + b)[0] == a[0]);
        assert((a + b).drop_first() =~= a.drop_first() + b);
        lemma_chomp_concat(a.drop_first(), b);
    } else {
        assert((a + b)[0] == a[0]);
        assert(chomp_digits(a + b) == a + b);
        assert(chomp_digits(a) == a);
    }
}

pub proof fn lemma_after_int_concat(a: Seq<char>, a2: Seq<char>, b: Seq<char>)
    requires
        after_int(a) == Some(a2),
        b.len() > 0,
        !is_digit(b[0]),
    ensures
        after_int(a + b) == Some(a2 + b),
{
    assert(a.len() > 0 && is_digit(a[0]));
    assert((a + b)[0] == a[0]);
    if a[0] == '0' {
        assert((a + b).drop_first() =~= a.drop_first() + b);
    } else {
        lemma_chomp_concat(a, b);
    }
}

pub proof fn lemma_after_frac_concat(a: Seq<char>, a2: Seq<char>, b: Seq<char>)
    requires
        after_frac(a) == Some(a2),
        b.len() > 0,
        !is_digit(b[0]),
        b[0] != '.',
    ensures
        after_frac(a + b) == Some(a2 + b),
{
    if a.len() > 0 && a[0] == '.' {
        assert((a + b)[0] == a[0]);
        assert(a.len() > 1 && is_digit(a[1]));
        assert((a + b)[1] == a[1]);
        assert((a + b).skip(1) =~= a.skip(1) + b);
        lemma_chomp_concat(a.skip(1), b);
    } else if a.len() == 0 {
        assert(a + b =~= b);
        assert(a2 + b =~= b);
    } else {
        assert((a + b)[0] == a[0]);
    }
}

pub proof fn lemma_after_exp_concat(a: Seq<char>, a2: Seq<char>, b: Seq<char>)
    requires
        after_exp(a) == Some(a2),
        b.len() > 0,
        !is_number_char(b[0]),
    ensures
        after_exp(a + b) == Some(a2 + b),
{
    if a.len() > 0 && (a[0] == 'e' || a[0] == 'E') {
        assert((a + b)[0] == a[0]);
        if a.len() > 1 && (a[1] == '+' || a[1] == '-') {
            assert((a + b)[1] == a[1]);
            assert((a + b).skip(2) =~= a.skip(2) + b);
            lemma_chomp_concat(a.skip(2), b);
        } else {
            if a.len() > 1 {
                assert((a + b)[1] == a[1]);
            } else {
                assert(after_exp(a) is None);
            }
            assert((a + b).drop_first() =~= a.drop_first() + b);
            lemma_chomp_concat(a.drop_first(), b);
        }
    } else if a.len() == 0 {
        assert(a + b =~= b);
        assert(a2 + b =~= b);
    } else {
        assert((a + b)[0] == a[0]);
    }
}

/// A complete JSON number followed by text that cannot extend it parses
/// back to exactly that number.
pub proof fn lemma_number_concat(n: Seq<char>, b: Seq<char>)
    requires
        is_json_number(n),
        b.len() > 0,
        !is_number_char(b[0]),
    ensures
        number_rest(n + b) == Some(b),
{
    let n1 = if n.len() > 0 && n[0] == '-' {
        n.drop_first()
    } else {
        n
    };
    assert(after_int(n1) is Some);
    let n2 = after_int(n1)->Some_0;
    assert(after_frac(n2) is Some);
    let n3 = after_frac(n2)->Some_0;
    assert(after_exp(n3) == Some(Seq::<char>::empty()));
    assert(n.len() > 0);
    assert((n + b)[0] == n[0]);
    if n[0] == '-' {
        assert((n + b).drop_first() =~= n1 + b);
    } else {
        assert(n + b =~= n1 + b);
    }
    lemma_after_int_concat(n1, n2, b);
    lemma_after_frac_concat(n2, n3, b);
    lemma_after_exp_concat(n3, Seq::<char>::empty(), b);
    assert(Seq::<char>::empty() + b =~= b);
}

/// A JSON number starts with a minus sign or a digit.
pub proof fn lemma_number_head(n: Seq<char>)
    requires
        is_json_number(n),
    ensures
        n.len() > 0,
        n[0] == '-' || is_digit(n[0]),
{
}

/// The lower-case hex digit for a value below 16.
pub open spec fn hex_char(v: u32) -> char {
    if v == 0 { '0' }
    else if v == 1 { '1' }
    else if v == 2 { '2' }
    else if v == 3 { '3' }
    else if v == 4 { '4' }
    else if v == 5 { '5' }
    else if v == 6 { '6' }
    else if v == 7 { '7' }
    else if v == 8 { '8' }
    else if v == 9 { '9' }
    else if v == 10 { 'a' }
    else if v == 11 { 'b' }
    else if v == 12 { 'c' }
    else if v == 13 { 'd' }
    else if v == 14 { 'e' }
    else { 'f' }
}

/// The value of a hex digit, upper or lower case.
pub open spec fn hex_val(c: char) -> Option<u32> {
    if c == '0' { Some(0u32) }
    else if c == '1' { Some(1u32) }
    else if c == '2' { Some(2u32) }
    else if c == '3' { Some(3u32) }
    else if c == '4' { Some(4u32) }
    else if c == '5' { Some(5u32) }
    else if c == '6' { Some(6u32) }
    else if c == '7' { Some(7u32) }
    else if c == '8' { Some(8u32) }
    else if c == '9' { Some(9u32) }
    else if c == 'a' || c == 'A' { Some(10u32) }
    else if c == 'b' || c == 'B' { Some(11u32) }
    else if c == 'c' || c == 'C' { Some(12u32) }
    else if c == 'd' || c == 'D' { Some(13u32) }
    else if c == 'e' || c == 'E' { Some(14u32) }
    else if c == 'f' || c == 'F' { Some(15u32) }
    else { None }
}

/// A code that `char` can carry: not a surrogate, not past the last plane.
pub open spec fn is_scalar_code(v: u32) -> bool {
    v < 0xD800 || (0xE000 <= v && v <= 0x10FFFF)
}

/// How one character appears inside a JSON string literal: quote and
/// backslash escaped, the short escapes for the common control characters,
/// `\u00XX` for the rest of the control range, everything else verbatim.
pub open spec fn escape_char(c: char) -> Seq<char> {
    if c == '"' { seq!['\\', '"'] }
    else if c == '\\' { seq!['\\', '\\'] }
    else if c == '\n' { seq!['\\', 'n'] }
    else if c == '\r' { seq!['\\', 'r'] }
    else if c == '\t' { seq!['\\', 't'] }
    else if c == '\u{8}' { seq!['\\', 'b'] }
    else if c == '\u{c}' { seq!['\\', 'f'] }
    else if (c as u32) < 0x20 {
        seq!['\\', 'u', '0', '0', hex_char((c as u32) / 16), hex_char((c as u32) % 16)]
    } else {
        seq![c]
    }
}

/// The body of a JSON string literal denoting the given text.
pub open spec fn escape_text(s: Seq<char>) -> Seq<char>
    decreases s.len(),
{
    if s.len() == 0 {
        Seq::empty()
    } else {
        escape_char(s[0]) + escape_text(s.drop_first())
    }
}

/// Prepend a character to the content of a successful string parse.
pub open spec fn cons_parsed(c: char, r: Option<(Seq<char>, Seq<char>)>) -> Option<
    (Seq<char>, Seq<char>),
> {
    match r {
        Some((s, rest)) => Some((seq![c] + s, rest)),
        None => None,
    }
}

/// Parse the remainder of a JSON string literal, after its opening quote:
/// the decoded content, and the text after the closing quote.  Raw control
/// characters, bad escapes and surrogate `\u` codes are refused.
pub open spec fn parse_string_rest(t: Seq<char>) -> Option<(Seq<char>, Seq<char>)>
    decreases t.len(),
{
    if t.len() == 0 {
        None
    } else if t[0] == '"' {
        Some((Seq::empty(), t.drop_first()))
    } else if t[0] == '\\' {
        if t.len() < 2 {
            None
        } else if t[1] == '"' || t[1] == '\\' || t[1] == '/' {
            cons_parsed(t[1], parse_string_rest(t.skip(2)))
        } else if t[1] == 'n' {
            cons_parsed('\n', parse_string_rest(t.skip(2)))
        } else if t[1] == 'r' {
            cons_parsed('\r', parse_string_rest(t.skip(2)))
        } else if t[1] == 't' {
            cons_parsed('\t', parse_string_rest(t.skip(2)))
        } else if t[1] == 'b' {
            cons_parsed('\u{8}', parse_string_rest(t.skip(2)))
        } else if t[1] == 'f' {
            cons_parsed('\u{c}', parse_string_rest(t.skip(2)))
        } else if t[1] == 'u' {
            if t.len() < 6 {
                None
            } else {
                match (hex_val(t[2]), hex_val(t[3]), hex_val(t[4]), hex_val(t[5])) {
                    (Some(a), Some(b), Some(c), Some(d)) => {
                        let v = (a * 4096 + b * 256 + c * 16 + d) as u32;
                        if is_scalar_code(v) {
                            cons_parsed(v as char, parse_string_rest(t.skip(6)))
                        } else {
                            None
                        }
                    },
                    _ => None,
                }
            }
        } else {
            None
        }
    } else if (t[0] as u32) < 0x20 {
        None
    } else {
        cons_parsed(t[0], parse_string_rest(t.drop_first()))
    }
}

/// A parsed string literal always consumes its closing quote.
pub proof fn lemma_parse_string_len(t: Seq<char>)
    ensures
        parse_string_rest(t) matches Some((s, r)) ==> r.len() < t.len(),
    decreases t.len(),
{
    if t.len() == 0 {
    } else if t[0] == '"' {
    } else if t[0] == '\\' {
        if t.len() >= 2 {
            lemma_parse_string_len(t.skip(2));
            if t.len() >= 6 {
                lemma_parse_string_len(t.skip(6));
            }
        }
    } else {
        lemma_parse_string_len(t.drop_first());
    }
}

/// Escaping a text and closing the quote parses back to exactly that text.
pub proof fn lemma_string_round_trip(s: Seq<char>, r: Seq<char>)
    ensures
        parse_string_rest(escape_text(s) + seq!['"'] + r) == Some((s, r)),
    decreases s.len(),
{
    broadcast use vstd::utf8::char_u32_cast;

    if s.len() == 0 {
        assert(escape_text(s) + seq!['"'] + r =~= seq!['"'] + r);
        let t = seq!['"'] + r;
        assert(t[0] == '"');
        assert(t.drop_first() =~= r);
    } else {
        let c = s[0];
        let e = escape_char(c);
        let t = escape_text(s) + seq!['"'] + r;
        let t2 = escape_text(s.drop_first()) + seq!['"'] + r;
        assert(t =~= e + t2);
        lemma_string_round_trip(s.drop_first(), r);
        assert(seq![c] + s.drop_first() =~= s);
        if c == '"' || c == '\\' {
            assert(t[0] == '\\' && t[1] == c);
            assert(t.skip(2) =~= t2);
        } else if c == '\n' || c == '\r' || c == '\t' || c == '\u{8}' || c == '\u{c}' {
            assert(t[0] == '\\');
            assert(t.skip(2) =~= t2);
        } else if (c as u32) < 0x20 {
            let v = c as u32;
            assert(t[0] == '\\' && t[1] == 'u' && t[2] == '0' && t[3] == '0' && t[4] == hex_char(
                v / 16,
            ) && t[5] == hex_char(v % 16));
            assert(hex_val(hex_char(v / 16)) == Some(v / 16));
            assert(hex_val(hex_char(v % 16)) == Some(v % 16));
            assert(0 * 4096 + 0 * 256 + (v / 16) * 16 + v % 16 == v);
            assert(is_scalar_code(v));
            vstd::utf8::char_u32_cast(c, v);
            assert((v as char) == c);
            assert(t.skip(6) =~= t2);
        } else {
            assert(t[0] == c);
            assert(t.drop_first() =~= t2);
        }
    }
}

} // verus!
