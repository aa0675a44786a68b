//! Executable counterparts of the textual specs in `json`: conversion
//! between `String` and `Vec<char>`, whitespace and literal scanning,
//! number scanning, and string escaping and unescaping.

use vstd::prelude::*;
use vstd::string::StrSliceExecFns;

use crate::json::chomp_digits;
use crate::json::cons_parsed;
use crate::json::escape_char;
use crate::json::escape_text;
use crate::json::hex_char;
use crate::json::hex_val;
use crate::json::is_digit;
use crate::json::is_scalar_code;
use crate::json::is_ws_char;
use crate::json::number_rest;
use crate::json::parse_string_rest;
use crate::json::skip_ws;
use crate::json::take_prefix;
use crate::json::tok;

verus! {

/// Relies on `char::from_u32`: it returns `Some` exactly for Unicode scalar
/// values (below the surrogate range, or between it and 0x10FFFF), and the
/// character it returns carries the given code.
#[verifier::external_body]
fn char_from_code(v: u32) -> (r: Option<char>)
    ensures
        r is Some <==> is_scalar_code(v),
        r matches Some(c) ==> c as u32 == v,
{
    char::from_u32(v)
}

/// Relies on `String: FromIterator<char>`: collecting characters yields the
/// string of exactly those characters, in order.
#[verifier::external_body]
pub fn chars_to_string(v: &Vec<char>) -> (r: String)
    ensures
        r@ == v@,
{
    v.iter().collect()
}

/// The characters of a string slice, as an indexable vector.
pub fn str_chars(s: &str) -> (r: Vec<char>)
    ensures
        r@ == s@,
{
    let n = s.unicode_len();
    let mut r: Vec<char> = Vec::new();
    let mut i: usize = 0;
    while i < n
        invariant
            i <= n,
            n == s@.len(),
            r@ == s@.take(i as int),
        decreases n - i,
    {
        let c = s.get_char(i);
        r.push(c);
        proof {
            assert(s@.take(i + 1 as int) =~= s@.take(i as int).push(s@[i as int]));
        }
        i = i + 1;
    }
    proof {
        assert(s@.take(n as int) =~= s@);
    }
    r
}

/// Append the characters of a string slice.
pub fn push_str_chars(out: &mut Vec<char>, s: &str)
    ensures
        final(out)@ == old(out)@ + s@,
{
    let n = s.unicode_len();
    let mut i: usize = 0;
    while i < n
        invariant
            i <= n,
            n == s@.len(),
            out@ == old(out)@ + s@.take(i as int),
        decreases n - i,
    {
        let c = s.get_char(i);
        out.push(c);
        proof {
            assert(s@.take(i + 1 as int) =~= s@.take(i as int).push(s@[i as int]));
            assert((old(out)@ + s@.take(i as int)).push(s@[i as int]) =~= old(out)@ + s@.take(
                i + 1 as int,
            ));
        }
        i = i + 1;
    }
    proof {
        assert(s@.take(n as int) =~= s@);
    }
}

fn is_ws_exec(c: char) -> (b: bool)
    ensures
        b == is_ws_char(c),
{
    c == ' ' || c == '\t' || c == '\n' || c == '\r'
}

fn is_digit_exec(c: char) -> (b: bool)
    ensures
        b == is_digit(c),
{
    '0' <= c && c <= '9'
}

/// The first index at or after `i` holding a non-whitespace character.
pub fn skip_ws_at(v: &Vec<char>, i: usize) -> (j: usize)
    requires
        i <= v@.len(),
    ensures
        i <= j <= v@.len(),
        v@.skip(j as int) == skip_ws(v@.skip(i as int)),
    decreases v@.len() - i,
{
    let len = v.len();
    let mut j = i;
    while j < len && is_ws_exec(v[j])
        invariant
            i <= j <= v@.len(),
            len == v@.len(),
            skip_ws(v@.skip(i as int)) == skip_ws(v@.skip(j as int)),
        decreases v@.len() - j,
    {
        proof {
            assert(v@.skip(j as int)[0] == v@[j as int]);
            assert(v@.skip(j as int).drop_first() =~= v@.skip(j + 1 as int));
        }
        j = j + 1;
    }
    proof {
        if j < v@.len() {
            assert(v@.skip(j as int)[0] == v@[j as int]);
        }
        assert(skip_ws(v@.skip(j as int)) == v@.skip(j as int));
    }
    j
}

/// Match the literal `lit` at index `i`, yielding the index just past it.
pub fn expect_lit(v: &Vec<char>, i: usize, lit: &str) -> (r: Option<usize>)
    requires
        i <= v@.len(),
    ensures
        match r {
            Some(j) => i <= j <= v@.len() && take_prefix(v@.skip(i as int), lit@) == Some(
                v@.skip(j as int),
            ),
            None => take_prefix(v@.skip(i as int), lit@) is None,
        },
{
    let n = lit.unicode_len();
    let len = v.len();
    if n > len - i {
        return None;
    }
    let mut k: usize = 0;
    while k < n
        invariant
            k <= n,
            i + n <= len,
            len == v@.len(),
            n == lit@.len(),
            forall|m: int| 0 <= m < k ==> v@.skip(i as int)[m] == lit@[m],
        decreases n - k,
    {
        if lit.get_char(k) != v[i + k] {
            proof {
                assert(v@.skip(i as int)[k as int] == v@[i + k as int]);
                if take_prefix(v@.skip(i as int), lit@) is Some {
                    assert(v@.skip(i as int).subrange(0, n as int)[k as int] == v@.skip(
                        i as int,
                    )[k as int]);
                }
            }
            return None;
        }
        proof {
            assert(v@.skip(i as int)[k as int] == v@[i + k as int]);
        }
        k = k + 1;
    }
    proof {
        assert(v@.skip(i as int).subrange(0, n as int) =~= lit@);
        assert(v@.skip(i as int).skip(n as int) =~= v@.skip(i + n as int));
    }
    Some(i + n)
}

/// Skip whitespace, then match the literal.
pub fn tok_at(v: &Vec<char>, i: usize, lit: &str) -> (r: Option<usize>)
    requires
        i <= v@.len(),
    ensures
        match r {
            Some(j) => i <= j <= v@.len() && tok(v@.skip(i as int), lit@) == Some(
                v@.skip(j as int),
            ),
            None => tok(v@.skip(i as int), lit@) is None,
        },
{
    let j = skip_ws_at(v, i);
    expect_lit(v, j, lit)
}

/// The index just past the leading run of digits at `i`.
fn digits_to(v: &Vec<char>, i: usize) -> (j: usize)
    requires
        i <= v@.len(),
    ensures
        i <= j <= v@.len(),
        v@.skip(j as int) == chomp_digits(v@.skip(i as int)),
{
    let len = v.len();
    let mut j = i;
    while j < len && is_digit_exec(v[j])
        invariant
            i <= j <= v@.len(),
            len == v@.len(),
            chomp_digits(v@.skip(i as int)) == chomp_digits(v@.skip(j as int)),
        decreases v@.len() - j,
    {
        proof {
            assert(v@.skip(j as int)[0] == v@[j as int]);
            assert(v@.skip(j as int).drop_first() =~= v@.skip(j + 1 as int));
        }
        j = j + 1;
    }
    proof {
        if j < v@.len() {
            assert(v@.skip(j as int)[0] == v@[j as int]);
        }
        assert(chomp_digits(v@.skip(j as int)) == v@.skip(j as int));
    }
    j
}

fn hex_char_exec(x: u32) -> (c: char)
    requires
        x < 16,
    ensures
        c == hex_char(x),
{
    if x == 0 { '0' }
    else if x == 1 { '1' }
    else if x == 2 { '2' }
    else if x == 3 { '3' }
    else if x == 4 { '4' }
    else if x == 5 { '5' }
    else if x == 6 { '6' }
    else if x == 7 { '7' }
    else if x == 8 { '8' }
    else if x == 9 { '9' }
    else if x == 10 { 'a' }
    else if x == 11 { 'b' }
    else if x == 12 { 'c' }
    else if x == 13 { 'd' }
    else if x == 14 { 'e' }
    else { 'f' }
}

fn hex_val_exec(c: char) -> (r: Option<u32>)
    ensures
        r == hex_val(c),
        r matches Some(x) ==> x < 16,
{
    if c == '0' { Some(0u32) }
    else if c == '1' { Some(1u32) }
    else if c == '2' { Some(2u32) }
    else if c == '3' { Some(3u32) }
    else if c == '4' { Some(4u32) }
    else if c == '5' { Some(5u32) }
    else if c == '6' { Some(6u32) }
    else if c == '7' { Some(7u32) }
    else if c == '8' { Some(8u32) }
    else if c == '9' { Some(9u32) }
    else if c == 'a' || c == 'A' { Some(10u32) }
    else if c == 'b' || c == 'B' { Some(11u32) }
    else if c == 'c' || c == 'C' { Some(12u32) }
    else if c == 'd' || c == 'D' { Some(13u32) }
    else if c == 'e' || c == 'E' { Some(14u32) }
    else if c == 'f' || c == 'F' { Some(15u32) }
    else { None }
}

/// Escaping distributes over appending one character at the end.
proof fn lemma_escape_snoc(a: Seq<char>, c: char)
    ensures
        escape_text(a.push(c)) == escape_text(a) + escape_char(c),
    decreases a.len(),
{
    if a.len() == 0 {
        assert(a.push(c)[0] == c);
        assert(a.push(c).drop_first() =~= Seq::<char>::empty());
        assert(escape_text(Seq::<char>::empty()) == Seq::<char>::empty());
        assert(escape_text(a.push(c)) == escape_char(c) + Seq::<char>::empty());
        assert(escape_char(c) + Seq::<char>::empty() =~= escape_char(c));
        assert(escape_text(a) == Seq::<char>::empty());
        assert(Seq::<char>::empty() + escape_char(c) =~= escape_char(c));
    } else {
        assert(a.push(c)[0] == a[0]);
        assert(a.push(c).drop_first() =~= a.drop_first().push(c));
        lemma_escape_snoc(a.drop_first(), c);
        assert(escape_char(a[0]) + (escape_text(a.drop_first()) + escape_char(c)) =~= (escape_char(
            a[0],
        ) + escape_text(a.drop_first())) + escape_char(c));
    }
}

/// Append the JSON string-literal body denoting the given characters.
pub fn escape_onto(out: &mut Vec<char>, s: &Vec<char>)
    ensures
        final(out)@ == old(out)@ + escape_text(s@),
{
    let n = s.len();
    let mut k: usize = 0;
    while k < n
        invariant
            k <= n,
            n == s@.len(),
            out@ == old(out)@ + escape_text(s@.take(k as int)),
        decreases n - k,
    {
        let c = s[k];
        if c == '"' || c == '\\' {
            out.push('\\');
            out.push(c);
        } else if c == '\n' {
            out.push('\\');
            out.push('n');
        } else if c == '\r' {
            out.push('\\');
            out.push('r');
        } else if c == '\t' {
            out.push('\\');
            out.push('t');
        } else if c == '\u{8}' {
            out.push('\\');
            out.push('b');
        } else if c == '\u{c}' {
            out.push('\\');
            out.push('f');
        } else if (c as u32) < 0x20 {
            let u = c as u32;
            out.push('\\');
            out.push('u');
            out.push('0');
            out.push('0');
            out.push(hex_char_exec(u / 16));
            out.push(hex_char_exec(u % 16));
        } else {
            out.push(c);
        }
        proof {
            lemma_escape_snoc(s@.take(k as int), c);
            assert(s@.take(k + 1 as int) =~= s@.take(k as int).push(s@[k as int]));
            assert(out@ =~= old(out)@ + (escape_text(s@.take(k as int)) + escape_char(c)));
        }
        k = k + 1;
    }
    proof {
        assert(s@.take(n as int) =~= s@);
    }
}

/// Decode the remainder of a JSON string literal starting at `i`, which
/// follows its opening quote: the content, and the index just past the
/// closing quote.
pub fn string_body(v: &Vec<char>, i: usize) -> (r: Option<(Vec<char>, usize)>)
    requires
        i <= v@.len(),
    ensures
        match r {
            Some((s, j)) => i <= j <= v@.len() && parse_string_rest(v@.skip(i as int)) == Some(
                (s@, v@.skip(j as int)),
            ),
            None => parse_string_rest(v@.skip(i as int)) is None,
        },
{
    broadcast use vstd::utf8::char_u32_cast;

    let len = v.len();
    let mut acc: Vec<char> = Vec::new();
    let mut cur = i;
    loop
        invariant
            i <= cur <= len,
            len == v@.len(),
            forall|s2: Seq<char>, r2: Seq<char>|
                parse_string_rest(v@.skip(cur as int)) == Some::<(Seq<char>, Seq<char>)>((s2, r2))
                    ==> parse_string_rest(v@.skip(i as int)) == Some::<(Seq<char>, Seq<char>)>(
                    (acc@ + s2, r2),
                ),
            parse_string_rest(v@.skip(cur as int)) is None ==> parse_string_rest(
                v@.skip(i as int),
            ) is None,
        decreases len - cur,
    {
        let ghost t = v@.skip(cur as int);
        let ghost acc0 = acc@;
        let ghost cur0 = cur;
        if cur == len {
            return None;
        }
        let c = v[cur];
        proof {
            assert(t[0] == v@[cur as int]);
        }
        if c == '"' {
            proof {
                assert(t.drop_first() =~= v@.skip(cur + 1 as int));
                assert(acc@ + Seq::<char>::empty() =~= acc@);
            }
            return Some((acc, cur + 1));
        }
        if c == '\\' {
            if cur + 1 == len {
                return None;
            }
            let e = v[cur + 1];
            proof {
                assert(t[1] == v@[cur + 1 as int]);
                assert(t.skip(2) =~= v@.skip(cur + 2 as int));
            }
            if e == '"' || e == '\\' || e == '/' {
                acc.push(e);
                cur = cur + 2;
            } else if e == 'n' {
                acc.push('\n');
                cur = cur + 2;
            } else if e == 'r' {
                acc.push('\r');
                cur = cur + 2;
            } else if e == 't' {
                acc.push('\t');
                cur = cur + 2;
            } else if e == 'b' {
                acc.push('\u{8}');
                cur = cur + 2;
            } else if e == 'f' {
                acc.push('\u{c}');
                cur = cur + 2;
            } else if e == 'u' {
                if len - cur < 6 {
                    return None;
                }
                proof {
                    assert(t[2] == v@[cur + 2 as int]);
                    assert(t[3] == v@[cur + 3 as int]);
                    assert(t[4] == v@[cur + 4 as int]);
                    assert(t[5] == v@[cur + 5 as int]);
                    assert(t.skip(6) =~= v@.skip(cur + 6 as int));
                }
                let h0 = hex_val_exec(v[cur + 2]);
                let h1 = hex_val_exec(v[cur + 3]);
                let h2 = hex_val_exec(v[cur + 4]);
                let h3 = hex_val_exec(v[cur + 5]);
                match (h0, h1, h2, h3) {
                    (Some(a), Some(b), Some(cc), Some(d)) => {
                        let code = a * 4096 + b * 256 + cc * 16 + d;
                        match char_from_code(code) {
                            Some(dc) => {
                                proof {
                                    vstd::utf8::char_u32_cast(dc, code);
                                    assert((code as char) == dc);
                                }
                                acc.push(dc);
                                cur = cur + 6;
                            },
                            None => {
                                return None;
                            },
                        }
                    },
                    _ => {
                        return None;
                    },
                }
            } else {
                return None;
            }
        } else if (c as u32) < 0x20 {
            return None;
        } else {
            acc.push(c);
            cur = cur + 1;
            proof {
                assert(t.drop_first() =~= v@.skip(cur as int));
            }
        }
        proof {
            let pushed = acc@.last();
            assert(acc@ == acc0.push(pushed));
            assert(parse_string_rest(v@.skip(cur0 as int)) == cons_parsed(
                pushed,
                parse_string_rest(v@.skip(cur as int)),
            ));
            assert forall|s2: Seq<char>, r2: Seq<char>|
                parse_string_rest(v@.skip(cur as int)) == Some::<(Seq<char>, Seq<char>)>(
                    (s2, r2),
                ) implies parse_string_rest(v@.skip(i as int)) == Some::<(Seq<char>, Seq<char>)>(
                (acc@ + s2, r2),
            ) by {
                assert(parse_string_rest(v@.skip(cur0 as int)) == Some::<(Seq<char>, Seq<char>)>(
                    (seq![pushed] + s2, r2),
                ));
                assert(acc0 + (seq![pushed] + s2) =~= acc@ + s2);
            }
        }
    }
}

/// The index just past one complete JSON number token starting at `i`.
pub fn number_end(v: &Vec<char>, i: usize) -> (r: Option<usize>)
    requires
        i <= v@.len(),
    ensures
        match r {
            Some(j) => i <= j <= v@.len() && number_rest(v@.skip(i as int)) == Some(
                v@.skip(j as int),
            ),
            None => number_rest(v@.skip(i as int)) is None,
        },
{
    let ghost t = v@.skip(i as int);
    let p0 = if i < v.len() && v[i] == '-' {
        proof {
            assert(t[0] == v@[i as int]);
            assert(t.drop_first() =~= v@.skip(i + 1 as int));
        }
        i + 1
    } else {
        proof {
            if t.len() > 0 {
                assert(t[0] == v@[i as int]);
            }
        }
        i
    };
    let ghost t1 = v@.skip(p0 as int);
    // integer part
    if p0 == v.len() {
        return None;
    }
    let c0 = v[p0];
    proof {
        assert(t1[0] == v@[p0 as int]);
    }
    if !('0' <= c0 && c0 <= '9') {
        return None;
    }
    let p1 = if c0 == '0' {
        proof {
            assert(t1.drop_first() =~= v@.skip(p0 + 1 as int));
        }
        p0 + 1
    } else {
        digits_to(v, p0)
    };
    let ghost t2 = v@.skip(p1 as int);
    // fraction part
    let p2 = if p1 < v.len() && v[p1] == '.' {
        proof {
            assert(t2[0] == v@[p1 as int]);
        }
        if p1 + 1 < v.len() && '0' <= v[p1 + 1] && v[p1 + 1] <= '9' {
            proof {
                assert(t2[1] == v@[p1 + 1 as int]);
                assert(t2.skip(1) =~= v@.skip(p1 + 1 as int));
            }
            digits_to(v, p1 + 1)
        } else {
            proof {
                if t2.len() > 1 {
                    assert(t2[1] == v@[p1 + 1 as int]);
                }
            }
            return None;
        }
    } else {
        proof {
            if t2.len() > 0 {
                assert(t2[0] == v@[p1 as int]);
            }
        }
        p1
    };
    let ghost t3 = v@.skip(p2 as int);
    // exponent part
    if p2 < v.len() && (v[p2] == 'e' || v[p2] == 'E') {
        proof {
            assert(t3[0] == v@[p2 as int]);
        }
        let q = if p2 + 1 < v.len() && (v[p2 + 1] == '+' || v[p2 + 1] == '-') {
            proof {
                assert(t3[1] == v@[p2 + 1 as int]);
                assert(t3.skip(2) =~= v@.skip(p2 + 2 as int));
            }
            p2 + 2
        } else {
            proof {
                if t3.len() > 1 {
                    assert(t3[1] == v@[p2 + 1 as int]);
                }
                assert(t3.drop_first() =~= v@.skip(p2 + 1 as int));
            }
            p2 + 1
        };
        let ghost u = v@.skip(q as int);
        if q < v.len() && '0' <= v[q] && v[q] <= '9' {
            proof {
                assert(u[0] == v@[q as int]);
            }
            Some(digits_to(v, q))
        } else {
            proof {
                if u.len() > 0 {
                    assert(u[0] == v@[q as int]);
                }
            }
            None
        }
    } else {
        proof {
            if t3.len() > 0 {
                assert(t3[0] == v@[p2 as int]);
            }
        }
        Some(p2)
    }
}

} // verus!
