//! The literal-value field of the debugger's inspector. It edits one scalar
//! as text and never evaluates BASIC; strings are shown with reversible
//! escapes so that no control character or wide glyph reaches the terminal.
use vstd::prelude::*;
use std::ops::Range;
use crate::debug_view::{sat_add, sat_sub};
use crate::line_input::{KeyInput, KeyModifierState};
use crate::text::{is_control, is_hex_digit, str_chars, string_from_chars};

verus! {

// ---------------------------------------------------------------------------
// Escaped text
// ---------------------------------------------------------------------------

/// Characters that the field shows as themselves: printable ASCII and the
/// Latin ranges U+00A0..=U+00AC and U+00AE..=U+024F.
pub open spec fn shown_as_is(c: char) -> bool {
    (' ' <= c && c <= '~') || ('\u{a0}' <= c && c <= '\u{ac}') || ('\u{ae}' <= c && c <= '\u{24f}')
}

/// The uppercase hexadecimal digit of `d` (0..=15).
pub open spec fn hex_digit_char(d: int) -> char {
    if d < 10 {
        (d + 48) as char
    } else {
        (d + 55) as char
    }
}

/// The uppercase hexadecimal digits of `v`, without leading zeros.
pub open spec fn hex_upper(v: nat) -> Seq<char>
    decreases v,
{
    if v < 16 {
        seq![hex_digit_char(v as int)]
    } else {
        hex_upper(v / 16).push(hex_digit_char((v % 16) as int))
    }
}

/// The value of a hexadecimal digit of either case.
pub open spec fn hex_digit_value(c: char) -> int {
    if '0' <= c && c <= '9' {
        c as int - 48
    } else if 'a' <= c && c <= 'f' {
        c as int - 87
    } else {
        c as int - 55
    }
}

/// The value of a run of hexadecimal digits.
pub open spec fn hex_value(s: Seq<char>) -> int
    decreases s.len(),
{
    if s.len() == 0 {
        0
    } else {
        hex_value(s.drop_last()) * 16 + hex_digit_value(s.last())
    }
}

pub open spec fn pow16(k: nat) -> int
    decreases k,
{
    if k == 0 {
        1
    } else {
        16 * pow16((k - 1) as nat)
    }
}

/// How one character is written in the field: the C-style escapes for
/// newline, carriage return, tab and NUL, a doubled backslash when
/// `escape_backslash`, `\u{HEX}` for anything not shown as itself.
pub open spec fn escaped_char(c: char, escape_backslash: bool) -> Seq<char> {
    if c == '\\' && escape_backslash {
        seq!['\\', '\\']
    } else if c == '\n' {
        seq!['\\', 'n']
    } else if c == '\r' {
        seq!['\\', 'r']
    } else if c == '\t' {
        seq!['\\', 't']
    } else if c == '\0' {
        seq!['\\', '0']
    } else if !shown_as_is(c) {
        seq!['\\', 'u', '{'] + hex_upper(c as nat) + seq!['}']
    } else {
        seq![c]
    }
}

/// The escaped form of a whole text.
pub open spec fn encoded(s: Seq<char>, escape_backslash: bool) -> Seq<char>
    decreases s.len(),
{
    if s.len() == 0 {
        Seq::empty()
    } else {
        escaped_char(s[0], escape_backslash) + encoded(s.drop_first(), escape_backslash)
    }
}

/// `r` with `p` in front of its text, errors unchanged.
pub open spec fn prefixed(p: Seq<char>, r: Result<Seq<char>, Seq<char>>) -> Result<Seq<char>, Seq<char>> {
    match r {
        Ok(x) => Ok(p + x),
        Err(e) => Err(e),
    }
}

/// Where the digits of a `\u{...}` escape at the start of `u` end, scanning
/// from index `p`: at a closing brace after one to six hexadecimal digits.
pub open spec fn unicode_close(u: Seq<char>, p: int) -> Option<int>
    decreases u.len() - p,
{
    if p < 3 || p >= u.len() {
        None
    } else if u[p] == '}' && p > 3 {
        Some(p)
    } else if is_hex_digit(u[p]) && p - 3 < 6 {
        unicode_close(u, p + 1)
    } else {
        None
    }
}

/// A Unicode scalar value: a code point that is not a surrogate.
pub open spec fn is_scalar_value(v: int) -> bool {
    (0 <= v && v <= 0xD7FF) || (0xE000 <= v && v <= 0x10FFFF)
}

/// The character that the escape at the start of `u` stands for and the
/// escape's length, or the message that rejects it.
pub open spec fn escape_at(u: Seq<char>) -> Result<(char, int), Seq<char>> {
    if u.len() < 2 {
        Err("Incomplete escape; use \\\\ for a backslash"@)
    } else if u[1] == '\\' {
        Ok(('\\', 2))
    } else if u[1] == 'n' {
        Ok(('\n', 2))
    } else if u[1] == 'r' {
        Ok(('\r', 2))
    } else if u[1] == 't' {
        Ok(('\t', 2))
    } else if u[1] == '0' {
        Ok(('\0', 2))
    } else if u[1] == 'x' {
        if u.len() >= 4 && is_hex_digit(u[2]) && is_hex_digit(u[3]) {
            Ok((hex_value(u.subrange(2, 4)) as char, 4))
        } else {
            Err("Use two hexadecimal digits after \\x"@)
        }
    } else if u[1] == 'u' {
        if u.len() < 3 || u[2] != '{' {
            Err("Use \\u{HEX} for a Unicode escape"@)
        } else {
            match unicode_close(u, 3) {
                None => Err("Invalid Unicode escape; use \\u{HEX}"@),
                Some(close) => {
                    let v = hex_value(u.subrange(3, close));
                    if is_scalar_value(v) {
                        Ok((v as char, close + 1))
                    } else {
                        Err("Invalid Unicode code point"@)
                    }
                },
            }
        }
    } else {
        Err("Invalid escape; use \\\\ for a backslash"@)
    }
}

/// The text that an escaped form stands for, or the message that rejects
/// its first bad escape.
pub open spec fn decoded(t: Seq<char>) -> Result<Seq<char>, Seq<char>>
    decreases t.len(),
{
    if t.len() == 0 {
        Ok(Seq::empty())
    } else if t[0] != '\\' {
        prefixed(seq![t[0]], decoded(t.drop_first()))
    } else {
        match escape_at(t) {
            Err(e) => Err(e),
            Ok((c, n)) => if 1 <= n && n <= t.len() {
                prefixed(seq![c], decoded(t.subrange(n, t.len() as int)))
            } else {
                Err(Seq::empty())
            },
        }
    }
}

// ---------------------------------------------------------------------------
// Facts about the escapes
// ---------------------------------------------------------------------------

proof fn lemma_hex_digit_char(d: int)
    requires
        0 <= d < 16,
    ensures
        is_hex_digit(hex_digit_char(d)),
        hex_digit_value(hex_digit_char(d)) == d,
        shown_as_is(hex_digit_char(d)),
        hex_digit_char(d) != '}',
{
}

proof fn lemma_hex_upper(v: nat)
    ensures
        hex_upper(v).len() >= 1,
        forall|i: int| 0 <= i < hex_upper(v).len() ==> is_hex_digit(#[trigger] hex_upper(v)[i]) && shown_as_is(hex_upper(v)[i]) && hex_upper(v)[i] != '}',
        hex_value(hex_upper(v)) == v,
    decreases v,
{
    if v < 16 {
        lemma_hex_digit_char(v as int);
        let h = hex_upper(v);
        assert(h.drop_last() =~= Seq::<char>::empty());
        assert(h.last() == hex_digit_char(v as int));
        assert(hex_value(h) == hex_value(h.drop_last()) * 16 + hex_digit_value(h.last()));
    } else {
        lemma_hex_upper(v / 16);
        lemma_hex_digit_char((v % 16) as int);
        let h = hex_upper(v);
        assert(h.drop_last() =~= hex_upper(v / 16));
        assert(h.last() == hex_digit_char((v % 16) as int));
        assert(hex_value(h) == hex_value(h.drop_last()) * 16 + hex_digit_value(h.last()));
        assert(v == (v / 16) * 16 + v % 16);
    }
}

proof fn lemma_hex_upper_len(v: nat, k: nat)
    requires
        k >= 1,
        v < pow16(k),
    ensures
        hex_upper(v).len() <= k,
    decreases k,
{
    if v >= 16 {
        if k == 1 {
            assert(pow16(1) == 16 * pow16(0));
        } else {
            assert(pow16(k) == 16 * pow16((k - 1) as nat));
            assert(v / 16 < pow16((k - 1) as nat)) by (nonlinear_arith)
                requires
                    v < 16 * pow16((k - 1) as nat),
            ;
            lemma_hex_upper_len(v / 16, (k - 1) as nat);
        }
    }
}

/// The digits `h` of a `\u{...}` escape followed by its brace end the escape.
proof fn lemma_unicode_close(u: Seq<char>, m: int, q: int)
    requires
        1 <= m <= 6,
        3 <= q <= 3 + m,
        3 + m < u.len(),
        u[3 + m] == '}',
        forall|j: int| 3 <= j < 3 + m ==> is_hex_digit(#[trigger] u[j]) && u[j] != '}',
    ensures
        unicode_close(u, q) == Some(3 + m),
    decreases 3 + m - q,
{
    if q < 3 + m {
        lemma_unicode_close(u, m, q + 1);
    }
}

proof fn lemma_prefixed_assoc(a: Seq<char>, b: Seq<char>, r: Result<Seq<char>, Seq<char>>)
    ensures
        prefixed(a, prefixed(b, r)) == prefixed(a + b, r),
{
    match r {
        Ok(x) => {
            assert(a + (b + x) =~= (a + b) + x);
        },
        Err(_) => {},
    }
}

/// Decoding an escaped character gives the character back, whatever follows.
proof fn lemma_decode_escaped_char(c: char, rest: Seq<char>)
    ensures
        decoded(escaped_char(c, true) + rest) == prefixed(seq![c], decoded(rest)),
{
    let u = escaped_char(c, true) + rest;
    if c == '\\' || c == '\n' || c == '\r' || c == '\t' || c == '\0' {
        assert(u.subrange(2, u.len() as int) =~= rest);
    } else if !shown_as_is(c) {
        let h = hex_upper(c as nat);
        lemma_hex_upper(c as nat);
        assert(pow16(6) == 16777216) by {
            reveal_with_fuel(pow16, 7);
        }
        lemma_hex_upper_len(c as nat, 6);
        let m = h.len() as int;
        assert(u =~= seq!['\\', 'u', '{'] + h + seq!['}'] + rest);
        assert forall|j: int| 3 <= j < 3 + m implies is_hex_digit(#[trigger] u[j]) && u[j] != '}' by {
            assert(u[j] == h[j - 3]);
        }
        assert(u[3 + m] == '}');
        lemma_unicode_close(u, m, 3);
        assert(u.subrange(3, 3 + m) =~= h);
        assert(((c as nat) as int) as char == c);
        assert(u.subrange(3 + m + 1, u.len() as int) =~= rest);
    } else {
        assert(u[0] == c);
        assert(u.drop_first() =~= rest);
    }
}

/// Strings survive the field: decoding the escaped form of any text gives
/// the text back.
pub proof fn escaped_strings_round_trip(s: Seq<char>)
    ensures
        decoded(encoded(s, true)) == Ok::<Seq<char>, Seq<char>>(s),
    decreases s.len(),
{
    if s.len() > 0 {
        escaped_strings_round_trip(s.drop_first());
        lemma_decode_escaped_char(s[0], encoded(s.drop_first(), true));
        assert(encoded(s, true) == escaped_char(s[0], true) + encoded(s.drop_first(), true));
        assert(seq![s[0]] + s.drop_first() =~= s);
    } else {
        assert(s =~= Seq::<char>::empty());
    }
}

/// The escaped form holds only characters that the field shows as
/// themselves: no control character reaches the terminal.
pub proof fn escaped_text_has_no_control_characters(s: Seq<char>, escape_backslash: bool)
    ensures
        forall|i: int| 0 <= i < encoded(s, escape_backslash).len() ==> shown_as_is(#[trigger] encoded(s, escape_backslash)[i]),
        forall|i: int| 0 <= i < encoded(s, escape_backslash).len() ==> !is_control(#[trigger] encoded(s, escape_backslash)[i]),
    decreases s.len(),
{
    if s.len() > 0 {
        escaped_text_has_no_control_characters(s.drop_first(), escape_backslash);
        lemma_hex_upper(s[0] as nat);
        let e = escaped_char(s[0], escape_backslash);
        let rest = encoded(s.drop_first(), escape_backslash);
        assert forall|i: int| 0 <= i < e.len() implies shown_as_is(#[trigger] e[i]) by {
            if !shown_as_is(s[0]) && !(s[0] == '\\' && escape_backslash) && s[0] != '\n' && s[0] != '\r' && s[0] != '\t' && s[0] != '\0' {
                let h = hex_upper(s[0] as nat);
                if 3 <= i < 3 + h.len() {
                    assert(e[i] == h[i - 3]);
                }
            }
        }
        assert forall|i: int| 0 <= i < encoded(s, escape_backslash).len() implies shown_as_is(#[trigger] encoded(s, escape_backslash)[i]) by {
            if i < e.len() {
                assert(encoded(s, escape_backslash)[i] == e[i]);
            } else {
                assert(encoded(s, escape_backslash)[i] == rest[i - e.len()]);
            }
        }
    }
}

proof fn lemma_encoded_push(s: Seq<char>, c: char, e: bool)
    ensures
        encoded(s.push(c), e) == encoded(s, e) + escaped_char(c, e),
    decreases s.len(),
{
    if s.len() == 0 {
        let t = s.push(c);
        assert(t.drop_first() =~= Seq::<char>::empty());
        assert(t[0] == c);
        assert(encoded(t.drop_first(), e) == Seq::<char>::empty());
        assert(encoded(t, e) == escaped_char(c, e) + Seq::<char>::empty());
        assert(encoded(s, e) == Seq::<char>::empty());
        assert(encoded(t, e) =~= encoded(s, e) + escaped_char(c, e));
    } else {
        lemma_encoded_push(s.drop_first(), c, e);
        assert(s.push(c).drop_first() =~= s.drop_first().push(c));
        assert(encoded(s.push(c), e) =~= encoded(s, e) + escaped_char(c, e));
    }
}

// ---------------------------------------------------------------------------
// Escaping and unescaping
// ---------------------------------------------------------------------------

/// `char::from_u32`: the character whose code is `v`, when `v` is a Unicode
/// scalar value; `None` for surrogates and values above U+10FFFF.
#[verifier::external_body]
fn char_from_u32(v: u32) -> (r: Option<char>)
    ensures
        r is Some <==> is_scalar_value(v as int),
        r matches Some(c) ==> c == (v as int) as char,
{
    char::from_u32(v)
}

fn hex_digit_exec(d: u32) -> (r: char)
    requires
        d < 16,
    ensures
        r == hex_digit_char(d as int),
{
    let b: u8 = if d < 10 { (d + 48) as u8 } else { (d + 55) as u8 };
    b as char
}

/// Appends the uppercase hexadecimal digits of `v`.
fn push_hex_upper(out: &mut Vec<char>, v: u32)
    ensures
        final(out)@ == old(out)@ + hex_upper(v as nat),
    decreases v,
{
    if v < 16 {
        out.push(hex_digit_exec(v));
        assert(hex_upper(v as nat) =~= seq![hex_digit_char(v as int)]);
    } else {
        push_hex_upper(out, v / 16);
        out.push(hex_digit_exec(v % 16));
        assert(hex_upper(v as nat) == hex_upper((v / 16) as nat).push(hex_digit_char((v % 16) as int)));
    }
}

fn push_escaped_char(out: &mut Vec<char>, c: char, escape_backslash: bool)
    ensures
        final(out)@ == old(out)@ + escaped_char(c, escape_backslash),
{
    let ghost before = out@;
    if c == '\\' && escape_backslash {
        out.push('\\');
        out.push('\\');
    } else if c == '\n' {
        out.push('\\');
        out.push('n');
    } else if c == '\r' {
        out.push('\\');
        out.push('r');
    } else if c == '\t' {
        out.push('\\');
        out.push('t');
    } else if c == '\0' {
        out.push('\\');
        out.push('0');
    } else if !((' ' <= c && c <= '~') || ('\u{a0}' <= c && c <= '\u{ac}') || ('\u{ae}' <= c && c <= '\u{24f}')) {
        out.push('\\');
        out.push('u');
        out.push('{');
        push_hex_upper(out, c as u32);
        out.push('}');
        assert(out@ =~= before + (seq!['\\', 'u', '{'] + hex_upper(c as nat) + seq!['}']));
        return;
    } else {
        out.push(c);
    }
    assert(out@ =~= before + escaped_char(c, escape_backslash));
}

/// The escaped form of `value`: C-style escapes for newline, carriage
/// return, tab and NUL, `\u{HEX}` for characters outside the Latin ranges
/// shown as they are, and a doubled backslash when `escape_backslash`.
pub fn encode_string(value: &str, escape_backslash: bool) -> (r: String)
    ensures
        r@ == encoded(value@, escape_backslash),
{
    let s = str_chars(value);
    string_from_chars(&encode_chars(&s, escape_backslash))
}

fn encode_chars(s: &[char], escape_backslash: bool) -> (r: Vec<char>)
    ensures
        r@ == encoded(s@, escape_backslash),
{
    let n = s.len();
    let mut out: Vec<char> = Vec::new();
    let mut i: usize = 0;
    while i < n
        invariant
            i <= n,
            n == s@.len(),
            out@ == encoded(s@.subrange(0, i as int), escape_backslash),
        decreases n - i,
    {
        proof {
            lemma_encoded_push(s@.subrange(0, i as int), s@[i as int], escape_backslash);
            assert(s@.subrange(0, i as int).push(s@[i as int]) =~= s@.subrange(0, i + 1));
        }
        push_escaped_char(&mut out, s[i], escape_backslash);
        i += 1;
    }
    assert(s@.subrange(0, n as int) =~= s@);
    out
}

pub(crate) fn hex_digit_value_exec(c: char) -> (r: u32)
    requires
        is_hex_digit(c),
    ensures
        r as int == hex_digit_value(c),
        r < 16,
{
    let v = c as u32;
    if '0' <= c && c <= '9' {
        v - 48
    } else if 'a' <= c && c <= 'f' {
        v - 87
    } else {
        v - 55
    }
}

pub(crate) fn is_hex_digit_exec(c: char) -> (r: bool)
    ensures
        r == is_hex_digit(c),
{
    ('0' <= c && c <= '9') || ('a' <= c && c <= 'f') || ('A' <= c && c <= 'F')
}

/// The escape that starts at index `i` of `t` (a backslash): the character it
/// stands for and its length, or the message that rejects it.
fn escape_at_exec(t: &Vec<char>, i: usize) -> (r: Result<(char, usize), &'static str>)
    requires
        i < t@.len(),
        t@[i as int] == '\\',
    ensures
        match (r, escape_at(t@.subrange(i as int, t@.len() as int))) {
            (Ok((c, k)), Ok((c2, k2))) => c == c2 && k as int == k2,
            (Err(m), Err(e)) => m@ == e,
            _ => false,
        },
        r matches Ok((_, k)) ==> 2 <= k <= t@.len() - i,
{
    let n = t.len();
    let ghost u = t@.subrange(i as int, n as int);
    if n - i < 2 {
        return Err("Incomplete escape; use \\\\ for a backslash");
    }
    let e = t[i + 1];
    assert(u[1] == e);
    if e == '\\' {
        Ok(('\\', 2))
    } else if e == 'n' {
        Ok(('\n', 2))
    } else if e == 'r' {
        Ok(('\r', 2))
    } else if e == 't' {
        Ok(('\t', 2))
    } else if e == '0' {
        Ok(('\0', 2))
    } else if e == 'x' {
        if n - i >= 4 && is_hex_digit_exec(t[i + 2]) && is_hex_digit_exec(t[i + 3]) {
            assert(u[2] == t@[i + 2] && u[3] == t@[i + 3]);
            let hi = hex_digit_value_exec(t[i + 2]);
            let lo = hex_digit_value_exec(t[i + 3]);
            let v: u32 = hi * 16 + lo;
            proof {
                let d = u.subrange(2, 4);
                assert(d.drop_last().drop_last() =~= Seq::<char>::empty());
                assert(d.drop_last() =~= seq![u[2]]);
                assert(hex_value(Seq::<char>::empty()) == 0);
                assert(hex_value(d.drop_last()) == hex_digit_value(u[2]));
                assert(hex_value(d) == v);
            }
            let b = v as u8;
            Ok((b as char, 4))
        } else {
            proof {
                if n - i >= 4 {
                    assert(u[2] == t@[i + 2] && u[3] == t@[i + 3]);
                }
            }
            Err("Use two hexadecimal digits after \\x")
        }
    } else if e == 'u' {
        if n - i < 3 || t[i + 2] != '{' {
            proof {
                if n - i >= 3 {
                    assert(u[2] == t@[i + 2]);
                }
            }
            return Err("Use \\u{HEX} for a Unicode escape");
        }
        assert(u[2] == '{');
        let mut p: usize = i + 3;
        let mut value: u32 = 0;
        assert(u.subrange(3, 3) =~= Seq::<char>::empty());
        assert(pow16(6) == 16777216) by {
            reveal_with_fuel(pow16, 7);
        }
        assert(pow16(0) == 1);
        loop
            invariant
                i + 3 <= p <= n,
                n == t@.len(),
                p - i - 3 <= 6,
                u == t@.subrange(i as int, n as int),
                unicode_close(u, 3) == unicode_close(u, p - i),
                value as int == hex_value(u.subrange(3, p - i)),
                value < pow16((p - i - 3) as nat),
                pow16(6) == 16777216,
                u.len() == n - i,
                u.len() >= 3,
                u[1] == 'u',
                u[2] == '{',
            ensures
                i + 3 < p < n,
                t@[p as int] == '}',
                u[p - i] == '}',
                unicode_close(u, 3) == unicode_close(u, p - i),
                value as int == hex_value(u.subrange(3, p - i)),
                p - i - 3 <= 6,
            decreases n - p,
        {
            if p >= n {
                return Err("Invalid Unicode escape; use \\u{HEX}");
            }
            let ch = t[p];
            assert(u[p - i] == ch);
            if ch == '}' && p > i + 3 {
                break;
            }
            if is_hex_digit_exec(ch) && p - i - 3 < 6 {
                let d = hex_digit_value_exec(ch);
                proof {
                    let k = (p - i - 3) as nat;
                    assert(pow16(k + 1) == 16 * pow16(k));
                    assert(value * 16 + d < pow16(k + 1)) by (nonlinear_arith)
                        requires
                            value < pow16(k),
                            d < 16,
                            pow16(k + 1) == 16 * pow16(k),
                    ;
                    assert(pow16(k + 1) <= 16777216) by {
                        reveal_with_fuel(pow16, 7);
                    }
                    assert(u.subrange(3, p - i + 1).drop_last() =~= u.subrange(3, p - i));
                }
                value = value * 16 + d;
                p += 1;
            } else {
                return Err("Invalid Unicode escape; use \\u{HEX}");
            }
        }
        assert(unicode_close(u, p - i) == Some(p - i));
        match char_from_u32(value) {
            Some(c) => {
                assert(c == (value as int) as char);
                Ok((c, p - i + 1))
            },
            None => Err("Invalid Unicode code point"),
        }
    } else {
        Err("Invalid escape; use \\\\ for a backslash")
    }
}

/// The text that the escaped form `text` stands for, or the message that
/// rejects its first bad escape.
pub fn decode_string(text: &str) -> (r: Result<String, String>)
    ensures
        match (r, decoded(text@)) {
            (Ok(s), Ok(x)) => s@ == x,
            (Err(m), Err(e)) => m@ == e,
            _ => false,
        },
{
    let t = str_chars(text);
    let n = t.len();
    let mut out: Vec<char> = Vec::new();
    let mut i: usize = 0;
    assert(t@.subrange(0, n as int) =~= t@);
    while i < n
        invariant
            i <= n,
            n == t@.len(),
            t@ == text@,
            decoded(t@) == prefixed(out@, decoded(t@.subrange(i as int, n as int))),
        decreases n - i,
    {
        let ghost u = t@.subrange(i as int, n as int);
        let c = t[i];
        assert(u[0] == c);
        if c != '\\' {
            proof {
                assert(u.drop_first() =~= t@.subrange(i + 1, n as int));
                lemma_prefixed_assoc(out@, seq![c], decoded(u.drop_first()));
                assert(out@ + seq![c] =~= out@.push(c));
            }
            out.push(c);
            i += 1;
        } else {
            match escape_at_exec(&t, i) {
                Err(m) => {
                    return Err(String::from_str(m));
                },
                Ok((ch, k)) => {
                    proof {
                        assert(u.subrange(k as int, u.len() as int) =~= t@.subrange(i + k, n as int));
                        lemma_prefixed_assoc(out@, seq![ch], decoded(u.subrange(k as int, u.len() as int)));
                        assert(out@ + seq![ch] =~= out@.push(ch));
                    }
                    out.push(ch);
                    i += k;
                },
            }
        }
    }
    Ok(string_from_chars(&out))
}

// ---------------------------------------------------------------------------
// The field
// ---------------------------------------------------------------------------

/// The field's editable state, as values.
#[verifier::ext_equal]
pub struct EditView {
    pub buffer: Seq<char>,
    pub cursor: int,
    pub anchor: Option<int>,
    pub left: int,
    pub error: Option<Seq<char>>,
}

/// A literal-value field for one scalar: its text, cursor, selection anchor,
/// horizontal scroll and the message of the last rejected entry. Strings are
/// held in their escaped form.
#[derive(Debug)]
pub struct ScalarEdit {
    pub name: String,
    pub string: bool,
    pub buffer: Vec<char>,
    pub cursor: usize,
    pub anchor: Option<usize>,
    pub left: usize,
    pub error: Option<String>,
}

/// What a key press in the field gives: nothing yet, a decoded string value,
/// or the text of a number for the caller to read.
#[derive(Debug, Clone, PartialEq, Eq)]
pub enum ScalarKeyOutcome {
    Editing,
    StringValue(String),
    NumberText(String),
}

/// The visible part of the field: `width` cells of text, the cursor cell and
/// the selected cells.
#[derive(Debug, PartialEq, Eq)]
pub struct EditField {
    pub text: String,
    pub cursor: usize,
    pub selected: Range<usize>,
}

impl Clone for EditField {
    fn clone(&self) -> (r: EditField)
        ensures
            r.text@ == self.text@,
            r.cursor == self.cursor,
            r.selected == self.selected,
    {
        EditField { text: self.text.clone(), cursor: self.cursor, selected: self.selected.start..self.selected.end }
    }
}

impl View for ScalarEdit {
    type V = EditView;

    open spec fn view(&self) -> EditView {
        EditView {
            buffer: self.buffer@,
            cursor: self.cursor as int,
            anchor: match self.anchor {
                Some(a) => Some(a as int),
                None => None,
            },
            left: self.left as int,
            error: match self.error {
                Some(e) => Some(e@),
                None => None,
            },
        }
    }
}

pub open spec fn min_of(a: int, b: int) -> int {
    if a <= b { a } else { b }
}

/// The selected range: between the anchor and the cursor, empty without an
/// anchor.
pub open spec fn selection_of(v: EditView) -> (int, int) {
    match v.anchor {
        None => (v.cursor, v.cursor),
        Some(a) => if a <= v.cursor { (a, v.cursor) } else { (v.cursor, a) },
    }
}

/// The state after erasing the selection (and dropping the anchor).
pub open spec fn erased(v: EditView) -> EditView {
    let (s, e) = selection_of(v);
    if s == e {
        EditView { buffer: v.buffer, cursor: v.cursor, anchor: None, left: v.left, error: v.error }
    } else {
        EditView {
            buffer: v.buffer.subrange(0, s) + v.buffer.subrange(e, v.buffer.len() as int),
            cursor: s,
            anchor: None,
            left: v.left,
            error: v.error,
        }
    }
}

/// The state after typing or pasting `text`: it replaces the selection, in
/// its escaped form, and clears the error.
pub open spec fn inserted(v: EditView, text: Seq<char>) -> EditView {
    let w = erased(v);
    let chars = encoded(text, false);
    EditView {
        buffer: w.buffer.subrange(0, w.cursor) + chars + w.buffer.subrange(w.cursor, w.buffer.len() as int),
        cursor: w.cursor + chars.len(),
        anchor: None,
        left: w.left,
        error: None,
    }
}

/// The state after moving the cursor to `c` (at most the end), extending the
/// selection when `shift`.
pub open spec fn moved_to(v: EditView, c: int, shift: bool) -> EditView {
    EditView {
        buffer: v.buffer,
        cursor: min_of(c, v.buffer.len() as int),
        anchor: if shift {
            if v.anchor is None { Some(v.cursor) } else { v.anchor }
        } else {
            None
        },
        left: v.left,
        error: v.error,
    }
}

pub open spec fn with_error(v: EditView, error: Option<Seq<char>>) -> EditView {
    EditView { buffer: v.buffer, cursor: v.cursor, anchor: v.anchor, left: v.left, error }
}

/// The state after a key press: AltGr text is typed, Ctrl+A selects all,
/// other Ctrl and Alt keys are ignored; arrows move (collapsing a selection
/// to its side, extending with Shift), Backspace and Delete erase, Enter
/// records why a string was rejected.
pub open spec fn key_state(v: EditView, string: bool, code: KeyInput, m: KeyModifierState) -> EditView {
    let len = v.buffer.len() as int;
    let (s, e) = selection_of(v);
    if m.alt && m.control {
        match code {
            KeyInput::Char(ch) => if !is_control(ch) { inserted(v, seq![ch]) } else { v },
            _ => v,
        }
    } else if m.control {
        match code {
            KeyInput::Char(ch) => if ch == 'a' || ch == 'A' {
                EditView { buffer: v.buffer, cursor: len, anchor: Some(0), left: v.left, error: v.error }
            } else {
                v
            },
            _ => v,
        }
    } else if m.alt {
        v
    } else {
        match code {
            KeyInput::Left | KeyInput::Up => moved_to(
                v,
                if !m.shift && s != e { s } else if v.cursor > 0 { v.cursor - 1 } else { 0 },
                m.shift,
            ),
            KeyInput::Right | KeyInput::Down => moved_to(v, if !m.shift && s != e { e } else { v.cursor + 1 }, m.shift),
            KeyInput::Home => moved_to(v, 0, m.shift),
            KeyInput::End => moved_to(v, len, m.shift),
            KeyInput::Backspace => {
                let w = erased(v);
                if s == e && v.cursor > 0 {
                    EditView {
                        buffer: v.buffer.remove(v.cursor - 1),
                        cursor: v.cursor - 1,
                        anchor: None,
                        left: v.left,
                        error: None,
                    }
                } else {
                    with_error(w, None)
                }
            },
            KeyInput::Delete => {
                let w = erased(v);
                if s == e && v.cursor < len {
                    EditView { buffer: v.buffer.remove(v.cursor), cursor: v.cursor, anchor: None, left: v.left, error: None }
                } else {
                    with_error(w, None)
                }
            },
            KeyInput::Char(ch) => inserted(v, seq![ch]),
            KeyInput::Enter => if string {
                match decoded(v.buffer) {
                    Err(msg) => with_error(v, Some(msg)),
                    Ok(_) => v,
                }
            } else {
                v
            },
            _ => v,
        }
    }
}

/// What a key press gives back: on a plain Enter, the decoded string (`true`)
/// or the number's text (`false`); nothing otherwise.
pub open spec fn key_outcome(v: EditView, string: bool, code: KeyInput, m: KeyModifierState) -> Option<(bool, Seq<char>)> {
    if m.alt || m.control || code != KeyInput::Enter {
        None
    } else if string {
        match decoded(v.buffer) {
            Ok(x) => Some((true, x)),
            Err(_) => None,
        }
    } else {
        Some((false, v.buffer))
    }
}

/// The first visible column after scrolling just enough to show the cursor
/// in `width` cells.
pub open spec fn scrolled_left(v: EditView, width: int) -> int {
    let l1 = if v.cursor < v.left { v.cursor } else { v.left };
    if v.cursor >= sat_add(l1, width) { v.cursor + 1 - width } else { l1 }
}

/// The characters shown from column `left`, at most `width` of them.
pub open spec fn field_content(v: EditView, left: int, width: int) -> Seq<char> {
    v.buffer.subrange(left, min_of(left + width, v.buffer.len() as int))
}

impl ScalarEdit {
    pub open spec fn wf(&self) -> bool {
        &&& self.cursor <= self.buffer@.len()
        &&& self.anchor matches Some(a) ==> a <= self.buffer@.len()
    }

    fn from_parts(name: &str, string: bool, text: Vec<char>) -> (r: ScalarEdit)
        ensures
            r.wf(),
            r.name@ == name@,
            r.string == string,
            r@ == (EditView { buffer: text@, cursor: text@.len() as int, anchor: Some(0), left: 0, error: None }),
    {
        let cursor = text.len();
        ScalarEdit {
            name: String::from_str(name),
            string,
            buffer: text,
            cursor,
            anchor: Some(0),
            left: 0,
            error: None,
        }
    }

    /// A field for the string variable `name` holding `value`: its escaped
    /// form, all selected.
    pub fn new_string(name: &str, value: &str) -> (r: ScalarEdit)
        ensures
            r.wf(),
            r.name@ == name@,
            r.string,
            r@ == (EditView { buffer: encoded(value@, true), cursor: encoded(value@, true).len() as int, anchor: Some(0), left: 0, error: None }),
    {
        let text = encode_string(value, true);
        ScalarEdit::from_parts(name, true, str_chars(text.as_str()))
    }

    /// A field for the numeric variable `name` whose value reads `text`, all
    /// selected.
    pub fn new_number(name: &str, text: &str) -> (r: ScalarEdit)
        ensures
            r.wf(),
            r.name@ == name@,
            !r.string,
            r@ == (EditView { buffer: text@, cursor: text@.len() as int, anchor: Some(0), left: 0, error: None }),
    {
        ScalarEdit::from_parts(name, false, str_chars(text))
    }

    /// The message of the last rejected entry.
    pub fn error(&self) -> (r: Option<&str>)
        ensures
            match (r, self.error) {
                (Some(m), Some(e)) => m@ == e@,
                (None, None) => true,
                _ => false,
            },
    {
        match &self.error {
            Some(e) => Some(e.as_str()),
            None => None,
        }
    }

    /// Rejects the entry with `message`, shown in escaped form.
    pub fn fail(&mut self, message: String)
        ensures
            final(self)@ == with_error(old(self)@, Some(encoded(message@, false))),
            final(self).name == old(self).name,
            final(self).string == old(self).string,
    {
        self.error = Some(encode_string(message.as_str(), false));
    }

    fn selection(&self) -> (r: (usize, usize))
        requires
            self.wf(),
        ensures
            (r.0 as int, r.1 as int) == selection_of(self@),
            r.0 <= r.1 <= self.buffer@.len(),
    {
        match self.anchor {
            None => (self.cursor, self.cursor),
            Some(a) => if a <= self.cursor { (a, self.cursor) } else { (self.cursor, a) },
        }
    }

    fn erase_selection(&mut self) -> (r: bool)
        requires
            old(self).wf(),
        ensures
            final(self).wf(),
            final(self)@ == erased(old(self)@),
            r == (selection_of(old(self)@).0 != selection_of(old(self)@).1),
            final(self).name == old(self).name,
            final(self).string == old(self).string,
    {
        let (s, e) = self.selection();
        self.anchor = None;
        if s == e {
            return false;
        }
        let mut rest = crate::text::chars_range(&self.buffer, 0, s);
        crate::text::extend_with_range(&mut rest, &self.buffer, e, self.buffer.len());
        self.buffer = rest;
        self.cursor = s;
        true
    }

    fn insert(&mut self, text: &[char])
        requires
            old(self).wf(),
        ensures
            final(self).wf(),
            final(self)@ == inserted(old(self)@, text@),
            final(self).name == old(self).name,
            final(self).string == old(self).string,
    {
        self.erase_selection();
        let chars = encode_chars(text, false);
        let mut next = crate::text::chars_range(&self.buffer, 0, self.cursor);
        crate::text::extend_with_chars(&mut next, &chars);
        crate::text::extend_with_range(&mut next, &self.buffer, self.cursor, self.buffer.len());
        let total = next.len();
        assert(self.cursor + chars@.len() <= total);
        self.buffer = next;
        self.cursor = self.cursor + chars.len();
        self.error = None;
    }

    /// Pastes `text`, in escaped form, over the selection.
    pub fn paste(&mut self, text: &str)
        requires
            old(self).wf(),
        ensures
            final(self).wf(),
            final(self)@ == inserted(old(self)@, text@),
            final(self).name == old(self).name,
            final(self).string == old(self).string,
    {
        let chars = str_chars(text);
        self.insert(&chars);
    }

    fn move_cursor(&mut self, cursor: usize, shift: bool)
        requires
            old(self).wf(),
        ensures
            final(self).wf(),
            final(self)@ == moved_to(old(self)@, cursor as int, shift),
            final(self).name == old(self).name,
            final(self).string == old(self).string,
    {
        if shift {
            if self.anchor.is_none() {
                self.anchor = Some(self.cursor);
            }
        } else {
            self.anchor = None;
        }
        self.cursor = if cursor < self.buffer.len() { cursor } else { self.buffer.len() };
    }
}

impl ScalarEdit {
    fn insert_char(&mut self, ch: char)
        requires
            old(self).wf(),
        ensures
            final(self).wf(),
            final(self)@ == inserted(old(self)@, seq![ch]),
            final(self).name == old(self).name,
            final(self).string == old(self).string,
    {
        let mut one: Vec<char> = Vec::new();
        one.push(ch);
        assert(one@ =~= seq![ch]);
        self.insert(&one);
    }

    /// Handles a key press; on Enter, gives the decoded string or the
    /// number's text, or records why the string was rejected.
    pub fn key(&mut self, code: KeyInput, modifiers: KeyModifierState) -> (r: ScalarKeyOutcome)
        requires
            old(self).wf(),
        ensures
            final(self).wf(),
            final(self)@ == key_state(old(self)@, old(self).string, code, modifiers),
            final(self).name == old(self).name,
            final(self).string == old(self).string,
            match r {
                ScalarKeyOutcome::Editing => key_outcome(old(self)@, old(self).string, code, modifiers) is None,
                ScalarKeyOutcome::StringValue(v) => key_outcome(old(self)@, old(self).string, code, modifiers)
                    == Some((true, v@)),
                ScalarKeyOutcome::NumberText(t) => key_outcome(old(self)@, old(self).string, code, modifiers)
                    == Some((false, t@)),
            },
    {
        if modifiers.alt && modifiers.control {
            match code {
                KeyInput::Char(ch) => {
                    if !crate::text::char_is_control(ch) {
                        self.insert_char(ch);
                    }
                },
                _ => {},
            }
            return ScalarKeyOutcome::Editing;
        }
        if modifiers.control {
            match code {
                KeyInput::Char(ch) => {
                    if ch == 'a' || ch == 'A' {
                        self.anchor = Some(0);
                        self.cursor = self.buffer.len();
                    }
                },
                _ => {},
            }
            return ScalarKeyOutcome::Editing;
        }
        if modifiers.alt {
            return ScalarKeyOutcome::Editing;
        }
        let shift = modifiers.shift;
        match code {
            KeyInput::Left | KeyInput::Up => {
                let (s, e) = self.selection();
                let cursor = if !shift && s != e {
                    s
                } else if self.cursor > 0 {
                    self.cursor - 1
                } else {
                    0
                };
                self.move_cursor(cursor, shift);
            },
            KeyInput::Right | KeyInput::Down => {
                let _len = self.buffer.len();
                let (s, e) = self.selection();
                let cursor = if !shift && s != e {
                    e
                } else if self.cursor < usize::MAX {
                    self.cursor + 1
                } else {
                    usize::MAX
                };
                self.move_cursor(cursor, shift);
            },
            KeyInput::Home => self.move_cursor(0, shift),
            KeyInput::End => {
                let len = self.buffer.len();
                self.move_cursor(len, shift);
            },
            KeyInput::Backspace => {
                let erased_any = self.erase_selection();
                if !erased_any && self.cursor > 0 {
                    self.cursor = self.cursor - 1;
                    let at = self.cursor;
                    self.buffer.remove(at);
                }
                self.error = None;
            },
            KeyInput::Delete => {
                let erased_any = self.erase_selection();
                if !erased_any && self.cursor < self.buffer.len() {
                    let at = self.cursor;
                    self.buffer.remove(at);
                }
                self.error = None;
            },
            KeyInput::Char(ch) => self.insert_char(ch),
            KeyInput::Enter => {
                let input = string_from_chars(&self.buffer);
                if self.string {
                    match decode_string(input.as_str()) {
                        Ok(value) => {
                            return ScalarKeyOutcome::StringValue(value);
                        },
                        Err(message) => {
                            self.error = Some(message);
                        },
                    }
                } else {
                    return ScalarKeyOutcome::NumberText(input);
                }
            },
            _ => {},
        }
        ScalarKeyOutcome::Editing
    }

    /// The field in `width` cells, scrolling just enough to show the cursor;
    /// none when there is no room.
    #[verifier::rlimit(40)]
    pub fn field(&mut self, width: usize) -> (r: Option<EditField>)
        requires
            old(self).wf(),
        ensures
            final(self).wf(),
            final(self).name == old(self).name,
            final(self).string == old(self).string,
            width == 0 ==> r is None && final(self)@ == old(self)@,
            width > 0 ==> (r matches Some(f) && {
                let v = old(self)@;
                let left = scrolled_left(v, width as int);
                let content = field_content(v, left, width as int);
                let (s, e) = selection_of(v);
                &&& final(self)@ == (EditView { buffer: v.buffer, cursor: v.cursor, anchor: v.anchor, left, error: v.error })
                &&& f.text@ == content + crate::text::repeat_char(' ', (width - content.len()) as nat)
                &&& f.cursor as int == min_of(v.cursor - left, width - 1)
                &&& f.selected.start as int == min_of(sat_sub(s, left), content.len() as int)
                &&& f.selected.end as int == min_of(sat_sub(e, left), content.len() as int)
                &&& f.selected.end <= f.text@.len() == width
            }),
    {
        if width == 0 {
            return None;
        }
        if self.cursor < self.left {
            self.left = self.cursor;
        }
        let end = if self.left <= usize::MAX - width { self.left + width } else { usize::MAX };
        if self.cursor >= end {
            self.left = self.cursor - (width - 1);
        }
        let (s, e) = self.selection();
        let left = self.left;
        let len = self.buffer.len();
        let stop = if width < len - left { left + width } else { len };
        let mut text = crate::text::chars_range(&self.buffer, left, stop);
        let content_len = text.len();
        crate::text::push_repeated(&mut text, ' ', width - content_len);
        let offset = self.cursor - left;
        let cursor = if offset < width - 1 { offset } else { width - 1 };
        let a = if s > left { s - left } else { 0 };
        let b = if e > left { e - left } else { 0 };
        let start = if a < content_len { a } else { content_len };
        let stop_sel = if b < content_len { b } else { content_len };
        Some(EditField { text: string_from_chars(&text), cursor, selected: start..stop_sel })
    }
}

/// The field's text with its selection in reverse video when `ansi`.
pub open spec fn rendered_field(t: Seq<char>, s: int, e: int, ansi: bool) -> Seq<char> {
    if !ansi || s >= e {
        t
    } else {
        t.subrange(0, s) + "\x1b[7m"@ + t.subrange(s, e) + "\x1b[27m"@ + t.subrange(e, t.len() as int)
    }
}

impl EditField {
    /// The field as the terminal shows it: the selected cells in reverse video
    /// when `ansi`.
    pub fn render(&self, ansi: bool) -> (r: String)
        requires
            ansi && self.selected.start < self.selected.end ==> self.selected.end <= self.text@.len(),
        ensures
            r@ == rendered_field(self.text@, self.selected.start as int, self.selected.end as int, ansi),
    {
        if !ansi || self.selected.start >= self.selected.end {
            return self.text.clone();
        }
        let chars = str_chars(self.text.as_str());
        let s = self.selected.start;
        let e = self.selected.end;
        let mut out = crate::text::chars_range(&chars, 0, s);
        crate::text::extend_with_str(&mut out, "\x1b[7m");
        crate::text::extend_with_range(&mut out, &chars, s, e);
        crate::text::extend_with_str(&mut out, "\x1b[27m");
        crate::text::extend_with_range(&mut out, &chars, e, chars.len());
        string_from_chars(&out)
    }
}

} // verus!
