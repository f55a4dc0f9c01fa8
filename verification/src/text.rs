//! Character classes, conversions between `str`/`String` and character
//! vectors, and decimal formatting and parsing, all over `Seq<char>` models.
use vstd::prelude::*;

verus! {

// ---------------------------------------------------------------------------
// Character classes
// ---------------------------------------------------------------------------

/// Unicode `White_Space`, as `char::is_whitespace` defines it.
pub open spec fn is_ws(c: char) -> bool {
    ||| c == ' '
    ||| ('\t' <= c && c <= '\r')
    ||| c == '\u{85}'
    ||| c == '\u{a0}'
    ||| c == '\u{1680}'
    ||| ('\u{2000}' <= c && c <= '\u{200a}')
    ||| c == '\u{2028}'
    ||| c == '\u{2029}'
    ||| c == '\u{202f}'
    ||| c == '\u{205f}'
    ||| c == '\u{3000}'
}

pub open spec fn is_digit(c: char) -> bool {
    '0' <= c && c <= '9'
}

pub open spec fn is_upper(c: char) -> bool {
    'A' <= c && c <= 'Z'
}

pub open spec fn is_lower(c: char) -> bool {
    'a' <= c && c <= 'z'
}

pub open spec fn is_alpha(c: char) -> bool {
    is_upper(c) || is_lower(c)
}

pub open spec fn is_alnum(c: char) -> bool {
    is_alpha(c) || is_digit(c)
}

pub open spec fn is_hex_digit(c: char) -> bool {
    is_digit(c) || ('a' <= c && c <= 'f') || ('A' <= c && c <= 'F')
}

/// Unicode general category `Cc`, as `char::is_control` defines it.
pub open spec fn is_control(c: char) -> bool {
    c <= '\u{1f}' || ('\u{7f}' <= c && c <= '\u{9f}')
}

/// `char::to_ascii_uppercase`.
pub open spec fn upper(c: char) -> char {
    if is_lower(c) {
        ((c as u32) - 32) as char
    } else {
        c
    }
}

/// `char::eq_ignore_ascii_case`.
pub open spec fn eq_ic(a: char, b: char) -> bool {
    upper(a) == upper(b)
}

/// `str::to_ascii_uppercase` on a character sequence.
pub open spec fn upper_seq(s: Seq<char>) -> Seq<char> {
    Seq::new(s.len(), |i: int| upper(s[i]))
}

pub fn char_is_whitespace(c: char) -> (r: bool)
    ensures
        r == is_ws(c),
{
    c == ' ' || ('\t' <= c && c <= '\r') || c == '\u{85}' || c == '\u{a0}' || c == '\u{1680}'
        || ('\u{2000}' <= c && c <= '\u{200a}') || c == '\u{2028}' || c == '\u{2029}' || c
        == '\u{202f}' || c == '\u{205f}' || c == '\u{3000}'
}

pub fn char_is_digit(c: char) -> (r: bool)
    ensures
        r == is_digit(c),
{
    '0' <= c && c <= '9'
}

pub fn char_is_alpha(c: char) -> (r: bool)
    ensures
        r == is_alpha(c),
{
    ('A' <= c && c <= 'Z') || ('a' <= c && c <= 'z')
}

pub fn char_is_alnum(c: char) -> (r: bool)
    ensures
        r == is_alnum(c),
{
    char_is_alpha(c) || char_is_digit(c)
}

pub proof fn lemma_control_is_latin1(c: char)
    requires
        is_control(c),
    ensures
        (c as u32) <= 0x9f,
{
}

pub fn char_is_control(c: char) -> (r: bool)
    ensures
        r == is_control(c),
{
    c <= '\u{1f}' || ('\u{7f}' <= c && c <= '\u{9f}')
}

pub fn char_upper(c: char) -> (r: char)
    ensures
        r == upper(c),
{
    if 'a' <= c && c <= 'z' {
        let code = (c as u32) - 32;
        char_from_ascii_code(code)
    } else {
        c
    }
}

/// The character of an ASCII code.
pub fn char_from_ascii_code(code: u32) -> (r: char)
    requires
        code < 128,
    ensures
        r == code as char,
        r as u32 == code,
{
    let b = code as u8;
    let r = b as char;
    assert(r as u32 == code);
    r
}

pub fn chars_equal_ignore_ascii_case(left: char, right: char) -> (r: bool)
    ensures
        r == eq_ic(left, right),
{
    char_upper(left) == char_upper(right)
}

// ---------------------------------------------------------------------------
// str / String / Vec<char>
// ---------------------------------------------------------------------------

/// Appends one character (`String::push`).
#[verifier::external_body]
pub fn push_char(s: &mut String, c: char)
    ensures
        final(s)@ == old(s)@.push(c),
{
    s.push(c);
}

/// The characters of a string slice, in order.
pub fn str_chars(s: &str) -> (v: Vec<char>)
    ensures
        v@ == s@,
{
    let n = s.unicode_len();
    let mut v: Vec<char> = Vec::new();
    let mut i: usize = 0;
    while i < n
        invariant
            n == s@.len(),
            i <= n,
            v@ == s@.subrange(0, i as int),
        decreases n - i,
    {
        let c = s.get_char(i);
        v.push(c);
        i += 1;
        assert(v@ =~= s@.subrange(0, i as int));
    }
    assert(v@ =~= s@);
    v
}

/// A new string holding the given characters.
pub fn string_from_chars(v: &[char]) -> (s: String)
    ensures
        s@ == v@,
{
    let mut s = String::new();
    let mut i: usize = 0;
    while i < v.len()
        invariant
            i <= v@.len(),
            s@ == v@.subrange(0, i as int),
        decreases v@.len() - i,
    {
        push_char(&mut s, v[i]);
        i += 1;
        assert(s@ =~= v@.subrange(0, i as int));
    }
    assert(s@ =~= v@);
    s
}

/// Appends the characters of a string slice to a character vector.
pub fn extend_with_str(v: &mut Vec<char>, s: &str)
    ensures
        final(v)@ == old(v)@ + s@,
{
    let chars = str_chars(s);
    extend_with_chars(v, &chars);
}

/// Appends characters to a character vector.
pub fn extend_with_chars(v: &mut Vec<char>, s: &[char])
    ensures
        final(v)@ == old(v)@ + s@,
{
    let ghost start = v@;
    let mut i: usize = 0;
    while i < s.len()
        invariant
            i <= s@.len(),
            v@ == start + s@.subrange(0, i as int),
        decreases s@.len() - i,
    {
        v.push(s[i]);
        i += 1;
        assert(v@ =~= start + s@.subrange(0, i as int));
    }
    assert(s@.subrange(0, s@.len() as int) =~= s@);
}

/// Appends a character range `s[from..to]` to a character vector.
pub fn extend_with_range(v: &mut Vec<char>, s: &[char], from: usize, to: usize)
    requires
        from <= to <= s@.len(),
    ensures
        final(v)@ == old(v)@ + s@.subrange(from as int, to as int),
{
    let ghost start = v@;
    let mut i: usize = from;
    while i < to
        invariant
            from <= i <= to <= s@.len(),
            v@ == start + s@.subrange(from as int, i as int),
        decreases to - i,
    {
        v.push(s[i]);
        i += 1;
        assert(v@ =~= start + s@.subrange(from as int, i as int));
    }
}

/// A copy of `s[from..to]`.
pub fn chars_range(s: &[char], from: usize, to: usize) -> (r: Vec<char>)
    requires
        from <= to <= s@.len(),
    ensures
        r@ == s@.subrange(from as int, to as int),
{
    let mut r = Vec::new();
    extend_with_range(&mut r, s, from, to);
    assert(r@ =~= s@.subrange(from as int, to as int));
    r
}

/// `n` copies of a character.
pub open spec fn repeat_char(c: char, n: nat) -> Seq<char> {
    Seq::new(n, |_i: int| c)
}

/// Appends `n` copies of `c`.
pub fn push_repeated(v: &mut Vec<char>, c: char, n: usize)
    ensures
        final(v)@ == old(v)@ + repeat_char(c, n as nat),
{
    let ghost start = v@;
    let mut i: usize = 0;
    while i < n
        invariant
            i <= n,
            v@ == start + repeat_char(c, i as nat),
        decreases n - i,
    {
        v.push(c);
        i += 1;
        assert(v@ =~= start + repeat_char(c, i as nat));
    }
}

/// The ASCII upper-case form of a character sequence.
pub fn chars_upper(s: &[char]) -> (r: Vec<char>)
    ensures
        r@ == upper_seq(s@),
{
    let mut r: Vec<char> = Vec::new();
    let mut i: usize = 0;
    while i < s.len()
        invariant
            i <= s@.len(),
            r@ == upper_seq(s@.subrange(0, i as int)),
        decreases s@.len() - i,
    {
        let c = char_upper(s[i]);
        r.push(c);
        i += 1;
        assert(r@ =~= upper_seq(s@.subrange(0, i as int)));
    }
    assert(s@.subrange(0, s@.len() as int) =~= s@);
    r
}

/// Whether two character sequences are equal.
pub fn chars_eq(a: &[char], b: &[char]) -> (r: bool)
    ensures
        r == (a@ == b@),
{
    if a.len() != b.len() {
        return false;
    }
    let mut i: usize = 0;
    while i < a.len()
        invariant
            a@.len() == b@.len(),
            i <= a@.len(),
            forall|j: int| 0 <= j < i ==> a@[j] == b@[j],
        decreases a@.len() - i,
    {
        if a[i] != b[i] {
            return false;
        }
        i += 1;
    }
    assert(a@ =~= b@);
    true
}

/// Whether `needle` occurs at `pos` in `s`.
pub open spec fn occurs_at(s: Seq<char>, pos: int, needle: Seq<char>) -> bool {
    0 <= pos && pos + needle.len() <= s.len() && s.subrange(pos, pos + needle.len()) == needle
}

/// Whether `needle` occurs anywhere in `s` (`str::contains`).
pub open spec fn contains_seq(s: Seq<char>, needle: Seq<char>) -> bool {
    exists|pos: int| occurs_at(s, pos, needle)
}

/// Whether `needle` occurs at `pos` in `s`.
pub fn chars_occur_at(s: &[char], pos: usize, needle: &[char]) -> (r: bool)
    ensures
        r == occurs_at(s@, pos as int, needle@),
{
    if pos > s.len() || needle.len() > s.len() - pos {
        return false;
    }
    let n = s.len();
    let mut i: usize = 0;
    while i < needle.len()
        invariant
            n == s@.len(),
            pos + needle@.len() <= s@.len(),
            i <= needle@.len(),
            forall|j: int| 0 <= j < i ==> s@[pos + j] == needle@[j],
        decreases needle@.len() - i,
    {
        if s[pos + i] != needle[i] {
            assert(s@.subrange(pos as int, pos + needle@.len())[i as int] != needle@[i as int]);
            return false;
        }
        i += 1;
    }
    assert(s@.subrange(pos as int, pos + needle@.len()) =~= needle@);
    true
}

/// Whether `needle` occurs anywhere in `s`.
pub fn chars_contain(s: &[char], needle: &[char]) -> (r: bool)
    ensures
        r == contains_seq(s@, needle@),
{
    if needle.len() > s.len() {
        assert forall|pos: int| !occurs_at(s@, pos, needle@) by {}
        return false;
    }
    let last = s.len() - needle.len();
    let mut pos: usize = 0;
    loop
        invariant
            needle@.len() <= s@.len(),
            last == s@.len() - needle@.len(),
            pos <= last,
            forall|p: int| 0 <= p < pos ==> !occurs_at(s@, p, needle@),
        decreases last - pos,
    {
        if chars_occur_at(s, pos, needle) {
            return true;
        }
        if pos == last {
            assert forall|p: int| !occurs_at(s@, p, needle@) by {}
            return false;
        }
        pos += 1;
    }
}

// ---------------------------------------------------------------------------
// Decimal numbers
// ---------------------------------------------------------------------------

pub open spec fn digit_char(d: nat) -> char {
    ((d % 10) + ('0' as nat)) as char
}

/// The decimal form of a natural number, without leading zeros.
pub open spec fn decimal(n: nat) -> Seq<char>
    decreases n,
{
    if n < 10 {
        seq![digit_char(n)]
    } else {
        decimal(n / 10).push(digit_char(n % 10))
    }
}

/// The decimal form of an integer, with a leading `-` when negative
/// (`i32::to_string`).
pub open spec fn int_decimal(n: int) -> Seq<char> {
    if n < 0 {
        seq!['-'] + decimal((-n) as nat)
    } else {
        decimal(n as nat)
    }
}

/// The value of a sequence of ASCII digits.
pub open spec fn digits_value(s: Seq<char>) -> int
    decreases s.len(),
{
    if s.len() == 0 {
        0
    } else {
        digits_value(s.drop_last()) * 10 + (s.last() as int - '0' as int)
    }
}

pub open spec fn all_digits(s: Seq<char>) -> bool {
    forall|i: int| 0 <= i < s.len() ==> is_digit(#[trigger] s[i])
}

proof fn lemma_digits_value_nonneg(s: Seq<char>)
    requires
        all_digits(s),
    ensures
        digits_value(s) >= 0,
    decreases s.len(),
{
    if s.len() > 0 {
        assert(all_digits(s.drop_last()));
        lemma_digits_value_nonneg(s.drop_last());
    }
}

/// The decimal digits of `n`.
pub fn nat_to_decimal(n: u64) -> (r: Vec<char>)
    ensures
        r@ == decimal(n as nat),
    decreases n,
{
    if n < 10 {
        let d = char_from_ascii_code((n + 48) as u32);
        assert(d == digit_char(n as nat));
        let mut r = Vec::new();
        r.push(d);
        assert(r@ =~= seq![digit_char(n as nat)]);
        r
    } else {
        let mut r = nat_to_decimal(n / 10);
        let d = char_from_ascii_code(((n % 10) + 48) as u32);
        assert(d == digit_char((n % 10) as nat));
        r.push(d);
        r
    }
}

/// The decimal form of an `i32`, as `i32::to_string` writes it.
pub fn i32_to_decimal(n: i32) -> (r: Vec<char>)
    ensures
        r@ == int_decimal(n as int),
{
    if n < 0 {
        let magnitude: u64 = (0i64 - (n as i64)) as u64;
        let digits = nat_to_decimal(magnitude);
        let mut r = Vec::new();
        r.push('-');
        let ghost pre = r@;
        extend_with_chars(&mut r, &digits);
        assert(r@ =~= seq!['-'] + decimal((-(n as int)) as nat));
        r
    } else {
        nat_to_decimal(n as u64)
    }
}

/// Parses a non-empty run of ASCII digits as an `i32`
/// (`str::parse::<i32>` on such text); `None` when the value overflows.
pub fn parse_digits_i32(s: &[char]) -> (r: Option<i32>)
    requires
        s@.len() > 0,
        all_digits(s@),
    ensures
        r is Some <==> digits_value(s@) <= i32::MAX,
        r matches Some(v) ==> v as int == digits_value(s@),
{
    let mut value: i64 = 0;
    let mut i: usize = 0;
    while i < s.len()
        invariant
            i <= s@.len(),
            all_digits(s@),
            0 <= value <= i32::MAX,
            value as int == digits_value(s@.subrange(0, i as int)),
        decreases s@.len() - i,
    {
        let ghost prefix = s@.subrange(0, i as int + 1);
        assert(prefix.drop_last() =~= s@.subrange(0, i as int));
        assert(is_digit(s@[i as int]));
        let d = (s[i] as u32 - '0' as u32) as i64;
        value = value * 10 + d;
        i += 1;
        if value > i32::MAX as i64 {
            proof {
                lemma_digits_value_grows(s@, i as int);
            }
            return None;
        }
    }
    assert(s@.subrange(0, s@.len() as int) =~= s@);
    Some(value as i32)
}

/// Extending a digit sequence never makes its value smaller.
proof fn lemma_digits_value_grows(s: Seq<char>, i: int)
    requires
        0 <= i <= s.len(),
        all_digits(s),
    ensures
        digits_value(s) >= digits_value(s.subrange(0, i)),
    decreases s.len() - i,
{
    if i < s.len() {
        lemma_digits_value_grows(s, i + 1);
        let p = s.subrange(0, i + 1);
        assert(p.drop_last() =~= s.subrange(0, i));
        assert(all_digits(s.subrange(0, i)));
        lemma_digits_value_nonneg(s.subrange(0, i));
    } else {
        assert(s.subrange(0, i) =~= s);
    }
}

} // verus!
