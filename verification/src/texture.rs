//! Textures read from the `WxH:RRGGBB...` text form of a saved screen.
use vstd::prelude::*;
use crate::error::{BasicError, ErrorCode};
use crate::navigation::{byte_off, char_at_byte};
use crate::scalar_edit::{hex_value, pow16, hex_digit_value_exec, is_hex_digit_exec};
use crate::text::{all_digits, digits_value, is_digit, is_hex_digit, str_chars};

verus! {

/// A texture: `width` by `height` pixels of `0xRRGGBB`, row by row.
#[derive(Debug, Clone)]
pub struct Texture {
    pub width: usize,
    pub height: usize,
    pub pixels: Vec<u32>,
}

/// The index of the first `c` in `s`.
pub open spec fn first_index(s: Seq<char>, c: char) -> Option<int>
    decreases s.len(),
{
    if s.len() == 0 {
        None
    } else if s[0] == c {
        Some(0)
    } else {
        match first_index(s.drop_first(), c) {
            Some(i) => Some(i + 1),
            None => None,
        }
    }
}

/// The digits of an unsigned number, after an optional `+`.
pub open spec fn unsigned_digits(s: Seq<char>) -> Option<Seq<char>> {
    if s.len() > 0 && s[0] == '+' {
        if s.len() > 1 { Some(s.drop_first()) } else { None }
    } else if s.len() > 0 {
        Some(s)
    } else {
        None
    }
}

/// `str::parse::<usize>`: an optional `+` and decimal digits, within range.
pub open spec fn parsed_usize(s: Seq<char>) -> Option<int> {
    match unsigned_digits(s) {
        Some(d) => if all_digits(d) && digits_value(d) <= usize::MAX { Some(digits_value(d)) } else { None },
        None => None,
    }
}

/// `u32::from_str_radix(.., 16)` on a six-character chunk: an optional `+`
/// and hexadecimal digits.
pub open spec fn hex_chunk(c: Seq<char>) -> Option<int> {
    let d = chunk_digits(c);
    if d.len() > 0 && all_hex(d) {
        Some(hex_value(d))
    } else {
        None
    }
}

/// The digits of a chunk, after an optional `+`.
pub open spec fn chunk_digits(c: Seq<char>) -> Seq<char> {
    if c.len() > 0 && c[0] == '+' { c.drop_first() } else { c }
}

pub open spec fn all_hex(d: Seq<char>) -> bool {
    forall|i: int| 0 <= i < d.len() ==> is_hex_digit(#[trigger] d[i])
}

pub open spec fn chunk(hex: Seq<char>, k: int) -> Seq<char> {
    hex.subrange(6 * k, 6 * k + 6)
}

pub open spec fn is_ascii_seq(s: Seq<char>) -> bool {
    forall|i: int| 0 <= i < s.len() ==> (#[trigger] s[i] as int) < 128
}

/// The index of the first non-ASCII character of `s`.
pub open spec fn first_non_ascii(s: Seq<char>) -> int
    decreases s.len(),
{
    if s.len() == 0 || (s[0] as int) >= 128 {
        0
    } else {
        1 + first_non_ascii(s.drop_first())
    }
}

/// The width, height and pixel digits of a saved screen: the text before the
/// first `:` is `WxH`, split at its first `x`.
pub open spec fn gscr_size(s: Seq<char>) -> Option<(int, int, Seq<char>)> {
    match first_index(s, ':') {
        None => None,
        Some(i) => {
            let res = s.subrange(0, i);
            let hex = s.subrange(i + 1, s.len() as int);
            match first_index(res, 'x') {
                None => None,
                Some(j) => match (parsed_usize(res.subrange(0, j)), parsed_usize(res.subrange(j + 1, res.len() as int))) {
                    (Some(w), Some(h)) => Some((w, h, hex)),
                    _ => None,
                },
            }
        },
    }
}

/// The pixels of `n` chunks, when each is six hexadecimal digits.
pub open spec fn gscr_pixels(hex: Seq<char>, n: int) -> Option<Seq<u32>> {
    if forall|k: int| 0 <= k < n ==> #[trigger] hex_chunk(chunk(hex, k)) is Some {
        Some(Seq::new(n as nat, |k: int| hex_chunk(chunk(hex, k))->0 as u32))
    } else {
        None
    }
}

/// The texture that a saved screen describes: six hexadecimal digits per
/// pixel, exactly as many as `W*H`, and neither side empty.
pub open spec fn parsed_gscr(s: Seq<char>) -> Option<(int, int, Seq<u32>)> {
    match gscr_size(s) {
        None => None,
        Some((w, h, hex)) => if byte_off(hex, hex.len() as int) != w * h * 6 || !is_ascii_seq(hex) {
            None
        } else {
            match gscr_pixels(hex, w * h) {
                None => None,
                Some(px) => if w == 0 || h == 0 { None } else { Some((w, h, px)) },
            }
        },
    }
}

/// The inputs on which reading a saved screen panics: the size `W*H*6`
/// overflows, or a six-byte chunk that is reached cuts a character.
pub open spec fn gscr_read_panics(s: Seq<char>) -> bool {
    match gscr_size(s) {
        None => false,
        Some((w, h, hex)) => {
            ||| w * h * 6 > usize::MAX
            ||| {
                &&& byte_off(hex, hex.len() as int) == w * h * 6
                &&& !is_ascii_seq(hex)
                &&& forall|j: int| 0 <= j < first_non_ascii(hex) / 6 ==> #[trigger] hex_chunk(chunk(hex, j)) is Some
                &&& char_at_byte(hex, 6 * (first_non_ascii(hex) / 6) + 6) is None
            }
        },
    }
}

proof fn lemma_ascii_byte_off(s: Seq<char>, k: int)
    requires
        is_ascii_seq(s),
        0 <= k <= s.len(),
    ensures
        byte_off(s, k) == k,
    decreases k,
{
    if k > 0 {
        lemma_ascii_byte_off(s, k - 1);
        assert((s[k - 1] as int) < 128);
    }
}

proof fn lemma_digits_value_grows(s: Seq<char>, k: int)
    requires
        all_digits(s),
        0 <= k <= s.len(),
    ensures
        digits_value(s.subrange(0, k)) <= digits_value(s),
        digits_value(s.subrange(0, k)) >= 0,
    decreases s.len(),
{
    if k < s.len() {
        assert(all_digits(s.drop_last()));
        lemma_digits_value_grows(s.drop_last(), k);
        assert(s.drop_last().subrange(0, k) =~= s.subrange(0, k));
    } else {
        assert(s.subrange(0, k) =~= s);
        lemma_digits_value_grows_nonneg(s);
    }
}

proof fn lemma_digits_value_grows_nonneg(s: Seq<char>)
    requires
        all_digits(s),
    ensures
        digits_value(s) >= 0,
    decreases s.len(),
{
    if s.len() > 0 {
        assert(all_digits(s.drop_last()));
        lemma_digits_value_grows_nonneg(s.drop_last());
    }
}

/// The first index of `c` in `s[from..to]`, as an index of `s`.
fn find_char(s: &Vec<char>, to: usize, c: char) -> (r: Option<usize>)
    requires
        to <= s@.len(),
    ensures
        match (r, first_index(s@.subrange(0, to as int), c)) {
            (Some(i), Some(j)) => i as int == j,
            (None, None) => true,
            _ => false,
        },
        r matches Some(i) ==> i < to,
{
    let mut i: usize = to;
    let mut found: Option<usize> = None;
    // Scan from the end so that the last hit recorded is the first one.
    while i > 0
        invariant
            i <= to <= s@.len(),
            match found {
                Some(f) => i <= f < to && s@[f as int] == c && forall|q: int| i <= q < f ==> s@[q] != c,
                None => forall|q: int| i <= q < to ==> s@[q] != c,
            },
        decreases i,
    {
        i -= 1;
        if s[i] == c {
            found = Some(i);
        }
    }
    proof {
        lemma_first_index(s@.subrange(0, to as int), c, found);
    }
    found
}

proof fn lemma_first_index(t: Seq<char>, c: char, found: Option<usize>)
    requires
        match found {
            Some(f) => f < t.len() && t[f as int] == c && forall|q: int| 0 <= q < f ==> t[q] != c,
            None => forall|q: int| 0 <= q < t.len() ==> t[q] != c,
        },
    ensures
        match (found, first_index(t, c)) {
            (Some(i), Some(j)) => i as int == j,
            (None, None) => true,
            _ => false,
        },
    decreases t.len(),
{
    if t.len() > 0 && t[0] != c {
        let next: Option<usize> = match found {
            Some(f) => Some((f - 1) as usize),
            None => None,
        };
        assert forall|q: int| 0 <= q < t.drop_first().len() implies (match next {
            Some(f) => q < f ==> t.drop_first()[q] != c,
            None => t.drop_first()[q] != c,
        }) by {
            assert(t.drop_first()[q] == t[q + 1]);
        }
        match found {
            Some(f) => {
                assert(f > 0);
                assert(t.drop_first()[f - 1] == t[f as int]);
            },
            None => {},
        }
        lemma_first_index(t.drop_first(), c, next);
    }
}

/// `str::parse::<usize>` on `s[from..to]`.
fn parse_usize(s: &Vec<char>, from: usize, to: usize) -> (r: Option<usize>)
    requires
        from <= to <= s@.len(),
    ensures
        match (r, parsed_usize(s@.subrange(from as int, to as int))) {
            (Some(v), Some(w)) => v as int == w,
            (None, None) => true,
            _ => false,
        },
{
    let ghost t = s@.subrange(from as int, to as int);
    if from == to {
        return None;
    }
    let mut start = from;
    if s[from] == '+' {
        assert(t[0] == '+');
        if to - from == 1 {
            return None;
        }
        start = from + 1;
        assert(t.drop_first() =~= s@.subrange(start as int, to as int));
    } else {
        assert(t[0] == s@[from as int]);
    }
    let ghost d = s@.subrange(start as int, to as int);
    assert(unsigned_digits(t) == Some(d));
    let mut value: usize = 0;
    let mut i: usize = start;
    assert(d.subrange(0, 0) =~= Seq::<char>::empty());
    while i < to
        invariant
            start <= i <= to <= s@.len(),
            d == s@.subrange(start as int, to as int),
            t == s@.subrange(from as int, to as int),
            unsigned_digits(t) == Some(d),
            forall|q: int| start <= q < i ==> is_digit(#[trigger] s@[q]),
            value as int == digits_value(d.subrange(0, i - start)),
        decreases to - i,
    {
        let c = s[i];
        if !crate::text::char_is_digit(c) {
            assert(d[i - start] == c);
            assert(!is_digit(d[i - start]));
            return None;
        }
        let digit: usize = (c as u32 - 48) as usize;
        proof {
            assert(d.subrange(0, i - start + 1).drop_last() =~= d.subrange(0, i - start));
            assert(d.subrange(0, i - start + 1).last() == c);
        }
        if value > (usize::MAX - digit) / 10 {
            proof {
                assert(value * 10 + digit > usize::MAX) by (nonlinear_arith)
                    requires
                        value > (usize::MAX - digit) / 10,
                        digit <= 9,
                ;
                if all_digits(d) {
                    lemma_digits_value_grows(d, i - start + 1);
                }
            }
            return None;
        }
        value = value * 10 + digit;
        i += 1;
    }
    proof {
        assert(d.subrange(0, i - start) =~= d);
        assert(all_digits(d)) by {
            assert forall|q: int| 0 <= q < d.len() implies is_digit(#[trigger] d[q]) by {
                assert(d[q] == s@[start + q]);
            }
        }
    }
    Some(value)
}

/// `u32::from_str_radix(.., 16)` on the six characters of `s` from `at`.
fn parse_hex_chunk(s: &Vec<char>, at: usize) -> (r: Option<u32>)
    requires
        at + 6 <= s@.len(),
    ensures
        match (r, hex_chunk(s@.subrange(at as int, at + 6))) {
            (Some(v), Some(w)) => v as int == w,
            (None, None) => true,
            _ => false,
        },
{
    let ghost c = s@.subrange(at as int, at + 6);
    let _n = s.len();
    let end = at + 6;
    let start = if s[at] == '+' { at + 1 } else { at };
    let ghost d = s@.subrange(start as int, end as int);
    assert(c[0] == s@[at as int]);
    assert(d =~= chunk_digits(c));
    let mut value: u32 = 0;
    let mut i: usize = start;
    assert(d.subrange(0, 0) =~= Seq::<char>::empty());
    assert(pow16(0) == 1);
    assert(pow16(6) == 16777216) by {
        reveal_with_fuel(pow16, 7);
    }
    while i < end
        invariant
            start <= i <= end,
            end == at + 6,
            end <= s@.len(),
            end - start <= 6,
            c == s@.subrange(at as int, end as int),
            d == s@.subrange(start as int, end as int),
            d == chunk_digits(c),
            forall|q: int| start <= q < i ==> is_hex_digit(#[trigger] s@[q]),
            value as int == hex_value(d.subrange(0, i - start)),
            value < pow16((i - start) as nat),
            pow16(6) == 16777216,
        decreases end - i,
    {
        let ch = s[i];
        if !is_hex_digit_exec(ch) {
            assert(d[i - start] == ch);
            assert(!is_hex_digit(d[i - start]));
            assert(c == s@.subrange(at as int, at + 6));
            assert(hex_chunk(c) is None);
            return None;
        }
        let digit = hex_digit_value_exec(ch);
        proof {
            let k = (i - start) as nat;
            assert(pow16(k + 1) == 16 * pow16(k));
            assert(value * 16 + digit < pow16(k + 1)) by (nonlinear_arith)
                requires
                    value < pow16(k),
                    digit < 16,
                    pow16(k + 1) == 16 * pow16(k),
            ;
            assert(pow16(k + 1) <= 16777216) by {
                reveal_with_fuel(pow16, 7);
            }
            assert(d.subrange(0, i - start + 1).drop_last() =~= d.subrange(0, i - start));
            assert(d.subrange(0, i - start + 1).last() == ch);
        }
        value = value * 16 + digit;
        i += 1;
    }
    proof {
        assert(d.subrange(0, i - start) =~= d);
        assert forall|q: int| 0 <= q < d.len() implies is_hex_digit(#[trigger] d[q]) by {
            assert(d[q] == s@[start + q]);
        }
    }
    Some(value)
}

fn is_ascii_char(c: char) -> (r: bool)
    ensures
        r == ((c as int) < 128),
{
    let v = c as u32;
    v < 128
}

fn invalid_value() -> (e: BasicError)
    ensures
        e.code == ErrorCode::InvalidValue,
        e.line is None,
        e.detail is None,
{
    BasicError::new(ErrorCode::InvalidValue)
}

impl Texture {
    /// Reads a texture from a saved screen `WxH:RRGGBB...`; an invalid value
    /// error when the text is malformed, the digits do not fill `W*H` pixels
    /// or a side is empty.
    pub fn from_gscr(screen: &str) -> (r: Result<Texture, BasicError>)
        requires
            !gscr_read_panics(screen@),
        ensures
            match (r, parsed_gscr(screen@)) {
                (Ok(t), Some((w, h, px))) => t.width as int == w && t.height as int == h && t.pixels@ == px,
                (Err(e), None) => e.code == ErrorCode::InvalidValue && e.line is None && e.detail is None,
                _ => false,
            },
    {
        let s = str_chars(screen);
        let n = s.len();
        assert(s@.subrange(0, n as int) =~= s@);
        let colon = match find_char(&s, n, ':') {
            Some(i) => i,
            None => return Err(invalid_value()),
        };
        let ghost res = s@.subrange(0, colon as int);
        let ghost hex = s@.subrange(colon + 1, n as int);
        let x = match find_char(&s, colon, 'x') {
            Some(j) => j,
            None => return Err(invalid_value()),
        };
        assert(res.subrange(0, x as int) =~= s@.subrange(0, x as int));
        assert(res.subrange(x + 1, res.len() as int) =~= s@.subrange(x + 1, colon as int));
        let w = match parse_usize(&s, 0, x) {
            Some(v) => v,
            None => return Err(invalid_value()),
        };
        let h = match parse_usize(&s, x + 1, colon) {
            Some(v) => v,
            None => return Err(invalid_value()),
        };
        assert(gscr_size(screen@) == Some((w as int, h as int, hex)));
        let wh = match w.checked_mul(h) {
            Some(v) => v,
            None => {
                assert(w * h * 6 > usize::MAX) by (nonlinear_arith)
                    requires
                        w * h > usize::MAX,
                ;
                return Err(invalid_value());
            },
        };
        let total = match wh.checked_mul(6) {
            Some(v) => v,
            None => return Err(invalid_value()),
        };
        let mut k = colon + 1;
        while k < n
            invariant
                colon + 1 <= k <= n,
                n == s@.len(),
                hex == s@.subrange(colon + 1, n as int),
                s@ == screen@,
                gscr_size(screen@) == Some((w as int, h as int, hex)),
                forall|q: int| colon + 1 <= q < k ==> (#[trigger] s@[q] as int) < 128,
            decreases n - k,
        {
            if !is_ascii_char(s[k]) {
                assert(hex[k - colon - 1] == s@[k as int]);
                return Err(invalid_value());
            }
            k += 1;
        }
        assert(is_ascii_seq(hex)) by {
            assert forall|q: int| 0 <= q < hex.len() implies (#[trigger] hex[q] as int) < 128 by {
                assert(hex[q] == s@[colon + 1 + q]);
            }
        }
        proof {
            lemma_ascii_byte_off(hex, hex.len() as int);
        }
        if n - (colon + 1) != total {
            return Err(invalid_value());
        }
        let base = colon + 1;
        let mut pixels: Vec<u32> = Vec::new();
        let mut c: usize = 0;
        while c < wh
            invariant
                c <= wh,
                wh == w * h,
                base == colon + 1,
                base <= n,
                n == s@.len(),
                hex == s@.subrange(base as int, n as int),
                hex.len() == 6 * wh,
                s@ == screen@,
                gscr_size(screen@) == Some((w as int, h as int, hex)),
                is_ascii_seq(hex),
                byte_off(hex, hex.len() as int) == w * h * 6,
                pixels@.len() == c,
                forall|q: int| 0 <= q < c ==> #[trigger] hex_chunk(chunk(hex, q)) is Some,
                forall|q: int| 0 <= q < c ==> pixels@[q] == (hex_chunk(chunk(hex, q))->0) as u32,
            decreases wh - c,
        {
            assert(6 * c + 6 <= 6 * wh) by (nonlinear_arith)
                requires
                    c < wh,
            ;
            let at = base + 6 * c;
            assert(chunk(hex, c as int) =~= s@.subrange(at as int, at + 6));
            match parse_hex_chunk(&s, at) {
                Some(v) => {
                    pixels.push(v);
                },
                None => {
                    return Err(invalid_value());
                },
            }
            c += 1;
        }
        if w == 0 || h == 0 {
            return Err(invalid_value());
        }
        assert(pixels@ =~= Seq::new(wh as nat, |q: int| hex_chunk(chunk(hex, q))->0 as u32));
        Ok(Texture { width: w, height: h, pixels })
    }
}

} // verus!
