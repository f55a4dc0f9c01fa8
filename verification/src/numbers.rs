//! The canonical spelling of decimal number literals in program text: no
//! sign `+`, no leading zeros in the integer part, at most fourteen
//! fraction digits rounded half to even, no trailing fraction zeros.
use vstd::prelude::*;
use crate::text::{all_digits, digits_value, is_digit, str_chars, string_from_chars};

verus! {

/// The number of fraction digits a canonical literal keeps.
pub const FRACTION_DIGITS: usize = 14;

/// `s` without its leading run of `c` (`str::trim_start_matches`).
pub open spec fn skip_leading(s: Seq<char>, c: char) -> Seq<char>
    decreases s.len(),
{
    if s.len() > 0 && s[0] == c {
        skip_leading(s.drop_first(), c)
    } else {
        s
    }
}

/// `s` without its trailing run of `c` (`str::trim_end_matches`).
pub open spec fn drop_trailing(s: Seq<char>, c: char) -> Seq<char>
    decreases s.len(),
{
    if s.len() > 0 && s.last() == c {
        drop_trailing(s.drop_last(), c)
    } else {
        s
    }
}

/// A digit string without leading zeros; `0` when nothing else is left.
pub open spec fn without_leading_zeros(s: Seq<char>) -> Seq<char> {
    let t = skip_leading(s, '0');
    if t.len() == 0 {
        seq!['0']
    } else {
        t
    }
}

/// `n` zero digits.
pub open spec fn zeros(n: nat) -> Seq<char> {
    Seq::new(n, |i: int| '0')
}

/// The number of `9` digits at the end of `d`.
pub open spec fn trailing_nines(d: Seq<char>) -> nat
    decreases d.len(),
{
    if d.len() > 0 && d.last() == '9' {
        trailing_nines(d.drop_last()) + 1
    } else {
        0
    }
}

/// The digit one above `c`.
pub open spec fn next_digit(c: char) -> char {
    ((c as u32) + 1) as char
}

/// The digit string one greater than `d`, of the same length unless every
/// digit of `d` is a `9`.
pub open spec fn incremented(d: Seq<char>) -> Seq<char> {
    let t = trailing_nines(d);
    if t == d.len() {
        seq!['1'] + zeros(t)
    } else {
        let k = d.len() - t - 1;
        d.subrange(0, k).push(next_digit(d[k])) + zeros(t)
    }
}

/// Dropping the digits `dropped` after `kept` rounds `kept` up: more than
/// half a unit is dropped, or exactly half and the last kept digit is odd.
pub open spec fn rounds_up_half_even(kept: Seq<char>, dropped: Seq<char>) -> bool {
    &&& dropped.len() > 0
    &&& (dropped[0] > '5' || (dropped[0] == '5' && ((exists|i: int|
        1 <= i < dropped.len() && #[trigger] dropped[i] != '0') || (kept.len() > 0 && ((kept.last() as int)
        - ('0' as int)) % 2 == 1))))
}

/// The integer and fraction digits of `int_part.frac_part` plus one unit
/// of the last of `frac_width` fraction digits.
pub open spec fn incremented_parts(int_part: Seq<char>, frac_part: Seq<char>, frac_width: int) -> (Seq<char>, Seq<char>) {
    let inc = incremented(int_part + frac_part);
    let split = if inc.len() > frac_width {
        inc.len() - frac_width
    } else {
        0
    };
    (without_leading_zeros(inc.subrange(0, split)), inc.subrange(split, inc.len() as int))
}

/// The integer and fraction digits once the fraction is cut to fourteen
/// digits, rounding half to even.
pub open spec fn rounded_parts(int_part: Seq<char>, frac: Seq<char>) -> (Seq<char>, Seq<char>) {
    if frac.len() > 14 {
        let kept = frac.subrange(0, 14);
        if rounds_up_half_even(kept, frac.subrange(14, frac.len() as int)) {
            incremented_parts(int_part, kept, 14)
        } else {
            (int_part, kept)
        }
    } else {
        (int_part, frac)
    }
}

/// The index of the first `.` of `s`.
pub open spec fn first_dot(s: Seq<char>) -> Option<int> {
    if exists|i: int| 0 <= i < s.len() && s[i] == '.' {
        Some(choose|i: int| 0 <= i < s.len() && s[i] == '.' && forall|j: int| 0 <= j < i ==> s[j] != '.')
    } else {
        None
    }
}

/// The sign of a literal without leading `+`, and its integer digits and
/// fraction digits on either side of the first `.`, when it has one.
pub open spec fn signed_parts(text: Seq<char>) -> (bool, Seq<char>, Option<Seq<char>>) {
    let negative = text.len() > 0 && text[0] == '-';
    let unsigned = if negative {
        text.drop_first()
    } else {
        text
    };
    match first_dot(unsigned) {
        Some(i) => (negative, unsigned.subrange(0, i), Some(unsigned.subrange(i + 1, unsigned.len() as int))),
        None => (negative, unsigned, None),
    }
}

/// The parts form a plain decimal: digits only, and some digit on one side
/// of the point.
pub open spec fn plain_decimal(int_raw: Seq<char>, frac_raw: Option<Seq<char>>) -> bool {
    &&& all_digits(int_raw)
    &&& (match frac_raw {
        Some(f) => all_digits(f),
        None => true,
    })
    &&& !(int_raw.len() == 0 && (match frac_raw {
        Some(f) => f.len() == 0,
        None => true,
    }))
}

/// The literal written from its sign, integer digits and fraction digits:
/// trailing fraction zeros dropped, and zero without a sign.
pub open spec fn assembled(negative: bool, int_part: Seq<char>, kept: Seq<char>) -> Seq<char> {
    let frac_part = drop_trailing(kept, '0');
    if int_part == seq!['0'] && frac_part.len() == 0 {
        seq!['0']
    } else {
        (if negative {
            seq!['-']
        } else {
            Seq::<char>::empty()
        }) + int_part + (if frac_part.len() > 0 {
            seq!['.'] + frac_part
        } else {
            Seq::<char>::empty()
        })
    }
}

/// The canonical spelling of a decimal literal `raw`; a text that is not a
/// plain decimal (digits with at most one `.`, after an optional sign)
/// comes back without its leading `+` signs.
pub open spec fn canonical_decimal(raw: Seq<char>) -> Seq<char> {
    let text = skip_leading(raw, '+');
    let (negative, int_raw, frac_raw) = signed_parts(text);
    if !plain_decimal(int_raw, frac_raw) {
        text
    } else {
        let frac = match frac_raw {
            Some(f) => f,
            None => Seq::<char>::empty(),
        };
        let (int_part, kept) = rounded_parts(without_leading_zeros(int_raw), frac);
        assembled(negative, int_part, kept)
    }
}

// ---------------------------------------------------------------------------
// Lemmas
// ---------------------------------------------------------------------------

proof fn lemma_skip_leading_step(s: Seq<char>, c: char, i: int)
    requires
        0 <= i < s.len(),
        s[i] == c,
    ensures
        skip_leading(s.subrange(i, s.len() as int), c) == skip_leading(s.subrange(i + 1, s.len() as int), c),
{
    assert(s.subrange(i, s.len() as int).drop_first() =~= s.subrange(i + 1, s.len() as int));
}

proof fn lemma_drop_trailing_step(s: Seq<char>, c: char, n: int)
    requires
        0 < n <= s.len(),
        s[n - 1] == c,
    ensures
        drop_trailing(s.subrange(0, n), c) == drop_trailing(s.subrange(0, n - 1), c),
{
    assert(s.subrange(0, n).drop_last() =~= s.subrange(0, n - 1));
}

pub(crate) proof fn lemma_skip_leading_suffix(s: Seq<char>, c: char)
    ensures
        exists|k: int| 0 <= k <= s.len() && skip_leading(s, c) == s.subrange(k, s.len() as int),
    decreases s.len(),
{
    if s.len() > 0 && s[0] == c {
        lemma_skip_leading_suffix(s.drop_first(), c);
        let k = choose|k: int| 0 <= k <= s.drop_first().len() && skip_leading(s.drop_first(), c) == s.drop_first().subrange(k, s.drop_first().len() as int);
        assert(s.drop_first().subrange(k, s.drop_first().len() as int) =~= s.subrange(k + 1, s.len() as int));
    } else {
        assert(s.subrange(0, s.len() as int) =~= s);
    }
}


// ---------------------------------------------------------------------------
// Executable parts
// ---------------------------------------------------------------------------

/// The index after the leading run of `c` in `s`, from `from` on.
fn leading_run_end(s: &[char], from: usize, c: char) -> (r: usize)
    requires
        from <= s@.len(),
    ensures
        from <= r <= s@.len(),
        skip_leading(s@.subrange(from as int, s@.len() as int), c) == s@.subrange(r as int, s@.len() as int),
        forall|j: int| from <= j < r ==> s@[j] == c,
{
    let mut i = from;
    while i < s.len() && s[i] == c
        invariant
            from <= i <= s@.len(),
            skip_leading(s@.subrange(from as int, s@.len() as int), c) == skip_leading(
                s@.subrange(i as int, s@.len() as int),
                c,
            ),
            forall|j: int| from <= j < i ==> s@[j] == c,
        decreases s@.len() - i,
    {
        proof {
            lemma_skip_leading_step(s@, c, i as int);
        }
        i += 1;
    }
    proof {
        let rest = s@.subrange(i as int, s@.len() as int);
        if rest.len() > 0 {
            assert(rest[0] == s@[i as int]);
        }
    }
    i
}

/// The length of `s` without its trailing run of `c`.
fn trailing_run_start(s: &[char], c: char) -> (r: usize)
    ensures
        r <= s@.len(),
        drop_trailing(s@, c) == s@.subrange(0, r as int),
        forall|j: int| r <= j < s@.len() ==> s@[j] == c,
{
    let mut n = s.len();
    assert(s@.subrange(0, n as int) =~= s@);
    while n > 0 && s[n - 1] == c
        invariant
            n <= s@.len(),
            drop_trailing(s@, c) == drop_trailing(s@.subrange(0, n as int), c),
            forall|j: int| n <= j < s@.len() ==> s@[j] == c,
        decreases n,
    {
        proof {
            lemma_drop_trailing_step(s@, c, n as int);
        }
        n -= 1;
    }
    proof {
        let p = s@.subrange(0, n as int);
        if p.len() > 0 {
            assert(p.last() == s@[n - 1]);
        }
    }
    n
}

/// The digits `text` without leading zeros, `0` when nothing else is left.
pub fn trim_leading_decimal_zeros(text: &str) -> (r: String)
    ensures
        r@ == without_leading_zeros(text@),
{
    let chars = str_chars(text);
    let start = leading_run_end(&chars, 0, '0');
    assert(chars@.subrange(0, chars@.len() as int) =~= text@);
    if start == chars.len() {
        let mut r = String::new();
        crate::text::push_char(&mut r, '0');
        assert(r@ =~= seq!['0']);
        r
    } else {
        let rest = crate::text::chars_range(&chars, start, chars.len());
        string_from_chars(&rest)
    }
}

/// Cutting `dropped` off after the digits `kept` rounds up, half to even.
pub fn decimal_rounds_up_half_even(kept: &str, dropped: &str) -> (r: bool)
    requires
        all_digits(kept@),
    ensures
        r == rounds_up_half_even(kept@, dropped@),
{
    let k = str_chars(kept);
    let d = str_chars(dropped);
    if d.len() == 0 {
        return false;
    }
    let first = d[0];
    if first > '5' {
        return true;
    }
    if first != '5' {
        return false;
    }
    let mut i: usize = 1;
    while i < d.len()
        invariant
            1 <= i <= d@.len(),
            d@ == dropped@,
            d@[0] == '5',
            forall|j: int| 1 <= j < i ==> d@[j] == '0',
        decreases d@.len() - i,
    {
        if d[i] != '0' {
            assert(dropped@[i as int] != '0');
            return true;
        }
        i += 1;
    }
    assert(!(exists|j: int| 1 <= j < d@.len() && #[trigger] d@[j] != '0'));
    if k.len() == 0 {
        return false;
    }
    let digit = k[k.len() - 1];
    assert(is_digit(k@[k@.len() - 1]));
    ((digit as u32) - ('0' as u32)) % 2 == 1
}

/// `trailing_nines` counts exactly the `9`s after position `k`.
proof fn lemma_trailing_nines_at(d: Seq<char>, k: int)
    requires
        0 <= k <= d.len(),
        forall|j: int| k <= j < d.len() ==> d[j] == '9',
        k == 0 || d[k - 1] != '9',
    ensures
        trailing_nines(d) == d.len() - k,
    decreases d.len(),
{
    if d.len() > k {
        let p = d.drop_last();
        assert forall|j: int| k <= j < p.len() implies p[j] == '9' by {
            assert(p[j] == d[j]);
        }
        if k > 0 {
            assert(p[k - 1] == d[k - 1]);
        }
        lemma_trailing_nines_at(p, k);
    }
}

fn increment_digits(digits: &mut Vec<char>)
    requires
        all_digits(old(digits)@),
    ensures
        final(digits)@ == incremented(old(digits)@),
{
    let ghost d = digits@;
    let mut index = digits.len();
    let mut carry = true;
    while carry && index > 0
        invariant
            index <= d.len(),
            digits@.len() == d.len(),
            all_digits(d),
            carry ==> digits@ == d.subrange(0, index as int) + zeros((d.len() - index) as nat),
            carry ==> forall|j: int| index <= j < d.len() ==> d[j] == '9',
            !carry ==> digits@ == incremented(d),
        decreases index + (if carry { 1int } else { 0int }),
    {
        index -= 1;
        if digits[index] == '9' {
            proof {
                assert(digits@[index as int] == d[index as int]);
            }
            digits.set(index, '0');
            assert(digits@ =~= d.subrange(0, index as int) + zeros((d.len() - index) as nat));
        } else {
            let c = digits[index];
            assert(c == d[index as int]);
            assert(is_digit(c));
            let next = crate::text::char_from_ascii_code(c as u32 + 1);
            digits.set(index, next);
            carry = false;
            proof {
                lemma_trailing_nines_at(d, index + 1);
                assert(digits@ =~= incremented(d));
            }
        }
    }
    if carry {
        proof {
            lemma_trailing_nines_at(d, 0);
        }
        digits.insert(0, '1');
        assert(digits@ =~= incremented(d));
    }
}

/// `int_part.frac_part` plus one unit of its last fraction digit, split
/// again after `frac_width` fraction digits.
pub fn increment_fixed_decimal(int_part: &str, frac_part: &str, frac_width: usize) -> (r: (String, String))
    requires
        all_digits(int_part@),
        all_digits(frac_part@),
    ensures
        (r.0@, r.1@) == incremented_parts(int_part@, frac_part@, frac_width as int),
{
    let mut digits = str_chars(int_part);
    crate::text::extend_with_str(&mut digits, frac_part);
    assert(all_digits(digits@));
    increment_digits(&mut digits);
    let split = if digits.len() > frac_width {
        digits.len() - frac_width
    } else {
        0
    };
    let int_digits = string_from_chars(&crate::text::chars_range(&digits, 0, split));
    let frac_digits = string_from_chars(&crate::text::chars_range(&digits, split, digits.len()));
    (trim_leading_decimal_zeros(int_digits.as_str()), frac_digits)
}

fn digits_between(s: &[char], from: usize, to: usize) -> (r: bool)
    requires
        from <= to <= s@.len(),
    ensures
        r == all_digits(s@.subrange(from as int, to as int)),
{
    let mut i = from;
    while i < to
        invariant
            from <= i <= to <= s@.len(),
            all_digits(s@.subrange(from as int, i as int)),
        decreases to - i,
    {
        if !crate::text::char_is_digit(s[i]) {
            assert(!is_digit(s@.subrange(from as int, to as int)[i - from]));
            return false;
        }
        i += 1;
        assert(all_digits(s@.subrange(from as int, i as int))) by {
            assert forall|j: int| 0 <= j < i - from implies is_digit(#[trigger] s@.subrange(from as int, i as int)[j]) by {
                if j < i - 1 - from {
                    assert(s@.subrange(from as int, i as int)[j] == s@.subrange(from as int, i - 1)[j]);
                }
            }
        }
    }
    true
}

/// The first `.` of `s` at or after `from`.
fn find_dot(s: &[char], from: usize) -> (r: Option<usize>)
    requires
        from <= s@.len(),
    ensures
        match r {
            Some(i) => from <= i < s@.len() && s@[i as int] == '.' && forall|j: int| from <= j < i ==> s@[j] != '.',
            None => forall|j: int| from <= j < s@.len() ==> s@[j] != '.',
        },
{
    let mut i = from;
    while i < s.len()
        invariant
            from <= i <= s@.len(),
            forall|j: int| from <= j < i ==> s@[j] != '.',
        decreases s@.len() - i,
    {
        if s[i] == '.' {
            return Some(i);
        }
        i += 1;
    }
    None
}

pub(crate) proof fn lemma_first_dot(u: Seq<char>, i: Option<int>)
    requires
        match i {
            Some(k) => 0 <= k < u.len() && u[k] == '.' && forall|j: int| 0 <= j < k ==> u[j] != '.',
            None => forall|j: int| 0 <= j < u.len() ==> u[j] != '.',
        },
    ensures
        first_dot(u) == i,
{
    match i {
        Some(k) => {
            assert(exists|j: int| 0 <= j < u.len() && u[j] == '.');
            let c = choose|j: int| 0 <= j < u.len() && u[j] == '.' && forall|m: int| 0 <= m < j ==> u[m] != '.';
            assert(0 <= k < u.len() && u[k] == '.' && forall|m: int| 0 <= m < k ==> u[m] != '.');
            assert(c == k) by {
                if c < k {
                    assert(u[c] != '.');
                } else if c > k {
                    assert(u[k] != '.');
                }
            }
        },
        None => {},
    }
}

/// The integer and fraction digits with the fraction cut to fourteen
/// digits, rounding half to even.
fn round_fraction(int_part: String, frac: Vec<char>) -> (r: (String, Vec<char>))
    requires
        all_digits(int_part@),
        all_digits(frac@),
    ensures
        (r.0@, r.1@) == rounded_parts(int_part@, frac@),
{
    let mut int_part = int_part;
    let mut frac = frac;
    if frac.len() > FRACTION_DIGITS {
        let kept = crate::text::chars_range(&frac, 0, FRACTION_DIGITS);
        let dropped = crate::text::chars_range(&frac, FRACTION_DIGITS, frac.len());
        let kept_text = string_from_chars(&kept);
        let dropped_text = string_from_chars(&dropped);
        assert(all_digits(kept@));
        let round_up = decimal_rounds_up_half_even(kept_text.as_str(), dropped_text.as_str());
        if round_up {
            let (i2, f2) = increment_fixed_decimal(int_part.as_str(), kept_text.as_str(), FRACTION_DIGITS);
            int_part = i2;
            frac = str_chars(f2.as_str());
        } else {
            frac = kept;
        }
    }
    (int_part, frac)
}

/// The sign, integer digits and fraction digits of a literal.
fn split_signed(text: &[char]) -> (r: (bool, Vec<char>, Option<Vec<char>>))
    ensures
        r.0 == signed_parts(text@).0,
        r.1@ == signed_parts(text@).1,
        match (r.2, signed_parts(text@).2) {
            (Some(f), Some(g)) => f@ == g,
            (None, None) => true,
            _ => false,
        },
{
    let ghost t = text@;
    let negative = text.len() > 0 && text[0] == '-';
    let u0: usize = if negative { 1 } else { 0 };
    let ghost u = if negative { t.drop_first() } else { t };
    assert(u =~= t.subrange(u0 as int, t.len() as int));
    let dot = find_dot(text, u0);
    proof {
        let k = match dot {
            Some(d) => Some(d - u0),
            None => None,
        };
        assert forall|j: int| 0 <= j < u.len() implies u[j] == t[j + u0] by {}
        lemma_first_dot(u, k);
    }
    match dot {
        Some(d) => {
            let int_raw = crate::text::chars_range(text, u0, d);
            let frac_raw = crate::text::chars_range(text, d + 1, text.len());
            assert(int_raw@ =~= u.subrange(0, d - u0));
            assert(frac_raw@ =~= u.subrange(d - u0 + 1, u.len() as int));
            (negative, int_raw, Some(frac_raw))
        },
        None => {
            let int_raw = crate::text::chars_range(text, u0, text.len());
            (negative, int_raw, None)
        },
    }
}

/// Writes the literal from its parts.
fn assemble(negative: bool, int_part: &String, kept: &Vec<char>) -> (r: String)
    ensures
        r@ == assembled(negative, int_part@, kept@),
{
    let end = trailing_run_start(kept, '0');
    let int_chars = str_chars(int_part.as_str());
    let mut out: Vec<char> = Vec::new();
    if int_chars.len() == 1 && int_chars[0] == '0' && end == 0 {
        assert(int_part@ =~= seq!['0']);
        out.push('0');
        assert(out@ =~= seq!['0']);
        return string_from_chars(&out);
    }
    proof {
        if int_part@ == seq!['0'] {
            assert(int_chars@.len() == 1 && int_chars@[0] == '0');
        }
    }
    if negative {
        out.push('-');
    }
    crate::text::extend_with_chars(&mut out, &int_chars);
    if end > 0 {
        out.push('.');
        crate::text::extend_with_range(&mut out, kept, 0, end);
    }
    let r = string_from_chars(&out);
    assert(r@ =~= assembled(negative, int_part@, kept@));
    r
}

/// The canonical spelling of a decimal literal.
#[verifier::rlimit(30)]
pub fn canonicalize_decimal_number(raw: &str) -> (r: String)
    ensures
        r@ == canonical_decimal(raw@),
{
    let chars = str_chars(raw);
    let start = leading_run_end(&chars, 0, '+');
    assert(chars@.subrange(0, chars@.len() as int) =~= raw@);
    let text = crate::text::chars_range(&chars, start, chars.len());
    let (negative, int_raw, frac_raw) = split_signed(&text);
    let int_ok = digits_between(&int_raw, 0, int_raw.len());
    assert(int_raw@.subrange(0, int_raw@.len() as int) =~= int_raw@);
    let (frac_ok, frac_empty) = match &frac_raw {
        Some(f) => {
            assert(f@.subrange(0, f@.len() as int) =~= f@);
            (digits_between(f, 0, f.len()), f.len() == 0)
        },
        None => (true, true),
    };
    if !int_ok || !frac_ok || (int_raw.len() == 0 && frac_empty) {
        return string_from_chars(&text);
    }
    let int_text = string_from_chars(&int_raw);
    let int_part = trim_leading_decimal_zeros(int_text.as_str());
    proof {
        lemma_skip_leading_suffix(int_raw@, '0');
    }
    let frac = match frac_raw {
        Some(f) => f,
        None => Vec::new(),
    };
    let (int_part, kept) = round_fraction(int_part, frac);
    assemble(negative, &int_part, &kept)
}

} // verus!
