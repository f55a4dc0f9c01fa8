//! Where number literals start and end in program text that may hold the
//! cursor marker.
use vstd::prelude::*;
use crate::separators::CURSOR_MARKER;
use crate::text::is_digit;

verus! {

/// The first character at or after `index`, skipping cursor markers when
/// they are allowed.
pub open spec fn next_unmarked(chars: Seq<char>, index: int, allow_marker: bool) -> Option<char>
    decreases chars.len() - index,
{
    if index < 0 || index >= chars.len() {
        None
    } else if allow_marker && chars[index] == CURSOR_MARKER {
        next_unmarked(chars, index + 1, allow_marker)
    } else {
        Some(chars[index])
    }
}

/// A number literal starts at `index`: a digit, or a `.` before a digit,
/// possibly after the cursor marker.
pub open spec fn number_starts_at(chars: Seq<char>, index: int, allow_marker: bool) -> bool {
    let probe = if allow_marker && 0 <= index < chars.len() && chars[index] == CURSOR_MARKER {
        index + 1
    } else {
        index
    };
    &&& 0 <= probe < chars.len()
    &&& (is_digit(chars[probe]) || (chars[probe] == '.' && (match next_unmarked(chars, probe + 1, allow_marker) {
        Some(c) => is_digit(c),
        None => false,
    })))
}

/// The end of the run from `i` of digits, of `.` when `dots`, and of
/// cursor markers when they are allowed.
pub open spec fn run_end(chars: Seq<char>, i: int, allow_marker: bool, dots: bool) -> int
    decreases chars.len() - i,
{
    if 0 <= i < chars.len() && ((allow_marker && chars[i] == CURSOR_MARKER) || is_digit(chars[i]) || (dots
        && chars[i] == '.')) {
        run_end(chars, i + 1, allow_marker, dots)
    } else {
        i
    }
}

/// The end of the run of cursor markers from `i`, when they are allowed.
pub open spec fn markers_end(chars: Seq<char>, i: int, allow_marker: bool) -> int
    decreases chars.len() - i,
{
    if 0 <= i < chars.len() && allow_marker && chars[i] == CURSOR_MARKER {
        markers_end(chars, i + 1, allow_marker)
    } else {
        i
    }
}

/// A cursor marker stands in `chars[a..b]`.
pub open spec fn marker_between(chars: Seq<char>, a: int, b: int) -> bool {
    exists|k: int| a <= k < b && 0 <= k < chars.len() && chars[k] == CURSOR_MARKER
}

/// The end of the number literal from `start` (digits and points, then an
/// optional exponent with an optional sign), and whether the cursor marker
/// stands inside it.
pub open spec fn number_token(chars: Seq<char>, start: int, allow_marker: bool) -> (int, bool) {
    let m = run_end(chars, start, allow_marker, true);
    if 0 <= m < chars.len() && (chars[m] == 'e' || chars[m] == 'E') {
        let a = markers_end(chars, m + 1, allow_marker);
        let b = if 0 <= a < chars.len() && (chars[a] == '+' || chars[a] == '-') {
            a + 1
        } else {
            a
        };
        let e = run_end(chars, b, allow_marker, false);
        (e, marker_between(chars, start, m) || marker_between(chars, m + 1, a) || marker_between(chars, b, e))
    } else {
        (m, marker_between(chars, start, m))
    }
}

/// The first character at or after `index` that is not a cursor marker.
pub fn next_non_marker(chars: &[char], index: usize, allow_cursor_marker: bool) -> (r: Option<char>)
    ensures
        r == next_unmarked(chars@, index as int, allow_cursor_marker),
{
    let mut i = index;
    while i < chars.len()
        invariant
            index <= i,
            next_unmarked(chars@, index as int, allow_cursor_marker) == next_unmarked(chars@, i as int, allow_cursor_marker),
        decreases chars@.len() - i,
    {
        let ch = chars[i];
        if allow_cursor_marker && ch == CURSOR_MARKER {
            i += 1;
            continue;
        }
        return Some(ch);
    }
    None
}

/// A number literal starts at `index`.
pub fn is_number_start_at(chars: &[char], index: usize, allow_cursor_marker: bool) -> (r: bool)
    ensures
        r == number_starts_at(chars@, index as int, allow_cursor_marker),
{
    let mut probe = index;
    if allow_cursor_marker && probe < chars.len() && chars[probe] == CURSOR_MARKER {
        probe += 1;
    }
    if probe >= chars.len() {
        return false;
    }
    let ch = chars[probe];
    crate::text::char_is_digit(ch) || (ch == '.' && match next_non_marker(chars, probe + 1, allow_cursor_marker) {
        Some(next) => crate::text::char_is_digit(next),
        None => false,
    })
}

/// Scans the run of `run_end` from `from`: its end, and whether a cursor
/// marker stands in it.
fn scan_run(chars: &[char], from: usize, allow_cursor_marker: bool, dots: bool) -> (r: (usize, bool))
    requires
        from <= chars@.len(),
    ensures
        r.0 == run_end(chars@, from as int, allow_cursor_marker, dots),
        from <= r.0 <= chars@.len(),
        r.1 == marker_between(chars@, from as int, r.0 as int),
{
    let mut i = from;
    let mut marker = false;
    while i < chars.len() && ((allow_cursor_marker && chars[i] == CURSOR_MARKER) || crate::text::char_is_digit(
        chars[i],
    ) || (dots && chars[i] == '.'))
        invariant
            from <= i <= chars@.len(),
            run_end(chars@, from as int, allow_cursor_marker, dots) == run_end(chars@, i as int, allow_cursor_marker, dots),
            marker == marker_between(chars@, from as int, i as int),
        decreases chars@.len() - i,
    {
        if chars[i] == CURSOR_MARKER {
            marker = true;
        }
        proof {
            if marker_between(chars@, from as int, i + 1) && !marker_between(chars@, from as int, i as int) {
                let k = choose|k: int| from <= k < i + 1 && 0 <= k < chars@.len() && chars@[k] == CURSOR_MARKER;
                assert(k == i);
            }
            if chars@[i as int] == CURSOR_MARKER {
                assert(marker_between(chars@, from as int, i + 1));
            }
            if marker_between(chars@, from as int, i as int) {
                let k = choose|k: int| from <= k < i && 0 <= k < chars@.len() && chars@[k] == CURSOR_MARKER;
                assert(marker_between(chars@, from as int, i + 1));
            }
        }
        i += 1;
    }
    (i, marker)
}

fn skip_markers(chars: &[char], from: usize, allow_cursor_marker: bool) -> (r: (usize, bool))
    requires
        from <= chars@.len(),
    ensures
        r.0 == markers_end(chars@, from as int, allow_cursor_marker),
        from <= r.0 <= chars@.len(),
        r.1 == marker_between(chars@, from as int, r.0 as int),
{
    let mut i = from;
    while i < chars.len() && allow_cursor_marker && chars[i] == CURSOR_MARKER
        invariant
            from <= i <= chars@.len(),
            markers_end(chars@, from as int, allow_cursor_marker) == markers_end(chars@, i as int, allow_cursor_marker),
            i > from ==> marker_between(chars@, from as int, i as int),
            i == from ==> !marker_between(chars@, from as int, i as int),
        decreases chars@.len() - i,
    {
        assert(marker_between(chars@, from as int, i + 1)) by {
            assert(chars@[i as int] == CURSOR_MARKER);
        }
        i += 1;
    }
    (i, i > from)
}

/// The end of the number literal that starts at `start`, and whether the
/// cursor marker stands inside it.
pub fn scan_number_token(chars: &[char], start: usize, allow_cursor_marker: bool) -> (r: (usize, bool))
    requires
        start <= chars@.len(),
    ensures
        r.0 as int == number_token(chars@, start as int, allow_cursor_marker).0,
        r.1 == number_token(chars@, start as int, allow_cursor_marker).1,
{
    let (m, in_mantissa) = scan_run(chars, start, allow_cursor_marker, true);
    if m < chars.len() && (chars[m] == 'e' || chars[m] == 'E') {
        let (a, in_gap) = skip_markers(chars, m + 1, allow_cursor_marker);
        let b = if a < chars.len() && (chars[a] == '+' || chars[a] == '-') {
            a + 1
        } else {
            a
        };
        let (e, in_exponent) = scan_run(chars, b, allow_cursor_marker, false);
        (e, in_mantissa || in_gap || in_exponent)
    } else {
        (m, in_mantissa)
    }
}

} // verus!
