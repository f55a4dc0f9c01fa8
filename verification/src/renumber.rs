//! Line numbers of the editor buffer: reading them, choosing a new
//! numbering, and rewriting the line references of `GOTO`, `GOSUB`, `THEN`,
//! `ELSE`, `RESTORE` and `RESUME`.
use vstd::prelude::*;
use crate::text::{is_ws, is_digit, is_alpha, is_alnum, upper_seq, char_is_whitespace, char_is_alpha, char_is_alnum, chars_upper, all_digits, digits_value, int_decimal, parse_digits_i32, i32_to_decimal, extend_with_chars, extend_with_range};
use crate::separators::{ws_run, digit_run};
use std::collections::HashSet;

verus! {

// ---------------------------------------------------------------------------
// Identifiers and references
// ---------------------------------------------------------------------------

pub open spec fn ident_start(c: char) -> bool {
    is_alpha(c) || c == '_'
}

pub open spec fn ident_char(c: char) -> bool {
    is_alnum(c) || c == '_' || c == '$'
}

pub fn is_ident_start(c: char) -> (r: bool)
    ensures
        r == ident_start(c),
{
    char_is_alpha(c) || c == '_'
}

pub fn is_ident_char(c: char) -> (r: bool)
    ensures
        r == ident_char(c),
{
    char_is_alnum(c) || c == '_' || c == '$'
}

/// The number of identifier characters starting at `from`.
pub open spec fn ident_run(s: Seq<char>, from: int) -> nat
    decreases s.len() - from,
{
    if from < 0 || from >= s.len() || !ident_char(s[from]) {
        0
    } else {
        1 + ident_run(s, from + 1)
    }
}

/// A word after which a list of line numbers follows.
pub open spec fn ref_keyword(w: Seq<char>) -> bool {
    let u = upper_seq(w);
    ||| u == seq!['G', 'O', 'T', 'O']
    ||| u == seq!['G', 'O', 'S', 'U', 'B']
    ||| u == seq!['T', 'H', 'E', 'N']
    ||| u == seq!['E', 'L', 'S', 'E']
    ||| u == seq!['R', 'E', 'S', 'T', 'O', 'R', 'E']
    ||| u == seq!['R', 'E', 'S', 'U', 'M', 'E']
}

/// The new number of line `x` under `m`, searching from entry `k` on.
pub open spec fn lookup_from(m: Seq<(i32, i32)>, x: int, k: int) -> Option<i32>
    decreases m.len() - k,
{
    if k < 0 || k >= m.len() {
        None
    } else if m[k].0 == x {
        Some(m[k].1)
    } else {
        lookup_from(m, x, k + 1)
    }
}

/// The new number of line `x` under the renumbering `m` (old, new) pairs.
pub open spec fn lookup(m: Seq<(i32, i32)>, x: int) -> Option<i32> {
    lookup_from(m, x, 0)
}

/// A referenced line number, replaced by its new number when it has one.
pub open spec fn mapped(num: Seq<char>, m: Seq<(i32, i32)>) -> Seq<char> {
    if digits_value(num) <= i32::MAX && lookup(m, digits_value(num)) is Some {
        int_decimal(lookup(m, digits_value(num))->0 as int)
    } else {
        num
    }
}

/// The list of line numbers (separated by commas) that starts at `i`: its
/// rewritten text and where it ends.
pub open spec fn ref_list(s: Seq<char>, i: int, m: Seq<(i32, i32)>) -> (Seq<char>, int)
    decreases s.len() - i,
{
    let a = i + ws_run(s, i);
    let d = digit_run(s, a);
    if i < 0 || i > s.len() {
        (Seq::<char>::empty(), i)
    } else if d == 0 {
        (s.subrange(i, a), a)
    } else {
        let e = a + d;
        let p = e + ws_run(s, e);
        if p < s.len() && s[p] == ',' {
            let rest = ref_list(s, p + 1, m);
            (s.subrange(i, a) + mapped(s.subrange(a, e), m) + s.subrange(e, p + 1) + rest.0, rest.1)
        } else {
            (s.subrange(i, a) + mapped(s.subrange(a, e), m), e)
        }
    }
}

pub proof fn lemma_ws_run_le(s: Seq<char>, from: int)
    requires
        0 <= from <= s.len(),
    ensures
        from + ws_run(s, from) <= s.len(),
    decreases s.len() - from,
{
    if from < s.len() && is_ws(s[from]) {
        lemma_ws_run_le(s, from + 1);
    }
}

pub proof fn lemma_digit_run_le(s: Seq<char>, from: int)
    requires
        0 <= from <= s.len(),
    ensures
        from + digit_run(s, from) <= s.len(),
    decreases s.len() - from,
{
    if from < s.len() && '0' <= s[from] && s[from] <= '9' {
        lemma_digit_run_le(s, from + 1);
    }
}

pub proof fn lemma_ident_run_le(s: Seq<char>, from: int)
    requires
        0 <= from <= s.len(),
    ensures
        from + ident_run(s, from) <= s.len(),
    decreases s.len() - from,
{
    if from < s.len() && ident_char(s[from]) {
        lemma_ident_run_le(s, from + 1);
    }
}

pub proof fn lemma_ref_list_end(s: Seq<char>, i: int, m: Seq<(i32, i32)>)
    ensures
        ref_list(s, i, m).1 >= i,
        0 <= i <= s.len() ==> ref_list(s, i, m).1 <= s.len(),
    decreases s.len() - i,
{
    if 0 <= i <= s.len() {
        lemma_ws_run_le(s, i);
        let a = i + ws_run(s, i);
        lemma_digit_run_le(s, a);
        let d = digit_run(s, a);
        if d > 0 {
            let e = a + d;
            lemma_ws_run_le(s, e);
            let p = e + ws_run(s, e);
            if p < s.len() && s[p] == ',' {
                lemma_ref_list_end(s, p + 1, m);
            }
        }
    }
}

/// The code from `i` on with the line references after the reference
/// keywords rewritten; string literals and a `'` comment are kept as they are.
pub open spec fn renum_scan(s: Seq<char>, i: int, in_string: bool, m: Seq<(i32, i32)>) -> Seq<char>
    decreases s.len() - i,
{
    if i < 0 || i >= s.len() {
        Seq::<char>::empty()
    } else {
        let c = s[i];
        if c == '"' {
            seq![c] + renum_scan(s, i + 1, !in_string, m)
        } else if !in_string && c == '\'' {
            s.subrange(i, s.len() as int)
        } else if !in_string && ident_start(c) {
            proof {
                lemma_ident_run_le(s, i + 1);
            }
            let e = i + 1 + ident_run(s, i + 1);
            let w = s.subrange(i, e);
            if ref_keyword(w) {
                let r = ref_list(s, e, m);
                proof {
                    lemma_ref_list_end(s, e, m);
                }
                w + r.0 + renum_scan(s, r.1, in_string, m)
            } else {
                w + renum_scan(s, e, in_string, m)
            }
        } else {
            seq![c] + renum_scan(s, i + 1, in_string, m)
        }
    }
}

/// The code with its line references renumbered by `m`.
pub open spec fn renum_refs(s: Seq<char>, m: Seq<(i32, i32)>) -> Seq<char> {
    renum_scan(s, 0, false, m)
}

/// The new number of `x` under `mapping`.
pub fn lookup_number(mapping: &[(i32, i32)], x: i32) -> (r: Option<i32>)
    ensures
        r == lookup(mapping@, x as int),
{
    let mut k: usize = 0;
    while k < mapping.len()
        invariant
            0 <= k <= mapping@.len(),
            lookup(mapping@, x as int) == lookup_from(mapping@, x as int, k as int),
        decreases mapping@.len() - k,
    {
        if mapping[k].0 == x {
            return Some(mapping[k].1);
        }
        k += 1;
    }
    None
}

/// Appends the referenced number `chars[a..e]`, rewritten by `mapping`.
fn push_mapped(out: &mut Vec<char>, chars: &[char], a: usize, e: usize, mapping: &[(i32, i32)])
    requires
        a < e <= chars@.len(),
        all_digits(chars@.subrange(a as int, e as int)),
    ensures
        final(out)@ == old(out)@ + mapped(chars@.subrange(a as int, e as int), mapping@),
{
    let raw = crate::text::chars_range(chars, a, e);
    let ghost num = chars@.subrange(a as int, e as int);
    match parse_digits_i32(&raw) {
        Some(old) => match lookup_number(mapping, old) {
            Some(new_number) => {
                let digits = i32_to_decimal(new_number);
                extend_with_chars(out, &digits);
            },
            None => {
                extend_with_chars(out, &raw);
            },
        },
        None => {
            extend_with_chars(out, &raw);
        },
    }
}

/// Copies the list of line numbers at `i` to `out`, rewriting each number by
/// `mapping`; returns where the list ends.
#[verifier::loop_isolation(false)]
pub fn copy_renumbered_editor_line_list(
    chars: &[char],
    i: usize,
    out: &mut Vec<char>,
    mapping: &[(i32, i32)],
) -> (r: usize)
    requires
        i <= chars@.len(),
    ensures
        final(out)@ == old(out)@ + ref_list(chars@, i as int, mapping@).0,
        r == ref_list(chars@, i as int, mapping@).1,
{
    let ghost s = chars@;
    let ghost m = mapping@;
    let ghost i0 = i as int;
    let mut i = i;
    loop
        invariant
            s == chars@,
            m == mapping@,
            0 <= i <= s.len(),
            old(out)@ + ref_list(s, i0, m).0 == out@ + ref_list(s, i as int, m).0,
            ref_list(s, i0, m).1 == ref_list(s, i as int, m).1,
        decreases s.len() - i,
    {
        let ghost o = out@;
        let ghost istart = i as int;
        while i < chars.len() && char_is_whitespace(chars[i])
            invariant
                s == chars@,
                istart <= i <= s.len(),
                istart + ws_run(s, istart) == i + ws_run(s, i as int),
                out@ == o + s.subrange(istart, i as int),
            decreases s.len() - i,
        {
            out.push(chars[i]);
            i += 1;
            assert(out@ =~= o + s.subrange(istart, i as int));
        }
        let number_start = i;
        while i < chars.len() && '0' <= chars[i] && chars[i] <= '9'
            invariant
                s == chars@,
                number_start <= i <= s.len(),
                digit_run(s, number_start as int) == (i - number_start) + digit_run(s, i as int),
                forall|k: int| number_start <= k < i ==> is_digit(#[trigger] s[k]),
            decreases s.len() - i,
        {
            i += 1;
        }
        if number_start == i {
            proof {
                assert(out@ + Seq::<char>::empty() =~= out@);
            }
            return i;
        }
        proof {
            assert(all_digits(s.subrange(number_start as int, i as int)));
        }
        push_mapped(out, chars, number_start, i, mapping);
        let e = i;
        let mut probe = i;
        while probe < chars.len() && char_is_whitespace(chars[probe])
            invariant
                s == chars@,
                e <= probe <= s.len(),
                e + ws_run(s, e as int) == probe + ws_run(s, probe as int),
            decreases s.len() - probe,
        {
            probe += 1;
        }
        if probe < chars.len() && chars[probe] == ',' {
            extend_with_range(out, chars, e, probe + 1);
            i = probe + 1;
            proof {
                let rl = ref_list(s, istart, m);
                assert(out@ =~= o + s.subrange(istart, number_start as int) + mapped(
                    s.subrange(number_start as int, e as int),
                    m,
                ) + s.subrange(e as int, probe + 1));
                assert(rl.0 =~= s.subrange(istart, number_start as int) + mapped(
                    s.subrange(number_start as int, e as int),
                    m,
                ) + s.subrange(e as int, probe + 1) + ref_list(s, i as int, m).0);
            }
            continue;
        }
        proof {
            assert(out@ + Seq::<char>::empty() =~= out@);
        }
        return i;
    }
}

/// Rewrites the line references in `code` by `mapping`.
pub fn renumber_editor_line_references(code: &[char], mapping: &[(i32, i32)]) -> (r: Vec<char>)
    ensures
        r@ == renum_refs(code@, mapping@),
{
    let ghost s = code@;
    let ghost m = mapping@;
    let chars = code;
    let mut out: Vec<char> = Vec::new();
    let mut i: usize = 0;
    let mut in_string = false;
    proof {
        reveal_strlit("GOTO");
        reveal_strlit("GOSUB");
        reveal_strlit("THEN");
        reveal_strlit("ELSE");
        reveal_strlit("RESTORE");
        reveal_strlit("RESUME");
    }
    while i < chars.len()
        invariant
            s == chars@,
            m == mapping@,
            0 <= i <= s.len(),
            out@ + renum_scan(s, i as int, in_string, m) == renum_scan(s, 0, false, m),
            "GOTO"@ == seq!['G', 'O', 'T', 'O'],
            "GOSUB"@ == seq!['G', 'O', 'S', 'U', 'B'],
            "THEN"@ == seq!['T', 'H', 'E', 'N'],
            "ELSE"@ == seq!['E', 'L', 'S', 'E'],
            "RESTORE"@ == seq!['R', 'E', 'S', 'T', 'O', 'R', 'E'],
            "RESUME"@ == seq!['R', 'E', 'S', 'U', 'M', 'E'],
        decreases s.len() - i,
    {
        let ch = chars[i];
        let ghost o = out@;
        if ch == '"' {
            in_string = !in_string;
            out.push(ch);
            i += 1;
            assert(out@ + renum_scan(s, i as int, in_string, m) =~= o + renum_scan(
                s,
                i - 1,
                !in_string,
                m,
            ));
            continue;
        }
        if !in_string && ch == '\'' {
            extend_with_range(&mut out, chars, i, chars.len());
            proof {
                assert(out@ + renum_scan(s, s.len() as int, in_string, m) =~= o + renum_scan(
                    s,
                    i as int,
                    in_string,
                    m,
                ));
            }
            i = chars.len();
            continue;
        }
        if !in_string && is_ident_start(ch) {
            let start = i;
            i += 1;
            while i < chars.len() && is_ident_char(chars[i])
                invariant
                    s == chars@,
                    start < i <= s.len(),
                    ident_run(s, start + 1) == (i - start - 1) + ident_run(s, i as int),
                decreases s.len() - i,
            {
                i += 1;
            }
            extend_with_range(&mut out, chars, start, i);
            let word = crate::text::chars_range(chars, start, i);
            let upper = chars_upper(&word);
            let is_ref = crate::text::chars_eq(&upper, &str_vec("GOTO")) || crate::text::chars_eq(
                &upper,
                &str_vec("GOSUB"),
            ) || crate::text::chars_eq(&upper, &str_vec("THEN")) || crate::text::chars_eq(
                &upper,
                &str_vec("ELSE"),
            ) || crate::text::chars_eq(&upper, &str_vec("RESTORE")) || crate::text::chars_eq(
                &upper,
                &str_vec("RESUME"),
            );
            assert(is_ref == ref_keyword(s.subrange(start as int, i as int)));
            if is_ref {
                let ghost o2 = out@;
                i = copy_renumbered_editor_line_list(chars, i, &mut out, mapping);
                proof {
                    lemma_ref_list_end(s, (start + ident_run(s, start + 1) + 1) as int, m);
                    assert(out@ + renum_scan(s, i as int, in_string, m) =~= o + renum_scan(
                        s,
                        start as int,
                        in_string,
                        m,
                    ));
                }
            } else {
                assert(out@ + renum_scan(s, i as int, in_string, m) =~= o + renum_scan(
                    s,
                    start as int,
                    in_string,
                    m,
                ));
            }
            continue;
        }
        out.push(ch);
        i += 1;
        assert(out@ + renum_scan(s, i as int, in_string, m) =~= o + renum_scan(
            s,
            i - 1,
            in_string,
            m,
        ));
    }
    assert(out@ + renum_scan(s, i as int, in_string, m) =~= out@);
    out
}

fn str_vec(s: &str) -> (r: Vec<char>)
    ensures
        r@ == s@,
{
    crate::text::str_chars(s)
}


// ---------------------------------------------------------------------------
// Reading line numbers
// ---------------------------------------------------------------------------

/// Why the buffer cannot be renumbered.
#[derive(Debug, Clone, Copy, PartialEq, Eq, Structural)]
pub enum RenumError {
    InvalidLine,
    InvalidLineNumber,
    NoProgramLines,
    DuplicateLineNumber,
    LineNumberOverflow,
}

/// The text shown in the status bar for a refused renumbering.
pub open spec fn renum_message(e: RenumError) -> Seq<char> {
    match e {
        RenumError::InvalidLine => "invalid line"@,
        RenumError::InvalidLineNumber => "invalid line number"@,
        RenumError::NoProgramLines => "no program lines"@,
        RenumError::DuplicateLineNumber => "duplicate line number"@,
        RenumError::LineNumberOverflow => "line number overflow"@,
    }
}

impl RenumError {
    /// The text shown in the status bar.
    pub fn message(&self) -> (r: &'static str)
        ensures
            r@ == renum_message(*self),
    {
        match self {
            RenumError::InvalidLine => "invalid line",
            RenumError::InvalidLineNumber => "invalid line number",
            RenumError::NoProgramLines => "no program lines",
            RenumError::DuplicateLineNumber => "duplicate line number",
            RenumError::LineNumberOverflow => "line number overflow",
        }
    }
}

/// A numbered line of the buffer: its index, its number, and where the
/// digits of the number stand.
#[derive(Debug, Clone, Copy, PartialEq, Eq, Structural)]
pub struct EditorNumberedLine {
    pub index: usize,
    pub old_number: i32,
    pub number_start: usize,
    pub number_end: usize,
}

/// What a buffer line contributes to the numbering: nothing for a blank
/// line, an error for a line without a valid number, else the number and the
/// span of its digits.
pub open spec fn line_entry(l: Seq<char>) -> Option<Result<(i32, nat, nat), RenumError>> {
    let a = ws_run(l, 0);
    let d = digit_run(l, a as int);
    let e = a + d;
    if a == l.len() {
        None
    } else if d == 0 || (e < l.len() && !is_ws(l[e as int])) {
        Some(Err(RenumError::InvalidLine))
    } else {
        let v = digits_value(l.subrange(a as int, e as int));
        if v > i32::MAX || v <= 0 {
            Some(Err(RenumError::InvalidLineNumber))
        } else {
            Some(Ok((v as i32, a, e)))
        }
    }
}

/// The line number of a buffer line, when it has a valid one.
pub open spec fn line_number_of(l: Seq<char>) -> Option<i32> {
    match line_entry(l) {
        Some(Ok((v, _, _))) => Some(v),
        _ => None,
    }
}

/// The numbered lines among the first `n` lines, in buffer order, or the
/// first error.
pub open spec fn collected(d: Seq<Seq<char>>, n: int) -> Result<Seq<EditorNumberedLine>, RenumError>
    decreases n,
{
    if n <= 0 {
        Ok(Seq::<EditorNumberedLine>::empty())
    } else {
        match collected(d, n - 1) {
            Err(e) => Err(e),
            Ok(v) => match line_entry(d[n - 1]) {
                None => Ok(v),
                Some(Err(e)) => Err(e),
                Some(Ok((num, a, b))) => Ok(
                    v.push(
                        EditorNumberedLine {
                            index: (n - 1) as usize,
                            old_number: num,
                            number_start: a as usize,
                            number_end: b as usize,
                        },
                    ),
                ),
            },
        }
    }
}

proof fn lemma_collected_err_stays(d: Seq<Seq<char>>, n: int, m: int)
    requires
        0 <= n <= m,
        collected(d, n) is Err,
    ensures
        collected(d, m) == collected(d, n),
    decreases m - n,
{
    if m > n {
        lemma_collected_err_stays(d, n, m - 1);
    }
}

/// The numbered lines name lines of `d` in increasing order, carry positive
/// numbers, and locate digits inside their lines.
pub open spec fn numbered_ok(d: Seq<Seq<char>>, v: Seq<EditorNumberedLine>) -> bool {
    &&& forall|k: int| 0 <= k < v.len() ==> 0 <= #[trigger] v[k].index < d.len()
    &&& forall|j: int, k: int| 0 <= j < k < v.len() ==> v[j].index < v[k].index
    &&& forall|k: int|
        0 <= k < v.len() ==> 0 < (#[trigger] v[k]).old_number && v[k].number_start <= v[k].number_end
            <= d[v[k].index as int].len()
}

/// Reads the entry of one line.
fn line_entry_of(line: &[char]) -> (r: Option<Result<(i32, usize, usize), RenumError>>)
    ensures
        match r {
            None => line_entry(line@) is None,
            Some(Err(e)) => line_entry(line@) == Some(Err::<(i32, nat, nat), RenumError>(e)),
            Some(Ok((v, a, b))) => line_entry(line@) == Some(Ok::<(i32, nat, nat), RenumError>((v, a as nat, b as nat)))
                && 0 < v && a <= b <= line@.len(),
        },
{
    let ghost l = line@;
    let mut start: usize = 0;
    while start < line.len() && char_is_whitespace(line[start])
        invariant
            0 <= start <= l.len(),
            l == line@,
            ws_run(l, 0) == start + ws_run(l, start as int),
        decreases l.len() - start,
    {
        start += 1;
    }
    if start == line.len() {
        return None;
    }
    let mut end = start;
    while end < line.len() && '0' <= line[end] && line[end] <= '9'
        invariant
            start <= end <= l.len(),
            l == line@,
            digit_run(l, start as int) == (end - start) + digit_run(l, end as int),
            forall|k: int| start <= k < end ==> is_digit(#[trigger] l[k]),
        decreases l.len() - end,
    {
        end += 1;
    }
    if end == start {
        return Some(Err(RenumError::InvalidLine));
    }
    if end < line.len() && !char_is_whitespace(line[end]) {
        return Some(Err(RenumError::InvalidLine));
    }
    let raw = crate::text::chars_range(line, start, end);
    assert(all_digits(raw@));
    match parse_digits_i32(&raw) {
        None => Some(Err(RenumError::InvalidLineNumber)),
        Some(v) => {
            if v <= 0 {
                Some(Err(RenumError::InvalidLineNumber))
            } else {
                Some(Ok((v, start, end)))
            }
        },
    }
}

/// The line number that starts a buffer line.
pub fn editor_line_number(line: &[char]) -> (r: Option<i32>)
    ensures
        r == line_number_of(line@),
{
    match line_entry_of(line) {
        Some(Ok((v, _, _))) => Some(v),
        _ => None,
    }
}

/// The numbered lines of the buffer, in buffer order; an error for a
/// non-blank line without a valid line number.
pub fn collect_editor_line_numbers(lines: &Vec<Vec<char>>) -> (r: Result<Vec<EditorNumberedLine>, RenumError>)
    ensures
        match r {
            Ok(v) => collected(crate::editor::doc(lines@), lines@.len() as int) == Ok::<Seq<EditorNumberedLine>, RenumError>(v@),
            Err(e) => collected(crate::editor::doc(lines@), lines@.len() as int) == Err::<Seq<EditorNumberedLine>, RenumError>(e),
        },
        r matches Ok(v) ==> numbered_ok(crate::editor::doc(lines@), v@),
{
    let ghost d = crate::editor::doc(lines@);
    let mut numbered: Vec<EditorNumberedLine> = Vec::new();
    let mut index: usize = 0;
    while index < lines.len()
        invariant
            d == crate::editor::doc(lines@),
            0 <= index <= lines@.len(),
            collected(d, index as int) == Ok::<Seq<EditorNumberedLine>, RenumError>(numbered@),
            numbered_ok(d, numbered@),
            forall|k: int| 0 <= k < numbered@.len() ==> #[trigger] numbered@[k].index < index,
        decreases lines@.len() - index,
    {
        let entry = line_entry_of(&lines[index]);
        assert(d[index as int] == lines@[index as int]@);
        match entry {
            None => {},
            Some(Err(e)) => {
                proof {
                    lemma_collected_err_stays(d, index + 1, lines@.len() as int);
                }
                return Err(e);
            },
            Some(Ok((v, a, b))) => {
                numbered.push(
                    EditorNumberedLine { index, old_number: v, number_start: a, number_end: b },
                );
            },
        }
        index += 1;
    }
    Ok(numbered)
}

// ---------------------------------------------------------------------------
// The step of a renumbering
// ---------------------------------------------------------------------------

/// The smallest element of the first `n` elements of `s` above `a`.
pub open spec fn min_above(s: Seq<i32>, a: int, n: int) -> Option<int>
    decreases n,
{
    if n <= 0 {
        None
    } else {
        let r = min_above(s, a, n - 1);
        let x = s[n - 1] as int;
        if x > a && (r is None || x < r->0) {
            Some(x)
        } else {
            r
        }
    }
}

/// `s[i]` is the first occurrence of its value.
pub open spec fn first_occ(s: Seq<i32>, i: int) -> bool {
    forall|j: int| 0 <= j < i ==> s[j] != s[i]
}

/// The gap from the number at `i` (its first occurrence) to the next larger
/// number of `s`.
pub open spec fn gap_at(s: Seq<i32>, i: int) -> Option<int> {
    if 0 <= i < s.len() && first_occ(s, i) && min_above(s, s[i] as int, s.len() as int) is Some {
        Some(min_above(s, s[i] as int, s.len() as int)->0 - s[i])
    } else {
        None
    }
}

/// How many of the first `n` positions have gap `t`.
pub open spec fn gap_count(s: Seq<i32>, t: int, n: int) -> nat
    decreases n,
{
    if n <= 0 {
        0
    } else {
        gap_count(s, t, n - 1) + (if gap_at(s, n - 1) == Some(t) {
            1nat
        } else {
            0nat
        })
    }
}

/// `t` is a gap between consecutive distinct numbers of `s` that occurs
/// most often, the smallest such.
pub open spec fn best_step(s: Seq<i32>, t: int) -> bool {
    &&& exists|i: int| gap_at(s, i) == Some(t)
    &&& forall|j: int|
        #![trigger gap_at(s, j)]
        gap_at(s, j) matches Some(u) ==> (gap_count(s, u, s.len() as int) < gap_count(
            s,
            t,
            s.len() as int,
        ) || (gap_count(s, u, s.len() as int) == gap_count(s, t, s.len() as int) && t <= u))
}

/// The step of a renumbering: the most common gap between consecutive
/// distinct line numbers (the smallest on a tie), or 10 when there is none.
pub open spec fn renum_step(s: Seq<i32>) -> int {
    if exists|i: int| gap_at(s, i) is Some {
        choose|t: int| best_step(s, t)
    } else {
        10
    }
}

proof fn lemma_best_step_unique(s: Seq<i32>, t1: int, t2: int)
    requires
        best_step(s, t1),
        best_step(s, t2),
    ensures
        t1 == t2,
{
    let i1 = choose|i: int| gap_at(s, i) == Some(t1);
    let i2 = choose|i: int| gap_at(s, i) == Some(t2);
    assert(gap_at(s, i1) == Some(t1));
    assert(gap_at(s, i2) == Some(t2));
}

proof fn lemma_min_above_in(s: Seq<i32>, a: int, n: int)
    requires
        0 <= n <= s.len(),
    ensures
        min_above(s, a, n) matches Some(b) ==> b > a && exists|k: int| 0 <= k < n && s[k] == b,
    decreases n,
{
    if n > 0 {
        lemma_min_above_in(s, a, n - 1);
    }
}

/// The smallest number of `s` above `a`.
fn min_above_exec(s: &[i32], a: i32) -> (r: Option<i32>)
    ensures
        match r {
            None => min_above(s@, a as int, s@.len() as int) is None,
            Some(b) => min_above(s@, a as int, s@.len() as int) == Some(b as int),
        },
{
    let mut best: Option<i32> = None;
    let mut k: usize = 0;
    while k < s.len()
        invariant
            0 <= k <= s@.len(),
            match best {
                None => min_above(s@, a as int, k as int) is None,
                Some(b) => min_above(s@, a as int, k as int) == Some(b as int),
            },
        decreases s@.len() - k,
    {
        let x = s[k];
        let take = match best {
            None => x > a,
            Some(b) => x > a && x < b,
        };
        if take {
            best = Some(x);
        }
        k += 1;
    }
    best
}

/// Chooses the step of a renumbering from the current line numbers.
pub fn infer_editor_renum_step(numbers: &[i32]) -> (r: i32)
    requires
        forall|i: int, j: int|
            0 <= i < numbers@.len() && 0 <= j < numbers@.len() && numbers@[i] < numbers@[j]
                ==> numbers@[j] - numbers@[i] <= i32::MAX,
    ensures
        r == renum_step(numbers@),
{
    let ghost s = numbers@;
    let n = numbers.len();
    let mut gaps: Vec<Option<i32>> = Vec::new();
    let mut i: usize = 0;
    while i < n
        invariant
            s == numbers@,
            n == s.len(),
            0 <= i <= n,
            gaps@.len() == i,
            forall|k: int|
                0 <= k < i ==> match #[trigger] gaps@[k] {
                    None => gap_at(s, k) is None,
                    Some(g) => gap_at(s, k) == Some(g as int),
                },
            forall|a: int, b: int|
                0 <= a < s.len() && 0 <= b < s.len() && s[a] < s[b] ==> s[b] - s[a] <= i32::MAX,
        decreases n - i,
    {
        let x = numbers[i];
        let mut first = true;
        let mut j: usize = 0;
        while j < i
            invariant
                s == numbers@,
                0 <= j <= i < s.len(),
                first == (forall|k: int| 0 <= k < j ==> s[k] != s[i as int]),
                x == s[i as int],
            decreases i - j,
        {
            if numbers[j] == x {
                first = false;
            }
            j += 1;
        }
        let g = if first {
            match min_above_exec(numbers, x) {
                Some(b) => {
                    proof {
                        lemma_min_above_in(s, x as int, s.len() as int);
                    }
                    Some(b - x)
                },
                None => None,
            }
        } else {
            None
        };
        gaps.push(g);
        i += 1;
    }
    let mut best: Option<(i32, usize)> = None;
    let mut k: usize = 0;
    while k < n
        invariant
            s == numbers@,
            n == s.len(),
            0 <= k <= n,
            gaps@.len() == n,
            forall|q: int|
                0 <= q < n ==> match #[trigger] gaps@[q] {
                    None => gap_at(s, q) is None,
                    Some(g) => gap_at(s, q) == Some(g as int),
                },
            match best {
                None => forall|q: int| 0 <= q < k ==> gap_at(s, q) is None,
                Some((t, c)) => {
                    &&& exists|q: int| 0 <= q < k && gap_at(s, q) == Some(t as int)
                    &&& c == gap_count(s, t as int, n as int)
                    &&& forall|q: int|
                        #![trigger gap_at(s, q)]
                        0 <= q < k ==> (gap_at(s, q) matches Some(u) ==> (gap_count(s, u, n as int) < c
                            || (gap_count(s, u, n as int) == c && t <= u)))
                },
            },
        decreases n - k,
    {
        if let Some(t) = gaps[k] {
            let mut c: usize = 0;
            let mut q: usize = 0;
            while q < n
                invariant
                    s == numbers@,
                    n == s.len(),
                    0 <= q <= n,
                    gaps@.len() == n,
                    forall|z: int|
                        0 <= z < n ==> match #[trigger] gaps@[z] {
                            None => gap_at(s, z) is None,
                            Some(g) => gap_at(s, z) == Some(g as int),
                        },
                    c == gap_count(s, t as int, q as int),
                    c <= q,
                decreases n - q,
            {
                let same = match gaps[q] {
                    Some(u) => u == t,
                    None => false,
                };
                if same {
                    c += 1;
                }
                q += 1;
            }
            let better = match best {
                None => true,
                Some((bt, bc)) => c > bc || (c == bc && t < bt),
            };
            if better {
                best = Some((t, c));
            }
        }
        k += 1;
    }
    match best {
        None => {
            proof {
                assert forall|i: int| !(gap_at(s, i) is Some) by {
                    if 0 <= i < n {
                    }
                }
            }
            10
        },
        Some((t, _)) => {
            proof {
                assert(best_step(s, t as int));
                let c = choose|u: int| best_step(s, u);
                lemma_best_step_unique(s, t as int, c);
            }
            t
        },
    }
}


// ---------------------------------------------------------------------------
// Renumbering the buffer
// ---------------------------------------------------------------------------

pub open spec fn old_numbers(v: Seq<EditorNumberedLine>) -> Seq<i32> {
    Seq::new(v.len(), |k: int| v[k].old_number)
}

pub open spec fn has_dup(v: Seq<EditorNumberedLine>) -> bool {
    exists|j: int, k: int| 0 <= j < k < v.len() && v[j].old_number == v[k].old_number
}

/// The smallest of the first `n` line numbers (`n >= 1`).
pub open spec fn min_number(v: Seq<EditorNumberedLine>, n: int) -> int
    decreases n,
{
    if n <= 1 {
        v[0].old_number as int
    } else {
        let m = min_number(v, n - 1);
        if (v[n - 1].old_number as int) < m {
            v[n - 1].old_number as int
        } else {
            m
        }
    }
}

/// The renumbering: the k-th numbered line gets `start + k * step`.
pub open spec fn renum_pairs(v: Seq<EditorNumberedLine>, start: int, step: int) -> Seq<(i32, i32)> {
    Seq::new(v.len(), |k: int| (v[k].old_number, (start + k * step) as i32))
}

/// What a renumbering of the buffer `d` does: the numbered lines, the first
/// new number and the step; or why it is refused.
pub open spec fn renum_plan(d: Seq<Seq<char>>) -> Result<(Seq<EditorNumberedLine>, int, int), RenumError> {
    match collected(d, d.len() as int) {
        Err(e) => Err(e),
        Ok(v) => if v.len() == 0 {
            Err(RenumError::NoProgramLines)
        } else if has_dup(v) {
            Err(RenumError::DuplicateLineNumber)
        } else {
            let start = min_number(v, v.len() as int);
            let step = renum_step(old_numbers(v));
            if start + v.len() * step > i32::MAX {
                Err(RenumError::LineNumberOverflow)
            } else {
                Ok((v, start, step))
            }
        },
    }
}

/// A numbered line with its new number and its references rewritten.
pub open spec fn renumbered_line(l: Seq<char>, e: EditorNumberedLine, new_number: int, m: Seq<(i32, i32)>) -> Seq<char> {
    l.subrange(0, e.number_start as int) + int_decimal(new_number) + renum_refs(
        l.subrange(e.number_end as int, l.len() as int),
        m,
    )
}

/// The last of the first `k` numbered lines that is line `i`.
pub open spec fn entry_of(v: Seq<EditorNumberedLine>, i: int, k: int) -> Option<int>
    decreases k,
{
    if k <= 0 {
        None
    } else if v[k - 1].index == i {
        Some(k - 1)
    } else {
        entry_of(v, i, k - 1)
    }
}

/// The buffer with the first `k` numbered lines renumbered.
pub open spec fn partial_doc(d: Seq<Seq<char>>, v: Seq<EditorNumberedLine>, start: int, step: int, k: int) -> Seq<Seq<char>> {
    Seq::new(
        d.len(),
        |i: int|
            match entry_of(v, i, k) {
                Some(j) => renumbered_line(d[i], v[j], start + j * step, renum_pairs(v, start, step)),
                None => d[i],
            },
    )
}

pub open spec fn renumbered_doc(d: Seq<Seq<char>>, v: Seq<EditorNumberedLine>, start: int, step: int) -> Seq<Seq<char>> {
    partial_doc(d, v, start, step, v.len() as int)
}

/// The breakpoints carried to the new numbers of their lines.
pub open spec fn renumbered_breakpoints(bp: Set<i32>, m: Seq<(i32, i32)>) -> Set<i32> {
    Set::new(|x: i32| exists|k: int| 0 <= k < m.len() && bp.contains(m[k].0) && m[k].1 == x)
}

proof fn lemma_entry_of_none(v: Seq<EditorNumberedLine>, i: int, k: int)
    requires
        0 <= k <= v.len(),
        forall|j: int| 0 <= j < k ==> v[j].index < i,
    ensures
        entry_of(v, i, k) is None,
    decreases k,
{
    if k > 0 {
        lemma_entry_of_none(v, i, k - 1);
    }
}

proof fn lemma_min_number(v: Seq<EditorNumberedLine>, n: int)
    requires
        1 <= n <= v.len(),
    ensures
        forall|k: int| 0 <= k < n ==> min_number(v, n) <= v[k].old_number,
        exists|k: int| 0 <= k < n && min_number(v, n) == v[k].old_number,
    decreases n,
{
    if n > 1 {
        lemma_min_number(v, n - 1);
        if (v[n - 1].old_number as int) >= min_number(v, n - 1) {
            let k = choose|k: int| 0 <= k < n - 1 && min_number(v, n - 1) == v[k].old_number;
            assert(0 <= k < n && min_number(v, n) == v[k].old_number);
        }
    } else {
        assert(min_number(v, n) == v[0].old_number);
    }
}

proof fn lemma_steps_positive(s: Seq<i32>)
    ensures
        renum_step(s) >= 1,
{
    if exists|i: int| gap_at(s, i) is Some {
        let i = choose|i: int| gap_at(s, i) is Some;
        let t = gap_at(s, i)->0;
        lemma_min_above_in(s, s[i] as int, s.len() as int);
        assert(exists|u: int| best_step(s, u)) by {
            lemma_best_step_exists(s);
        }
        let u = choose|u: int| best_step(s, u);
        let q = choose|q: int| gap_at(s, q) == Some(u);
        lemma_min_above_in(s, s[q] as int, s.len() as int);
    }
}

/// `u` is a better step than `t`: more frequent, or as frequent and smaller.
pub open spec fn better_step(s: Seq<i32>, u: int, t: int) -> bool {
    let n = s.len() as int;
    gap_count(s, u, n) > gap_count(s, t, n) || (gap_count(s, u, n) == gap_count(s, t, n) && u < t)
}

/// The position of the best gap among the first `k` positions.
pub open spec fn best_upto(s: Seq<i32>, k: int) -> Option<int>
    decreases k,
{
    if k <= 0 {
        None
    } else {
        let b = best_upto(s, k - 1);
        match gap_at(s, k - 1) {
            None => b,
            Some(u) => match b {
                None => Some(k - 1),
                Some(p) => if better_step(s, u, gap_at(s, p)->0) {
                    Some(k - 1)
                } else {
                    b
                },
            },
        }
    }
}

proof fn lemma_best_upto(s: Seq<i32>, k: int)
    requires
        0 <= k,
    ensures
        best_upto(s, k) matches Some(p) ==> gap_at(s, p) is Some && forall|q: int|
            #![trigger gap_at(s, q)]
            0 <= q < k && gap_at(s, q) is Some ==> !better_step(s, gap_at(s, q)->0, gap_at(s, p)->0),
        best_upto(s, k) is None ==> forall|q: int| 0 <= q < k ==> gap_at(s, q) is None,
    decreases k,
{
    if k > 0 {
        lemma_best_upto(s, k - 1);
    }
}

/// A most common gap, smallest on ties, exists when some gap does.
proof fn lemma_best_step_exists(s: Seq<i32>)
    requires
        exists|i: int| gap_at(s, i) is Some,
    ensures
        exists|t: int| best_step(s, t),
{
    let n = s.len() as int;
    lemma_best_upto(s, n);
    let i = choose|i: int| gap_at(s, i) is Some;
    assert(0 <= i < n);
    let p = best_upto(s, n)->0;
    let t = gap_at(s, p)->0;
    assert forall|j: int| #![trigger gap_at(s, j)] gap_at(s, j) is Some implies ({
        let u = gap_at(s, j)->0;
        gap_count(s, u, n) < gap_count(s, t, n) || (gap_count(s, u, n) == gap_count(s, t, n) && t <= u)
    }) by {
        assert(0 <= j < n);
    }
    assert(best_step(s, t));
}

impl crate::editor::BasicEditor {
    /// The number of the line under the cursor.
    pub fn current_line_number(&self) -> (r: Option<i32>)
        ensures
            r == (if self.cursor_line < self.lines@.len() {
                line_number_of(self.lines@[self.cursor_line as int]@)
            } else {
                None
            }),
    {
        if self.cursor_line < self.lines.len() {
            editor_line_number(&self.lines[self.cursor_line])
        } else {
            None
        }
    }

    /// Renumbers the numbered lines in buffer order, from the smallest line
    /// number on with the most common step, rewriting the line references
    /// and moving the breakpoints along; one undo step.
    #[verifier::rlimit(50)]
    #[verifier::loop_isolation(false)]
    pub fn renumber_visible_lines(&mut self) -> (r: Result<(), RenumError>)
        requires
            old(self).wf(),
        ensures
            final(self).wf(),
            match renum_plan(old(self).docv()) {
                Err(e) => r == Err::<(), RenumError>(e) && *final(self) == *old(self),
                Ok((v, start, step)) => {
                    &&& r is Ok
                    &&& final(self).docv() == renumbered_doc(old(self).docv(), v, start, step)
                    &&& final(self).breakpoints@ == renumbered_breakpoints(
                        old(self).breakpoints@,
                        renum_pairs(v, start, step),
                    )
                    &&& final(self).recorded(old(self))
                    &&& final(self).cursor_line == old(self).cursor_line
                    &&& final(self).cursor_col as int == crate::editor::min_int(
                        old(self).cursor_col as int,
                        final(self).docv()[old(self).cursor_line as int].len() as int,
                    )
                    &&& final(self).selection_anchor is None
                    &&& final(self).dirty
                    &&& final(self).top_line == old(self).top_line
                    &&& final(self).left_col == old(self).left_col
                    &&& final(self).same_extras(old(self))
                },
            },
    {
        broadcast use vstd::std_specs::hash::group_hash_axioms;

        let ghost d0 = self.docv();
        let ghost before = *self;
        let numbered = match collect_editor_line_numbers(&self.lines) {
            Ok(v) => v,
            Err(e) => return Err(e),
        };
        let ghost v = numbered@;
        let n = numbered.len();
        if n == 0 {
            return Err(RenumError::NoProgramLines);
        }
        let mut k: usize = 0;
        while k < n
            invariant
                v == numbered@,
                n == v.len(),
                0 <= k <= n,
                forall|a: int, b: int| 0 <= a < b < k ==> v[a].old_number != v[b].old_number,
            decreases n - k,
        {
            let mut j: usize = 0;
            while j < k
                invariant
                    v == numbered@,
                    n == v.len(),
                    0 <= j <= k < n,
                    forall|a: int| 0 <= a < j ==> v[a].old_number != v[k as int].old_number,
                decreases k - j,
            {
                if numbered[j].old_number == numbered[k].old_number {
                    assert(has_dup(v)) by {
                        assert(0 <= j < k < v.len() && v[j as int].old_number == v[k as int].old_number);
                    }
                    return Err(RenumError::DuplicateLineNumber);
                }
                j += 1;
            }
            k += 1;
        }
        assert(!has_dup(v));
        let mut olds: Vec<i32> = Vec::new();
        let mut start: i32 = numbered[0].old_number;
        let mut k: usize = 0;
        while k < n
            invariant
                v == numbered@,
                n == v.len(),
                n >= 1,
                0 <= k <= n,
                olds@ == old_numbers(v).subrange(0, k as int),
                k >= 1 ==> start == min_number(v, k as int),
                k == 0 ==> start == v[0].old_number,
            decreases n - k,
        {
            let x = numbered[k].old_number;
            olds.push(x);
            if k >= 1 && x < start {
                start = x;
            }
            k += 1;
            assert(olds@ =~= old_numbers(v).subrange(0, k as int));
        }
        assert(olds@ =~= old_numbers(v));
        proof {
            lemma_min_number(v, n as int);
            assert forall|a: int, b: int|
                0 <= a < olds@.len() && 0 <= b < olds@.len() && olds@[a] < olds@[b] implies olds@[b]
                - olds@[a] <= i32::MAX by {
                assert(0 < v[a].old_number);
            }
        }
        let step = infer_editor_renum_step(&olds);
        proof {
            lemma_steps_positive(old_numbers(v));
            assert(0 < start);
        }
        let mut pairs: Vec<(i32, i32)> = Vec::new();
        let mut next: i32 = start;
        let mut k: usize = 0;
        while k < n
            invariant
                v == numbered@,
                n == v.len(),
                0 <= k <= n,
                step >= 1,
                0 < start,
                next as int == start + k * step,
                pairs@ == renum_pairs(v, start as int, step as int).subrange(0, k as int),
            decreases n - k,
        {
            pairs.push((numbered[k].old_number, next));
            proof {
                assert(pairs@ =~= renum_pairs(v, start as int, step as int).subrange(0, k + 1));
                assert(start + (k + 1) * step == start + k * step + step) by (nonlinear_arith);
            }
            match next.checked_add(step) {
                Some(x) => {
                    next = x;
                },
                None => {
                    proof {
                        assert(start + n * step >= start + (k + 1) * step) by (nonlinear_arith)
                            requires
                                k + 1 <= n,
                                step >= 1,
                        ;
                    }
                    return Err(RenumError::LineNumberOverflow);
                },
            }
            k += 1;
        }
        assert(pairs@ =~= renum_pairs(v, start as int, step as int));
        let ghost m = pairs@;
        self.record_undo();
        proof {
            self.lemma_history_wf(&before);
        }
        let mut k: usize = 0;
        assert(self.docv() =~= partial_doc(d0, v, start as int, step as int, 0));
        while k < n
            invariant
                v == numbered@,
                n == v.len(),
                0 <= k <= n,
                m == pairs@,
                m == renum_pairs(v, start as int, step as int),
                step >= 1,
                start + n * step <= i32::MAX,
                self.docv() == partial_doc(d0, v, start as int, step as int, k as int),
                d0.len() == self.lines@.len(),
                forall|q: int| 0 <= q < v.len() ==> 0 <= #[trigger] v[q].index < d0.len(),
                forall|a: int, b: int| 0 <= a < b < v.len() ==> v[a].index < v[b].index,
                forall|q: int|
                    0 <= q < v.len() ==> (#[trigger] v[q]).number_start <= v[q].number_end
                        <= d0[v[q].index as int].len(),
                self.breakpoints == before.breakpoints,
                self.cursor_line == before.cursor_line,
                self.cursor_col == before.cursor_col,
                self.top_line == before.top_line,
                self.left_col == before.left_col,
                self.selection_anchor == before.selection_anchor,
                self.same_extras(&before),
                self.dirty == before.dirty,
                stack_view_wf(self),
                self.recorded(&before),
            decreases n - k,
        {
            let e = numbered[k];
            let idx = e.index;
            proof {
                lemma_entry_of_none(v, idx as int, k as int);
                assert(self.docv()[idx as int] == d0[idx as int]);
                assert(k * step <= n * step) by (nonlinear_arith)
                    requires
                        k <= n,
                        step >= 1,
                ;
            }
            let line_len = self.lines[idx].len();
            let mut new_line = crate::text::chars_range(&self.lines[idx], 0, e.number_start);
            let number = i32_to_decimal(pairs[k].1);
            extend_with_chars(&mut new_line, &number);
            let tail = crate::text::chars_range(&self.lines[idx], e.number_end, line_len);
            let refs = renumber_editor_line_references(&tail, &pairs);
            extend_with_chars(&mut new_line, &refs);
            proof {
                assert(new_line@ =~= renumbered_line(
                    d0[idx as int],
                    v[k as int],
                    start + k * step,
                    m,
                ));
            }
            let ghost prev = self.docv();
            self.lines.set(idx, new_line);
            k += 1;
            proof {
                let pd = partial_doc(d0, v, start as int, step as int, k as int);
                assert(self.docv() =~= prev.update(idx as int, new_line@));
                assert forall|i: int| 0 <= i < d0.len() implies #[trigger] self.docv()[i] == pd[i] by {
                    if i != idx {
                        assert(entry_of(v, i, k as int) == entry_of(v, i, k - 1));
                    } else {
                        assert(entry_of(v, i, k as int) == Some(k - 1));
                    }
                }
                assert(self.docv() =~= pd);
            }
        }
        let mut nb: HashSet<i32> = HashSet::new();
        let mut k: usize = 0;
        while k < n
            invariant
                0 <= k <= n,
                n == m.len(),
                m == pairs@,
                nb@ == Set::new(
                    |x: i32|
                        exists|j: int| 0 <= j < k && self.breakpoints@.contains(m[j].0) && m[j].1 == x,
                ),
            decreases n - k,
        {
            if self.breakpoints.contains(&pairs[k].0) {
                nb.insert(pairs[k].1);
            }
            k += 1;
            proof {
                assert(nb@ =~= Set::new(
                    |x: i32|
                        exists|j: int| 0 <= j < k && self.breakpoints@.contains(m[j].0) && m[j].1 == x,
                )) by {
                    assert forall|x: i32|
                        nb@.contains(x) implies exists|j: int|
                        0 <= j < k && self.breakpoints@.contains(m[j].0) && m[j].1 == x by {
                        if !(exists|j: int|
                            0 <= j < k - 1 && self.breakpoints@.contains(m[j].0) && m[j].1 == x) {
                            assert(0 <= k - 1 < k && self.breakpoints@.contains(m[k - 1].0) && m[k
                                - 1].1 == x);
                        }
                    }
                }
            }
        }
        self.breakpoints = nb;
        let len = self.current_line_len();
        if self.cursor_col > len {
            self.cursor_col = len;
        }
        self.clear_selection();
        self.dirty = true;
        Ok(())
    }
}

pub open spec fn stack_view_wf(e: &crate::editor::BasicEditor) -> bool {
    &&& crate::editor::stack_wf(crate::editor::stack_view(e.undo_stack@))
    &&& crate::editor::stack_wf(crate::editor::stack_view(e.redo_stack@))
}

} // verus!
