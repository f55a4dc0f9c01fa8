//! Statement separators of a BASIC line: line numbers, `'` comments, string
//! literals, and the layout of `:` between statements.
use vstd::prelude::*;
use crate::text::{is_ws, is_alnum, eq_ic, char_is_whitespace, char_is_alnum, chars_equal_ignore_ascii_case, str_chars};
use crate::editor::doc;

verus! {

// ---------------------------------------------------------------------------
// Models
// ---------------------------------------------------------------------------

/// Whether position `i` of `s` lies inside a string literal: an odd number
/// of `"` comes before it.
pub open spec fn in_str(s: Seq<char>, i: int) -> bool
    decreases i,
{
    if i <= 0 {
        false
    } else {
        in_str(s, i - 1) != (s[i - 1] == '"')
    }
}

/// The number of whitespace characters starting at `from`.
pub open spec fn ws_run(s: Seq<char>, from: int) -> nat
    decreases s.len() - from,
{
    if from < 0 || from >= s.len() || !is_ws(s[from]) {
        0
    } else {
        1 + ws_run(s, from + 1)
    }
}

/// The number of ASCII digits starting at `from`.
pub open spec fn digit_run(s: Seq<char>, from: int) -> nat
    decreases s.len() - from,
{
    if from < 0 || from >= s.len() || !('0' <= s[from] && s[from] <= '9') {
        0
    } else {
        1 + digit_run(s, from + 1)
    }
}

/// The number of whitespace characters at the end of `s`.
pub open spec fn back_ws(s: Seq<char>) -> nat
    decreases s.len(),
{
    if s.len() == 0 || !is_ws(s.last()) {
        0
    } else {
        1 + back_ws(s.drop_last())
    }
}

/// `s` without trailing whitespace.
pub open spec fn trim_end(s: Seq<char>) -> Seq<char> {
    s.subrange(0, s.len() - back_ws(s))
}

/// `s` without leading and trailing whitespace (`str::trim`).
pub open spec fn trim(s: Seq<char>) -> Seq<char> {
    trim_end(s.subrange(ws_run(s, 0) as int, s.len() as int))
}

/// `needle` occurs at `start` in `s`, ignoring ASCII case.
pub open spec fn starts_ic(s: Seq<char>, start: int, needle: Seq<char>) -> bool {
    &&& 0 <= start
    &&& start + needle.len() <= s.len()
    &&& forall|k: int| 0 <= k < needle.len() ==> eq_ic(#[trigger] s[start + k], needle[k])
}

/// A `:` outside string literals.
pub open spec fn unquoted_colon(s: Seq<char>, i: int) -> bool {
    0 <= i < s.len() && s[i] == ':' && !in_str(s, i)
}

/// The unquoted colon that ends the processed prefix of length `n` asks
/// that the whitespace after it be dropped.
pub open spec fn skipping(s: Seq<char>, n: int) -> bool
    decreases n,
{
    if n <= 0 {
        false
    } else {
        unquoted_colon(s, n - 1) || (skipping(s, n - 1) && is_ws(s[n - 1]))
    }
}

/// The first `n` characters of `s` with every unquoted colon and the
/// whitespace around it compacted to a bare `:`.
pub open spec fn compact_prefix(s: Seq<char>, n: int) -> Seq<char>
    decreases n,
{
    if n <= 0 {
        Seq::<char>::empty()
    } else {
        let prev = compact_prefix(s, n - 1);
        let c = s[n - 1];
        if skipping(s, n - 1) && is_ws(c) {
            prev
        } else if c == ':' && !in_str(s, n - 1) {
            trim_end(prev).push(':')
        } else {
            prev.push(c)
        }
    }
}

pub open spec fn compact(s: Seq<char>) -> Seq<char> {
    compact_prefix(s, s.len() as int)
}

// ---------------------------------------------------------------------------
// Small helpers
// ---------------------------------------------------------------------------

pub proof fn lemma_back_ws_bound(s: Seq<char>)
    ensures
        0 <= back_ws(s) <= s.len(),
    decreases s.len(),
{
    if s.len() > 0 && is_ws(s.last()) {
        lemma_back_ws_bound(s.drop_last());
    }
}

proof fn lemma_ws_run_bound(s: Seq<char>, from: int)
    requires
        0 <= from <= s.len(),
    ensures
        0 <= ws_run(s, from) <= s.len() - from,
    decreases s.len() - from,
{
    if from < s.len() && is_ws(s[from]) {
        lemma_ws_run_bound(s, from + 1);
    }
}

proof fn lemma_digit_run_bound(s: Seq<char>, from: int)
    requires
        0 <= from <= s.len(),
    ensures
        0 <= digit_run(s, from) <= s.len() - from,
    decreases s.len() - from,
{
    if from < s.len() && '0' <= s[from] && s[from] <= '9' {
        lemma_digit_run_bound(s, from + 1);
    }
}

/// Whether `needle` occurs at `start` in `chars`, ignoring ASCII case.
pub fn starts_with_chars(chars: &[char], start: usize, needle: &str) -> (r: bool)
    ensures
        r == starts_ic(chars@, start as int, needle@),
{
    let n = str_chars(needle);
    if start > chars.len() || n.len() > chars.len() - start {
        return false;
    }
    let clen = chars.len();
    let mut k: usize = 0;
    while k < n.len()
        invariant
            clen == chars@.len(),
            n@ == needle@,
            start + n@.len() <= chars@.len(),
            0 <= k <= n@.len(),
            forall|j: int| 0 <= j < k ==> eq_ic(#[trigger] chars@[start + j], needle@[j]),
        decreases n@.len() - k,
    {
        if !chars_equal_ignore_ascii_case(chars[start + k], n[k]) {
            assert(!eq_ic(chars@[start + k as int], needle@[k as int]));
            return false;
        }
        k += 1;
    }
    true
}

/// The number of whitespace characters at the end of `s`.
pub fn trailing_ws_len(s: &[char]) -> (r: usize)
    ensures
        r == back_ws(s@),
{
    let mut n: usize = s.len();
    assert(s@.subrange(0, n as int) =~= s@);
    while n > 0 && char_is_whitespace(s[n - 1])
        invariant
            0 <= n <= s@.len(),
            back_ws(s@) == (s@.len() - n) + back_ws(s@.subrange(0, n as int)),
        decreases n,
    {
        assert(s@.subrange(0, n as int).drop_last() =~= s@.subrange(0, n - 1));
        n -= 1;
    }
    proof {
        if n > 0 {
            assert(s@.subrange(0, n as int).last() == s@[n - 1]);
        }
    }
    s.len() - n
}

/// The number of whitespace characters of `s` from `from` on.
pub(crate) fn leading_ws_len(s: &[char], from: usize) -> (r: usize)
    requires
        from <= s@.len(),
    ensures
        r == ws_run(s@, from as int),
        from + r <= s@.len(),
{
    let mut i = from;
    while i < s.len() && char_is_whitespace(s[i])
        invariant
            from <= i <= s@.len(),
            ws_run(s@, from as int) == (i - from) + ws_run(s@, i as int),
        decreases s@.len() - i,
    {
        i += 1;
    }
    i - from
}

/// `s` without leading and trailing whitespace.
pub fn trim_chars(s: &[char]) -> (r: Vec<char>)
    ensures
        r@ == trim(s@),
{
    let a = leading_ws_len(s, 0);
    let mut mid: Vec<char> = Vec::new();
    let mut i = a;
    while i < s.len()
        invariant
            a <= i <= s@.len(),
            mid@ == s@.subrange(a as int, i as int),
        decreases s@.len() - i,
    {
        mid.push(s[i]);
        i += 1;
        assert(mid@ =~= s@.subrange(a as int, i as int));
    }
    let t = trailing_ws_len(&mid);
    proof {
        lemma_back_ws_bound(mid@);
    }
    let mut r: Vec<char> = Vec::new();
    let mut j: usize = 0;
    while j < mid.len() - t
        invariant
            t <= mid@.len(),
            j <= mid@.len() - t,
            r@ == mid@.subrange(0, j as int),
        decreases mid@.len() - t - j,
    {
        r.push(mid[j]);
        j += 1;
        assert(r@ =~= mid@.subrange(0, j as int));
    }
    r
}

/// Adds the trimmed statement to `statements` unless it is empty.
pub fn push_statement(statements: &mut Vec<Vec<char>>, statement: &[char])
    ensures
        doc(final(statements)@) == doc(old(statements)@) + kept1(statement@),
{
    let trimmed = trim_chars(statement);
    if trimmed.len() > 0 {
        statements.push(trimmed);
        assert(doc(statements@) =~= doc(old(statements)@) + kept1(statement@));
    } else {
        assert(doc(statements@) =~= doc(old(statements)@) + kept1(statement@));
    }
}

/// The trimmed statement as a list of at most one item.
pub open spec fn kept1(s: Seq<char>) -> Seq<Seq<char>> {
    if trim(s).len() > 0 {
        seq![trim(s)]
    } else {
        Seq::<Seq<char>>::empty()
    }
}

/// Removes whitespace before every unquoted `:` and after it.
pub fn compact_inline_colon_separators(source: &[char]) -> (r: Vec<char>)
    ensures
        r@ == compact(source@),
{
    let s = source;
    let mut out: Vec<char> = Vec::new();
    let mut i: usize = 0;
    let mut in_string = false;
    while i < s.len()
        invariant
            0 <= i <= s@.len(),
            out@ == compact_prefix(s@, i as int),
            in_string == in_str(s@, i as int),
            skipping(s@, i as int) ==> i >= s@.len() || !is_ws(s@[i as int]),
        decreases s@.len() - i,
    {
        let ch = s[i];
        if ch == '"' {
            in_string = !in_string;
            out.push(ch);
            i += 1;
            continue;
        }
        if ch == ':' && !in_string {
            let ghost prev = out@;
            let ghost i_start = i;
            while out.len() > 0 && char_is_whitespace(out[out.len() - 1])
                invariant
                    trim_end(out@) == trim_end(prev),
                decreases out@.len(),
            {
                let ghost o = out@;
                out.pop();
                proof {
                    assert(out@ == o.drop_last());
                    assert(o.last() == o[o.len() - 1]);
                    lemma_back_ws_bound(o.drop_last());
                    assert(o.drop_last().subrange(0, o.len() - 1 - back_ws(o.drop_last())) =~= o.subrange(
                        0,
                        o.len() - back_ws(o),
                    ));
                }
            }
            proof {
                assert(back_ws(out@) == 0);
                assert(out@.subrange(0, out@.len() as int) =~= out@);
            }
            out.push(':');
            i += 1;
            let ghost i0 = i;
            while i < s.len() && char_is_whitespace(s[i])
                invariant
                    0 < i0 <= i <= s@.len(),
                    i0 == i_start + 1,
                    out@ == compact_prefix(s@, i as int),
                    in_string == in_str(s@, i as int),
                    skipping(s@, i as int),
                decreases s@.len() - i,
            {
                i += 1;
            }
            continue;
        }
        out.push(ch);
        i += 1;
    }
    out
}


// ---------------------------------------------------------------------------
// Statements of a listing line
// ---------------------------------------------------------------------------

/// The number of spaces at the end of `s`.
pub open spec fn back_sp(s: Seq<char>) -> nat
    decreases s.len(),
{
    if s.len() == 0 || s.last() != ' ' {
        0
    } else {
        1 + back_sp(s.drop_last())
    }
}

/// A `REM ` outside string literals starts the rest of the line as a remark.
pub open spec fn rem_at(s: Seq<char>, i: int) -> bool {
    !in_str(s, i) && starts_ic(s, i, seq!['R', 'E', 'M', ' '])
}

/// The `IF ` at `i` follows `ELSE`, possibly with spaces and one `:` between.
pub open spec fn after_else(s: Seq<char>, i: int) -> bool {
    let p1 = i - back_sp(s.subrange(0, i));
    let p2 = if p1 > 0 && s[p1 - 1] == ':' {
        (p1 - 1) - back_sp(s.subrange(0, p1 - 1))
    } else {
        p1
    };
    &&& p2 >= 4
    &&& starts_ic(s, p2 - 4, seq!['E', 'L', 'S', 'E'])
    &&& (p2 < 5 || !is_alnum(s[p2 - 5]))
}

/// A word `IF ` outside string literals and not after `ELSE` starts a block
/// that runs to the end of the line.
pub open spec fn if_at(s: Seq<char>, i: int) -> bool {
    &&& !in_str(s, i)
    &&& starts_ic(s, i, seq!['I', 'F', ' '])
    &&& !after_else(s, i)
    &&& (i == 0 || !is_alnum(s[i - 1]))
}

pub open spec fn cut_at(s: Seq<char>, i: int) -> bool {
    rem_at(s, i) || if_at(s, i)
}

/// The first position at or after `i` where the rest of the line is kept as
/// one statement; the length of `s` when there is none.
pub open spec fn first_cut(s: Seq<char>, i: int) -> int
    decreases s.len() - i,
{
    if i < 0 || i >= s.len() {
        s.len() as int
    } else if cut_at(s, i) {
        i
    } else {
        first_cut(s, i + 1)
    }
}

/// The pieces of the first `n` characters between unquoted colons.
pub open spec fn pieces(s: Seq<char>, n: int) -> Seq<Seq<char>>
    decreases n,
{
    if n <= 0 {
        seq![Seq::<char>::empty()]
    } else {
        let p = pieces(s, n - 1);
        if unquoted_colon(s, n - 1) {
            p.push(Seq::<char>::empty())
        } else {
            p.update(p.len() - 1, p.last().push(s[n - 1]))
        }
    }
}

/// The trimmed, non-empty pieces.
pub open spec fn kept(ps: Seq<Seq<char>>) -> Seq<Seq<char>>
    decreases ps.len(),
{
    if ps.len() == 0 {
        Seq::<Seq<char>>::empty()
    } else {
        kept(ps.drop_last()) + kept1(ps.last())
    }
}

/// An unquoted colon occurs among the first `n` characters.
pub open spec fn has_colon(s: Seq<char>, n: int) -> bool
    decreases n,
{
    n > 0 && (has_colon(s, n - 1) || unquoted_colon(s, n - 1))
}

/// The first `n` characters end with an unquoted colon and whitespace.
pub open spec fn trailing_at(s: Seq<char>, n: int) -> bool {
    let b = back_ws(s.subrange(0, n));
    b < n && unquoted_colon(s, n - b - 1)
}

/// The statements of `s` (trimmed, empty ones dropped), whether `s` ends
/// with a separator, and whether the layout of separators can change.
pub open spec fn listing(s: Seq<char>) -> (Seq<Seq<char>>, bool, bool) {
    let c = first_cut(s, 0);
    let before = kept(pieces(s, c));
    let rest = s.subrange(c, s.len() as int);
    if c >= s.len() {
        (before, trailing_at(s, s.len() as int), has_colon(s, s.len() as int))
    } else if rem_at(s, c) {
        (before + kept1(rest), false, has_colon(s, c))
    } else {
        (before + kept1(compact(rest)), false, has_colon(s, c) || compact(rest) != rest)
    }
}

/// The statements of a line, as `split_listing_statements` finds them.
pub struct ListingStatements {
    pub items: Vec<Vec<char>>,
    pub trailing_separator: bool,
    pub changed: bool,
}

/// The number of spaces just before `end`.
fn spaces_before(s: &[char], end: usize) -> (r: usize)
    requires
        end <= s@.len(),
    ensures
        r == back_sp(s@.subrange(0, end as int)),
        r <= end,
{
    let mut n: usize = end;
    assert(s@.subrange(0, end as int).subrange(0, n as int) =~= s@.subrange(0, end as int));
    while n > 0 && s[n - 1] == ' '
        invariant
            0 <= n <= end <= s@.len(),
            back_sp(s@.subrange(0, end as int)) == (end - n) + back_sp(s@.subrange(0, n as int)),
        decreases n,
    {
        assert(s@.subrange(0, n as int).drop_last() =~= s@.subrange(0, n - 1));
        n -= 1;
    }
    proof {
        if n > 0 {
            assert(s@.subrange(0, n as int).last() == s@[n - 1]);
        }
    }
    end - n
}

fn extend_from(v: &mut Vec<char>, s: &[char], from: usize)
    requires
        from <= s@.len(),
    ensures
        final(v)@ == old(v)@ + s@.subrange(from as int, s@.len() as int),
{
    let mut i = from;
    while i < s.len()
        invariant
            from <= i <= s@.len(),
            v@ == old(v)@ + s@.subrange(from as int, i as int),
        decreases s@.len() - i,
    {
        v.push(s[i]);
        i += 1;
        assert(v@ =~= old(v)@ + s@.subrange(from as int, i as int));
    }
}

proof fn lemma_kept_push(ps: Seq<Seq<char>>, x: Seq<char>)
    ensures
        kept(ps.push(x)) == kept(ps) + kept1(x),
{
    assert(ps.push(x).drop_last() =~= ps);
}

/// Splits a line (without its line number) into statements at unquoted
/// colons, keeping a `REM` remark or an `IF` block (with its separators
/// compacted) as the last statement.
pub fn split_listing_statements(code: &[char]) -> (r: ListingStatements)
    ensures
        doc(r.items@) == listing(code@).0,
        r.trailing_separator == listing(code@).1,
        r.changed == listing(code@).2,
{
    let chars = code;
    let ghost s = code@;
    let mut statements: Vec<Vec<char>> = Vec::new();
    let mut buffer: Vec<char> = Vec::new();
    let mut i: usize = 0;
    let mut in_string = false;
    let mut trailing_separator = false;
    let mut changed = false;
    proof {
        reveal_strlit("REM ");
        reveal_strlit("IF ");
        reveal_strlit("ELSE");
        assert("REM "@ =~= seq!['R', 'E', 'M', ' ']);
        assert("IF "@ =~= seq!['I', 'F', ' ']);
        assert("ELSE"@ =~= seq!['E', 'L', 'S', 'E']);
        assert(s.subrange(0, 0) =~= Seq::<char>::empty());
    }
    while i < chars.len()
        invariant
            s == chars@,
            s == code@,
            "REM "@ == seq!['R', 'E', 'M', ' '],
            "IF "@ == seq!['I', 'F', ' '],
            "ELSE"@ == seq!['E', 'L', 'S', 'E'],
            0 <= i <= s.len(),
            first_cut(s, 0) == first_cut(s, i as int),
            in_string == in_str(s, i as int),
            pieces(s, i as int).len() >= 1,
            doc(statements@) == kept(pieces(s, i as int).drop_last()),
            buffer@ == pieces(s, i as int).last(),
            trailing_separator == trailing_at(s, i as int),
            changed == has_colon(s, i as int),
        decreases s.len() - i,
    {
        let ch = chars[i];
        let ghost p = pieces(s, i as int);
        proof {
            assert(s.subrange(0, i + 1).drop_last() =~= s.subrange(0, i as int));
            assert(s.subrange(0, i + 1).last() == s[i as int]);
        }
        if ch == '"' {
            in_string = !in_string;
            buffer.push(ch);
            trailing_separator = false;
            i += 1;
            proof {
                assert(!eq_ic(s[i - 1], 'R'));
                assert(!eq_ic(s[i - 1], 'I'));
                assert(!cut_at(s, i - 1));
                assert(pieces(s, i as int).drop_last() =~= p.drop_last());
            }
            continue;
        }
        if !in_string && starts_with_chars(chars, i, "REM ") {
            push_statement(&mut statements, &buffer);
            buffer.clear();
            let mut rem: Vec<char> = Vec::new();
            extend_from(&mut rem, chars, i);
            push_statement(&mut statements, &rem);
            proof {
                assert(rem_at(s, i as int));
                assert(first_cut(s, i as int) == i);
                assert(rem@ =~= s.subrange(i as int, s.len() as int));
                assert(p =~= p.drop_last().push(p.last()));
                lemma_kept_push(p.drop_last(), p.last());
                assert(kept(p) == kept(p.drop_last()) + kept1(p.last()));
            }
            return ListingStatements { items: statements, trailing_separator: false, changed };
        }
        if !in_string && starts_with_chars(chars, i, "IF ") {
            let p1 = i - spaces_before(chars, i);
            let p2 = if p1 > 0 && chars[p1 - 1] == ':' {
                let q = p1 - 1;
                q - spaces_before(chars, q)
            } else {
                p1
            };
            let after = p2 >= 4 && starts_with_chars(chars, p2 - 4, "ELSE") && (p2 < 5
                || !char_is_alnum(chars[p2 - 5]));
            assert(after == after_else(s, i as int));
            if !after && (i == 0 || !char_is_alnum(chars[i - 1])) {
                push_statement(&mut statements, &buffer);
                let mut block_src: Vec<char> = Vec::new();
                extend_from(&mut block_src, chars, i);
                let block = compact_inline_colon_separators(&block_src);
                let same = crate::text::chars_eq(&block, &block_src);
                changed = changed || !same;
                push_statement(&mut statements, &block);
                proof {
                    assert(if_at(s, i as int));
                    assert(first_cut(s, i as int) == i);
                    assert(p =~= p.drop_last().push(p.last()));
                    lemma_kept_push(p.drop_last(), p.last());
                }
                return ListingStatements { items: statements, trailing_separator: false, changed };
            }
        }
        proof {
            assert(!cut_at(s, i as int));
        }
        if ch == ':' && !in_string {
            push_statement(&mut statements, &buffer);
            buffer.clear();
            trailing_separator = true;
            changed = true;
            i += 1;
            proof {
                assert(pieces(s, i as int) == p.push(Seq::<char>::empty()));
                assert(pieces(s, i as int).drop_last() =~= p);
                assert(p =~= p.drop_last().push(p.last()));
                lemma_kept_push(p.drop_last(), p.last());
                assert(buffer@ =~= Seq::<char>::empty());
            }
            continue;
        }
        buffer.push(ch);
        if !char_is_whitespace(ch) {
            trailing_separator = false;
        }
        i += 1;
        proof {
            assert(pieces(s, i as int).drop_last() =~= p.drop_last());
        }
    }
    push_statement(&mut statements, &buffer);
    proof {
        let p = pieces(s, i as int);
        assert(p =~= p.drop_last().push(p.last()));
        lemma_kept_push(p.drop_last(), p.last());
    }
    ListingStatements { items: statements, trailing_separator, changed }
}


// ---------------------------------------------------------------------------
// Line numbers, comments and the layout of a whole line
// ---------------------------------------------------------------------------

/// Where the leading line number and the whitespace after it end: leading
/// whitespace, at least one digit, then at least one whitespace character.
pub open spec fn line_number_end(s: Seq<char>) -> Option<int> {
    let a = ws_run(s, 0) as int;
    let d = digit_run(s, a) as int;
    if d == 0 {
        None
    } else {
        let w = ws_run(s, a + d) as int;
        if w == 0 {
            None
        } else {
            Some(a + d + w)
        }
    }
}

/// The line number with its surrounding whitespace, and the rest.
pub fn split_line_number(text: &[char]) -> (r: Option<(Vec<char>, Vec<char>)>)
    ensures
        match r {
            None => line_number_end(text@) is None,
            Some((prefix, body)) => line_number_end(text@) matches Some(e) && prefix@ == text@.subrange(0, e)
                && body@ == text@.subrange(e, text@.len() as int),
        },
{
    let a = leading_ws_len(text, 0);
    let mut i = a;
    while i < text.len() && '0' <= text[i] && text[i] <= '9'
        invariant
            a <= i <= text@.len(),
            digit_run(text@, a as int) == (i - a) + digit_run(text@, i as int),
        decreases text@.len() - i,
    {
        i += 1;
    }
    if i == a {
        return None;
    }
    let w = leading_ws_len(text, i);
    if w == 0 {
        return None;
    }
    let end = i + w;
    let prefix = crate::text::chars_range(text, 0, end);
    let body = crate::text::chars_range(text, end, text.len());
    Some((prefix, body))
}

/// A `'` outside string literals starts a comment.
pub open spec fn comment_start(s: Seq<char>, i: int) -> bool {
    0 <= i < s.len() && s[i] == '\'' && !in_str(s, i)
}

/// The first comment start at or after `i`; the length of `s` when none.
pub open spec fn first_comment(s: Seq<char>, i: int) -> int
    decreases s.len() - i,
{
    if i < 0 || i >= s.len() {
        s.len() as int
    } else if comment_start(s, i) {
        i
    } else {
        first_comment(s, i + 1)
    }
}

/// The code before a `'` comment (without the whitespace before the `'`),
/// and, when there is a comment, that whitespace's length and the text
/// after the `'`.
pub open spec fn comment_split(s: Seq<char>) -> (Seq<char>, Option<(nat, Seq<char>)>) {
    let c = first_comment(s, 0);
    if c >= s.len() {
        (s, None)
    } else {
        let sp = back_ws(s.subrange(0, c));
        (s.subrange(0, c - sp), Some((sp as nat, s.subrange(c + 1, s.len() as int))))
    }
}

/// Splits off a `'` comment that stands outside string literals.
pub fn split_single_quote_comment(text: &[char]) -> (r: (Vec<char>, Option<(usize, Vec<char>)>))
    ensures
        r.0@ == comment_split(text@).0,
        match r.1 {
            None => comment_split(text@).1 is None,
            Some((sp, c)) => comment_split(text@).1 == Some((sp as nat, c@)),
        },
{
    let ghost s = text@;
    let mut in_string = false;
    let mut i: usize = 0;
    while i < text.len()
        invariant
            s == text@,
            0 <= i <= s.len(),
            in_string == in_str(s, i as int),
            first_comment(s, 0) == first_comment(s, i as int),
        decreases s.len() - i,
    {
        let ch = text[i];
        if ch == '"' {
            in_string = !in_string;
        } else if ch == '\'' && !in_string {
            let spaces = trailing_ws_before(text, i);
            proof {
                lemma_back_ws_bound(s.subrange(0, i as int));
            }
            let code = crate::text::chars_range(text, 0, i - spaces);
            let comment = crate::text::chars_range(text, i + 1, text.len());
            return (code, Some((spaces, comment)));
        }
        i += 1;
    }
    (crate::text::chars_range(text, 0, text.len()), None)
}

/// The number of whitespace characters just before `end`.
fn trailing_ws_before(s: &[char], end: usize) -> (r: usize)
    requires
        end <= s@.len(),
    ensures
        r == back_ws(s@.subrange(0, end as int)),
        r <= end,
{
    let mut n: usize = end;
    assert(s@.subrange(0, end as int).subrange(0, n as int) =~= s@.subrange(0, end as int));
    while n > 0 && char_is_whitespace(s[n - 1])
        invariant
            0 <= n <= end <= s@.len(),
            back_ws(s@.subrange(0, end as int)) == (end - n) + back_ws(s@.subrange(0, n as int)),
        decreases n,
    {
        assert(s@.subrange(0, n as int).drop_last() =~= s@.subrange(0, n - 1));
        n -= 1;
    }
    proof {
        if n > 0 {
            assert(s@.subrange(0, n as int).last() == s@[n - 1]);
        }
    }
    end - n
}

/// The items joined by `sep`.
pub open spec fn join(items: Seq<Seq<char>>, sep: Seq<char>) -> Seq<char>
    decreases items.len(),
{
    if items.len() == 0 {
        Seq::<char>::empty()
    } else if items.len() == 1 {
        items[0]
    } else {
        join(items.drop_last(), sep) + sep + items.last()
    }
}

/// The line with its statements separated by ` : ` (and a trailing ` :`
/// kept), when its separators can change; otherwise the line unchanged.
pub open spec fn format_colon(s: Seq<char>) -> Seq<char> {
    let prefix = match line_number_end(s) {
        Some(e) => s.subrange(0, e),
        None => Seq::<char>::empty(),
    };
    let body = match line_number_end(s) {
        Some(e) => s.subrange(e, s.len() as int),
        None => s,
    };
    let l = listing(body);
    if !l.2 {
        s
    } else {
        prefix + join(l.0, seq![' ', ':', ' ']) + (if l.1 && l.0.len() > 0 {
            seq![' ', ':']
        } else {
            Seq::<char>::empty()
        })
    }
}

/// The items joined by ` : `.
fn join_statements(items: &Vec<Vec<char>>) -> (r: Vec<char>)
    ensures
        r@ == join(doc(items@), seq![' ', ':', ' ']),
{
    let mut out: Vec<char> = Vec::new();
    let mut k: usize = 0;
    while k < items.len()
        invariant
            0 <= k <= items@.len(),
            out@ == join(doc(items@).subrange(0, k as int), seq![' ', ':', ' ']),
        decreases items@.len() - k,
    {
        if k > 0 {
            out.push(' ');
            out.push(':');
            out.push(' ');
        }
        crate::text::extend_with_chars(&mut out, &items[k]);
        proof {
            let d = doc(items@);
            let t = d.subrange(0, k + 1);
            assert(t.drop_last() =~= d.subrange(0, k as int));
            if k == 0 {
                assert(out@ =~= t[0]);
            } else {
                assert(out@ =~= join(t.drop_last(), seq![' ', ':', ' ']) + seq![' ', ':', ' '] + t.last());
            }
        }
        k += 1;
    }
    assert(doc(items@).subrange(0, items@.len() as int) =~= doc(items@));
    out
}

/// Lays out the `:` separators of a line as ` : `.
pub fn format_colon_separators(source: &[char]) -> (r: Vec<char>)
    ensures
        r@ == format_colon(source@),
{
    let (prefix, body) = match split_line_number(source) {
        Some((p, b)) => (p, b),
        None => (Vec::new(), crate::text::chars_range(source, 0, source.len())),
    };
    assert(prefix@ =~= (match line_number_end(source@) {
        Some(e) => source@.subrange(0, e),
        None => Seq::<char>::empty(),
    }));
    assert(body@ =~= (match line_number_end(source@) {
        Some(e) => source@.subrange(e, source@.len() as int),
        None => source@,
    }));
    let statements = split_listing_statements(&body);
    if !statements.changed {
        let r = crate::text::chars_range(source, 0, source.len());
        assert(r@ =~= source@);
        return r;
    }
    let mut formatted = prefix;
    let joined = join_statements(&statements.items);
    crate::text::extend_with_chars(&mut formatted, &joined);
    if statements.trailing_separator && statements.items.len() > 0 {
        formatted.push(' ');
        formatted.push(':');
    }
    assert(formatted@ =~= format_colon(source@));
    formatted
}

/// The line with its `:` separators laid out, and a `'` comment kept after
/// at least one space (none when no code precedes it).
pub open spec fn format_editing(s: Seq<char>) -> Seq<char> {
    let (main, comment) = comment_split(s);
    let r = format_colon(main);
    match comment {
        None => r,
        Some((sp, c)) => {
            let sp2: nat = if trim(r).len() == 0 || sp >= 1 {
                sp
            } else {
                1
            };
            r + crate::text::repeat_char(' ', sp2) + seq!['\''] + c
        },
    }
}

/// Lays out the separators of a line that is being edited.
pub fn format_editing_separators(source: &[char]) -> (r: Vec<char>)
    ensures
        r@ == format_editing(source@),
{
    let (main, comment) = split_single_quote_comment(source);
    let mut result = format_colon_separators(&main);
    match comment {
        None => result,
        Some((spaces, text)) => {
            let t = trim_chars(&result);
            let spaces = if t.len() == 0 || spaces >= 1 {
                spaces
            } else {
                1
            };
            crate::text::push_repeated(&mut result, ' ', spaces);
            result.push('\'');
            crate::text::extend_with_chars(&mut result, &text);
            result
        },
    }
}

/// The character that marks the cursor inside a line while it is formatted.
pub const CURSOR_MARKER: char = '\u{E000}';

/// `s` with the cursor marker inserted before position `cursor`, or at the
/// end when `cursor` lies past it.
pub open spec fn marked(s: Seq<char>, cursor: int) -> Seq<char> {
    let k = if cursor < s.len() {
        cursor
    } else {
        s.len() as int
    };
    s.subrange(0, k) + seq![CURSOR_MARKER] + s.subrange(k, s.len() as int)
}

/// `s` without cursor markers.
pub open spec fn strip_markers(s: Seq<char>) -> Seq<char>
    decreases s.len(),
{
    if s.len() == 0 {
        s
    } else if s.last() == CURSOR_MARKER {
        strip_markers(s.drop_last())
    } else {
        strip_markers(s.drop_last()).push(s.last())
    }
}

/// Where the last cursor marker of `s` stands once markers are removed.
pub open spec fn marker_pos(s: Seq<char>) -> Option<int>
    decreases s.len(),
{
    if s.len() == 0 {
        None
    } else if s.last() == CURSOR_MARKER {
        Some(strip_markers(s.drop_last()).len() as int)
    } else {
        marker_pos(s.drop_last())
    }
}

/// Inserts the cursor marker into `text` at `cursor`.
pub fn mark_cursor(text: &[char], cursor: usize) -> (r: Vec<char>)
    ensures
        r@ == marked(text@, cursor as int),
{
    let k = if cursor < text.len() {
        cursor
    } else {
        text.len()
    };
    let mut r = crate::text::chars_range(text, 0, k);
    r.push(CURSOR_MARKER);
    extend_from(&mut r, text, k);
    r
}

/// Removes the cursor markers of `f`, returning the rest and where the last
/// marker stood.
pub(crate) fn take_markers(f: &[char]) -> (r: (Vec<char>, Option<usize>))
    ensures
        r.0@ == strip_markers(f@),
        match r.1 {
            None => marker_pos(f@) is None,
            Some(c) => marker_pos(f@) == Some(c as int),
        },
{
    let mut out: Vec<char> = Vec::new();
    let mut pos: Option<usize> = None;
    let mut i: usize = 0;
    assert(f@.subrange(0, 0) =~= Seq::<char>::empty());
    while i < f.len()
        invariant
            0 <= i <= f@.len(),
            out@ == strip_markers(f@.subrange(0, i as int)),
            match pos {
                None => marker_pos(f@.subrange(0, i as int)) is None,
                Some(c) => marker_pos(f@.subrange(0, i as int)) == Some(c as int),
            },
        decreases f@.len() - i,
    {
        proof {
            assert(f@.subrange(0, i + 1).drop_last() =~= f@.subrange(0, i as int));
        }
        if f[i] == CURSOR_MARKER {
            pos = Some(out.len());
        } else {
            out.push(f[i]);
        }
        i += 1;
    }
    assert(f@.subrange(0, f@.len() as int) =~= f@);
    (out, pos)
}

/// Lays out the separators of the line in `buffer`, keeping the cursor on
/// the same character; `true` when the line or the cursor changed.
pub fn format_editing_separators_with_cursor(buffer: &mut Vec<char>, cursor: &mut usize) -> (r: bool)
    ensures
        ({
            let f = format_editing(marked(old(buffer)@, *old(cursor) as int));
            if f == marked(old(buffer)@, *old(cursor) as int) || marker_pos(f) is None {
                &&& !r
                &&& final(buffer)@ == old(buffer)@
                &&& *final(cursor) == *old(cursor)
            } else {
                let c = marker_pos(f)->0;
                let nb = strip_markers(f);
                &&& final(buffer)@ == nb
                &&& *final(cursor) as int == (if c < nb.len() {
                    c
                } else {
                    nb.len() as int
                })
                &&& r == (old(buffer)@ != nb || *old(cursor) as int != c)
            }
        }),
{
    let m = mark_cursor(buffer, *cursor);
    let formatted = format_editing_separators(&m);
    if crate::text::chars_eq(&formatted, &m) {
        return false;
    }
    let (new_buffer, new_cursor) = take_markers(&formatted);
    let new_cursor = match new_cursor {
        Some(c) => c,
        None => return false,
    };
    let changed = !crate::text::chars_eq(buffer, &new_buffer) || *cursor != new_cursor;
    *buffer = new_buffer;
    *cursor = if new_cursor < buffer.len() {
        new_cursor
    } else {
        buffer.len()
    };
    changed
}

/// The cursor stands right after an unquoted `:` with only whitespace after it.
pub open spec fn after_unfinished_colon(s: Seq<char>, cursor: int) -> bool {
    &&& 0 < cursor <= s.len()
    &&& s[cursor - 1] == ':'
    &&& forall|k: int| cursor <= k < s.len() ==> is_ws(#[trigger] s[k])
    &&& !in_str(s, cursor - 1)
}

pub fn cursor_after_unfinished_colon_separator(text: &[char], cursor: usize) -> (r: bool)
    ensures
        r == after_unfinished_colon(text@, cursor as int),
{
    if cursor == 0 {
        return false;
    }
    if cursor > text.len() || text[cursor - 1] != ':' {
        return false;
    }
    let mut k = cursor;
    while k < text.len()
        invariant
            cursor <= k <= text@.len(),
            forall|j: int| cursor <= j < k ==> is_ws(#[trigger] text@[j]),
        decreases text@.len() - k,
    {
        if !char_is_whitespace(text[k]) {
            return false;
        }
        k += 1;
    }
    let mut in_string = false;
    let mut i: usize = 0;
    while i < cursor - 1
        invariant
            0 <= i <= cursor - 1,
            cursor <= text@.len(),
            in_string == in_str(text@, i as int),
        decreases cursor - 1 - i,
    {
        if text[i] == '"' {
            in_string = !in_string;
        }
        i += 1;
    }
    !in_string
}

} // verus!
