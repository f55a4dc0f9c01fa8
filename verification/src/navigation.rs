//! Selection of runtime-provided, complete statements in the debugger source
//! view, and the character columns that a selected statement covers.
use std::ops::Range;
use vstd::prelude::*;
use crate::debugger::DebugStatementTarget;
use crate::debug_view::sat_add;

verus! {

// ---------------------------------------------------------------------------
// UTF-8 offsets
// ---------------------------------------------------------------------------

/// The number of bytes of `c` in UTF-8 (`char::len_utf8`).
pub open spec fn utf8_len(c: char) -> int {
    if (c as int) < 0x80 {
        1
    } else if (c as int) < 0x800 {
        2
    } else if (c as int) < 0x10000 {
        3
    } else {
        4
    }
}

/// The byte offset of character `k` of `s`.
pub open spec fn byte_off(s: Seq<char>, k: int) -> int
    decreases k,
{
    if k <= 0 {
        0
    } else {
        byte_off(s, k - 1) + utf8_len(s[k - 1])
    }
}

/// The character index at or after `k` whose byte offset is `b`.
pub open spec fn char_at_byte_from(s: Seq<char>, b: int, k: int) -> Option<int>
    decreases s.len() + 1 - k,
{
    if k < 0 || k > s.len() {
        None
    } else if byte_off(s, k) == b {
        Some(k)
    } else {
        char_at_byte_from(s, b, k + 1)
    }
}

/// The character index at byte offset `b`, when `b` is a character boundary.
pub open spec fn char_at_byte(s: Seq<char>, b: int) -> Option<int> {
    char_at_byte_from(s, b, 0)
}

/// The character range of the byte range `start..end` of `s`, when it is a
/// non-empty range between character boundaries inside `s`.
pub open spec fn statement_span(s: Seq<char>, start: int, end: int) -> Option<(int, int)> {
    if start >= end || end > byte_off(s, s.len() as int) {
        None
    } else {
        match (char_at_byte(s, start), char_at_byte(s, end)) {
            (Some(a), Some(b)) => Some((a, b)),
            _ => None,
        }
    }
}

fn utf8_len_exec(c: char) -> (r: u128)
    ensures
        r == utf8_len(c),
{
    let v = c as u32;
    if v < 0x80 {
        1
    } else if v < 0x800 {
        2
    } else if v < 0x10000 {
        3
    } else {
        4
    }
}

/// The character range of the byte range `span` of `source`; `None` when
/// the range is empty, leaves the text, or cuts a character.
pub fn statement_char_span(source: &str, span: &Range<usize>) -> (r: Option<Range<usize>>)
    ensures
        match r {
            None => statement_span(source@, span.start as int, span.end as int) is None,
            Some(c) => statement_span(source@, span.start as int, span.end as int) == Some(
                (c.start as int, c.end as int),
            ),
        },
{
    let chars = crate::text::str_chars(source);
    let ghost s = source@;
    let n = chars.len();
    let start = span.start;
    let end = span.end;
    let mut off: u128 = 0;
    let mut a: Option<usize> = None;
    let mut b: Option<usize> = None;
    let mut k: usize = 0;
    loop
        invariant
            chars@ == s,
            n == s.len(),
            0 <= k <= n,
            off == byte_off(s, k as int),
            off <= 4 * k,
            match a {
                None => char_at_byte(s, start as int) == char_at_byte_from(s, start as int, k as int),
                Some(x) => char_at_byte(s, start as int) == Some(x as int),
            },
            match b {
                None => char_at_byte(s, end as int) == char_at_byte_from(s, end as int, k as int),
                Some(x) => char_at_byte(s, end as int) == Some(x as int),
            },
        ensures
            k == n,
            off == byte_off(s, n as int),
            match a {
                None => char_at_byte(s, start as int) is None,
                Some(x) => char_at_byte(s, start as int) == Some(x as int),
            },
            match b {
                None => char_at_byte(s, end as int) is None,
                Some(x) => char_at_byte(s, end as int) == Some(x as int),
            },
        decreases n - k,
    {
        if a.is_none() && off == start as u128 {
            a = Some(k);
        }
        if b.is_none() && off == end as u128 {
            b = Some(k);
        }
        if k == n {
            proof {
                assert(char_at_byte_from(s, start as int, k + 1) is None);
                assert(char_at_byte_from(s, end as int, k + 1) is None);
            }
            break;
        }
        off = off + utf8_len_exec(chars[k]);
        k += 1;
    }
    if start >= end || (end as u128) > off {
        return None;
    }
    match (a, b) {
        (Some(x), Some(y)) => Some(x..y),
        _ => None,
    }
}

/// Keeps the part of `start..end` inside the window of `width` columns from
/// `left`, shifted to window columns.
pub open spec fn clip(start: int, end: int, left: int, width: int) -> Seq<Range<usize>> {
    let a = if start > left {
        start
    } else {
        left
    };
    let b = if end < sat_add(left, width) {
        end
    } else {
        sat_add(left, width)
    };
    if a < b {
        seq![Range { start: (a - left) as usize, end: (b - left) as usize }]
    } else {
        Seq::<Range<usize>>::empty()
    }
}

/// The window columns of the selected statement, around an inserted marker
/// of `marker.1` columns at character `marker.0` (the marker itself is never
/// covered).
pub open spec fn visible_ranges(
    s: Seq<char>,
    span: Range<usize>,
    left: int,
    width: int,
    marker: Option<(usize, usize)>,
) -> Seq<Range<usize>> {
    match statement_span(s, span.start as int, span.end as int) {
        None => Seq::<Range<usize>>::empty(),
        Some((ss, se)) => if width == 0 {
            Seq::<Range<usize>>::empty()
        } else {
            match marker {
                Some((p, w)) => if p <= s.len() && w > 0 {
                    (if ss < p {
                        clip(
                            ss,
                            if se < p {
                                se
                            } else {
                                p as int
                            },
                            left,
                            width,
                        )
                    } else {
                        Seq::<Range<usize>>::empty()
                    }) + (if se > p {
                        clip(
                            sat_add(
                                if ss > p {
                                    ss
                                } else {
                                    p as int
                                },
                                w as int,
                            ),
                            sat_add(se, w as int),
                            left,
                            width,
                        )
                    } else {
                        Seq::<Range<usize>>::empty()
                    })
                } else {
                    clip(ss, se, left, width)
                },
                None => clip(ss, se, left, width),
            }
        },
    }
}

fn sat_add_exec(a: usize, b: usize) -> (r: usize)
    ensures
        r == sat_add(a as int, b as int),
{
    if a <= usize::MAX - b {
        a + b
    } else {
        usize::MAX
    }
}

fn push_clipped(ranges: &mut Vec<Range<usize>>, start: usize, end: usize, left: usize, width: usize)
    ensures
        final(ranges)@ == old(ranges)@ + clip(start as int, end as int, left as int, width as int),
{
    let a = if start > left {
        start
    } else {
        left
    };
    let right = sat_add_exec(left, width);
    let b = if end < right {
        end
    } else {
        right
    };
    if a < b {
        ranges.push((a - left)..(b - left));
        assert(ranges@ =~= old(ranges)@ + clip(start as int, end as int, left as int, width as int));
    } else {
        assert(ranges@ =~= old(ranges)@ + clip(start as int, end as int, left as int, width as int));
    }
}

/// The window columns that the statement at byte range `span` of `source`
/// covers, in a window of `width` columns from column `left`, with an
/// inserted marker excluded.
pub fn visible_statement_ranges(
    source: &str,
    span: &Range<usize>,
    left: usize,
    width: usize,
    marker: Option<(usize, usize)>,
) -> (r: Vec<Range<usize>>)
    ensures
        r@ == visible_ranges(source@, *span, left as int, width as int, marker),
{
    let mut ranges: Vec<Range<usize>> = Vec::new();
    let selected = match statement_char_span(source, span) {
        Some(c) => c,
        None => return ranges,
    };
    if width == 0 {
        return ranges;
    }
    let count = crate::text::str_chars(source).len();
    let ss = selected.start;
    let se = selected.end;
    match marker {
        Some((position, inserted)) => {
            if position <= count && inserted > 0 {
                if ss < position {
                    let e = if se < position {
                        se
                    } else {
                        position
                    };
                    push_clipped(&mut ranges, ss, e, left, width);
                }
                let ghost first = ranges@;
                if se > position {
                    let m = if ss > position {
                        ss
                    } else {
                        position
                    };
                    push_clipped(
                        &mut ranges,
                        sat_add_exec(m, inserted),
                        sat_add_exec(se, inserted),
                        left,
                        width,
                    );
                }
                assert(ranges@ =~= visible_ranges(source@, *span, left as int, width as int, marker));
            } else {
                push_clipped(&mut ranges, ss, se, left, width);
                assert(ranges@ =~= visible_ranges(source@, *span, left as int, width as int, marker));
            }
        },
        None => {
            push_clipped(&mut ranges, ss, se, left, width);
            assert(ranges@ =~= visible_ranges(source@, *span, left as int, width as int, marker));
        },
    }
    ranges
}


// ---------------------------------------------------------------------------
// The selected statement
// ---------------------------------------------------------------------------

/// The same statement: the same line and byte range.
pub open spec fn same(a: DebugStatementTarget, b: DebugStatementTarget) -> bool {
    a.line == b.line && a.source_span == b.source_span
}

/// `a` comes before `b`: by line, then by start, then by end.
pub open spec fn target_before(a: DebugStatementTarget, b: DebugStatementTarget) -> bool {
    ||| a.line < b.line
    ||| (a.line == b.line && a.source_span.start < b.source_span.start)
    ||| (a.line == b.line && a.source_span.start == b.source_span.start && a.source_span.end
        < b.source_span.end)
}

/// A statement target with a non-empty byte range.
pub open spec fn non_empty(t: DebugStatementTarget) -> bool {
    t.source_span.start < t.source_span.end
}

/// Strictly ordered, hence free of repeats.
pub open spec fn ordered(ts: Seq<DebugStatementTarget>) -> bool {
    forall|i: int, j: int| 0 <= i < j < ts.len() ==> target_before(ts[i], ts[j])
}

/// The first index at or after `k` whose target is on `line`.
pub open spec fn first_on_line_from(ts: Seq<DebugStatementTarget>, line: Option<i32>, k: int) -> Option<int>
    decreases ts.len() - k,
{
    if k < 0 || k >= ts.len() {
        None
    } else if Some(ts[k].line) == line {
        Some(k)
    } else {
        first_on_line_from(ts, line, k + 1)
    }
}

/// The first index of `t` at or after `k`.
pub open spec fn index_from(ts: Seq<DebugStatementTarget>, t: DebugStatementTarget, k: int) -> Option<int>
    decreases ts.len() - k,
{
    if k < 0 || k >= ts.len() {
        None
    } else if same(ts[k], t) {
        Some(k)
    } else {
        index_from(ts, t, k + 1)
    }
}

/// The indices of the first `n` targets that are on `line`.
pub open spec fn on_line(ts: Seq<DebugStatementTarget>, line: Option<i32>, n: int) -> Seq<int>
    decreases n,
{
    if n <= 0 {
        Seq::<int>::empty()
    } else if Some(ts[n - 1].line) == line {
        on_line(ts, line, n - 1).push(n - 1)
    } else {
        on_line(ts, line, n - 1)
    }
}

/// The first position of `x` in `s`.
pub open spec fn position_of(s: Seq<int>, x: int, k: int) -> Option<int>
    decreases s.len() - k,
{
    if k < 0 || k >= s.len() {
        None
    } else if s[k] == x {
        Some(k)
    } else {
        position_of(s, x, k + 1)
    }
}

/// Target `k` is on `line` and its range encloses `span`.
pub open spec fn encloses(ts: Seq<DebugStatementTarget>, line: Option<i32>, span: Range<usize>, k: int) -> bool {
    &&& Some(ts[k].line) == line
    &&& ts[k].source_span.start <= span.start
    &&& span.end <= ts[k].source_span.end
}

pub open spec fn width_of(t: DebugStatementTarget) -> int {
    t.source_span.end - t.source_span.start
}

/// The first of the narrowest targets among the first `n` that enclose `span`.
pub open spec fn narrowest(ts: Seq<DebugStatementTarget>, line: Option<i32>, span: Range<usize>, n: int) -> Option<int>
    decreases n,
{
    if n <= 0 {
        None
    } else {
        let m = narrowest(ts, line, span, n - 1);
        if encloses(ts, line, span, n - 1) && (m is None || width_of(ts[n - 1]) < width_of(ts[m->0])) {
            Some(n - 1)
        } else {
            m
        }
    }
}

proof fn lemma_insert_contains<A>(s: Seq<A>, pos: int, x: A, u: A)
    requires
        0 <= pos <= s.len(),
    ensures
        s.insert(pos, x).contains(u) <==> (s.contains(u) || u == x),
{
    let t = s.insert(pos, x);
    if t.contains(u) {
        let i = choose|i: int| 0 <= i < t.len() && t[i] == u;
        if i < pos {
            assert(s[i] == u);
        } else if i > pos {
            assert(s[i - 1] == u);
        }
    }
    if u == x {
        assert(t[pos] == u);
    }
    if s.contains(u) {
        let j = choose|j: int| 0 <= j < s.len() && s[j] == u;
        if j < pos {
            assert(t[j] == u);
        } else {
            assert(t[j + 1] == u);
        }
    }
}

proof fn lemma_prefix_contains<A>(s: Seq<A>, k: int, u: A)
    requires
        0 <= k < s.len(),
    ensures
        s.subrange(0, k + 1).contains(u) <==> (s.subrange(0, k).contains(u) || s[k] == u),
{
    let a = s.subrange(0, k);
    let b = s.subrange(0, k + 1);
    if b.contains(u) {
        let i = choose|i: int| 0 <= i < b.len() && b[i] == u;
        if i < k {
            assert(a[i] == u);
        }
    }
    if a.contains(u) {
        let i = choose|i: int| 0 <= i < a.len() && a[i] == u;
        assert(b[i] == u);
    }
    if s[k] == u {
        assert(b[k] == u);
    }
}

proof fn lemma_no_line_none(ts: Seq<DebugStatementTarget>, k: int)
    ensures
        first_on_line_from(ts, None, k) is None,
    decreases ts.len() - k,
{
    if 0 <= k < ts.len() {
        lemma_no_line_none(ts, k + 1);
    }
}

/// The statements of the current line that the debugger offers, and which
/// of them is selected.
pub struct DebugCodeSelection {
    pub targets: Vec<DebugStatementTarget>,
    pub line: Option<i32>,
    pub selected: Option<usize>,
}

impl DebugCodeSelection {
    /// The selected statement, when it is on the current line.
    pub open spec fn sel(&self) -> Option<DebugStatementTarget> {
        match self.selected {
            Some(i) => if i < self.targets@.len() && Some(self.targets@[i as int].line) == self.line {
                Some(self.targets@[i as int])
            } else {
                None
            },
            None => None,
        }
    }

    /// A selection over `targets`, with no current line.
    pub fn new(targets: &[DebugStatementTarget]) -> (r: DebugCodeSelection)
        ensures
            ordered(r.targets@),
            forall|t: DebugStatementTarget|
                #![trigger r.targets@.contains(t)]
                #![trigger targets@.contains(t)]
                r.targets@.contains(t) <==> (targets@.contains(t) && non_empty(t)),
            r.line is None,
            r.selected is None,
    {
        let mut selection = DebugCodeSelection { targets: Vec::new(), line: None, selected: None };
        selection.replace_targets(targets);
        proof {
            lemma_no_line_none(selection.targets@, 0);
        }
        selection
    }

    /// The index of the first target on the current line.
    pub fn first_on_line(&self) -> (r: Option<usize>)
        ensures
            match r {
                None => first_on_line_from(self.targets@, self.line, 0) is None,
                Some(k) => first_on_line_from(self.targets@, self.line, 0) == Some(k as int),
            },
    {
        let mut k: usize = 0;
        while k < self.targets.len()
            invariant
                0 <= k <= self.targets@.len(),
                first_on_line_from(self.targets@, self.line, 0) == first_on_line_from(
                    self.targets@,
                    self.line,
                    k as int,
                ),
            decreases self.targets@.len() - k,
        {
            if Some(self.targets[k].line) == self.line {
                return Some(k);
            }
            k += 1;
        }
        None
    }

    /// The selected statement, when it is on the current line.
    pub fn selected(&self) -> (r: Option<&DebugStatementTarget>)
        ensures
            match r {
                None => self.sel() is None,
                Some(t) => self.sel() == Some(*t),
            },
    {
        match self.selected {
            Some(i) => if i < self.targets.len() && Some(self.targets[i].line) == self.line {
                Some(&self.targets[i])
            } else {
                None
            },
            None => None,
        }
    }

    /// Replaces the targets by the non-empty ones of `targets`, ordered and
    /// without repeats, keeping the selected statement when it is still
    /// offered and otherwise selecting the first one on the current line.
    pub fn replace_targets(&mut self, targets: &[DebugStatementTarget])
        ensures
            ordered(final(self).targets@),
            forall|t: DebugStatementTarget|
                #![trigger final(self).targets@.contains(t)]
                #![trigger targets@.contains(t)]
                final(self).targets@.contains(t) <==> (targets@.contains(t) && non_empty(t)),
            final(self).line == old(self).line,
            final(self).selected == (match old(self).sel() {
                Some(p) => match index_from(final(self).targets@, p, 0) {
                    Some(k) => Some(k as usize),
                    None => match first_on_line_from(final(self).targets@, final(self).line, 0) {
                        Some(k) => Some(k as usize),
                        None => None,
                    },
                },
                None => match first_on_line_from(final(self).targets@, final(self).line, 0) {
                    Some(k) => Some(k as usize),
                    None => None,
                },
            }),
    {
        let previous = match self.selected() {
            Some(t) => Some(t.clone()),
            None => None,
        };
        let mut list: Vec<DebugStatementTarget> = Vec::new();
        let mut k: usize = 0;
        while k < targets.len()
            invariant
                0 <= k <= targets@.len(),
                ordered(list@),
                forall|x: DebugStatementTarget|
                    #![trigger list@.contains(x)]
                    #![trigger targets@.subrange(0, k as int).contains(x)]
                    list@.contains(x) <==> (targets@.subrange(0, k as int).contains(x) && non_empty(x)),
            decreases targets@.len() - k,
        {
            let t = targets[k].clone();
            let ghost head = list@;
            let ghost pre = targets@.subrange(0, k as int);
            proof {
                assert(t == targets@[k as int]);
                assert forall|u: DebugStatementTarget|
                    targets@.subrange(0, k + 1).contains(u) <==> (targets@.subrange(0, k as int).contains(u)
                        || t == u) by {
                    lemma_prefix_contains(targets@, k as int, u);
                }
            }
            if t.source_span.start < t.source_span.end {
                let mut pos: usize = 0;
                while pos < list.len() && before_exec(&list[pos], &t)
                    invariant
                        0 <= pos <= list@.len(),
                        forall|j: int| 0 <= j < pos ==> target_before(list@[j], t),
                    decreases list@.len() - pos,
                {
                    pos += 1;
                }
                let present = pos < list.len() && list[pos].line == t.line
                    && list[pos].source_span.start == t.source_span.start
                    && list[pos].source_span.end == t.source_span.end;
                if !present {
                    let ghost old_list = list@;
                    list.insert(pos, t);
                    proof {
                        assert(list@ == old_list.insert(pos as int, t));
                        assert forall|i: int, j: int|
                            0 <= i < j < list@.len() implies target_before(list@[i], list@[j]) by {
                            if j < pos {
                            } else if j == pos {
                            } else if i < pos {
                                assert(target_before(old_list[i], old_list[j - 1]) || i == j - 1);
                            } else if i == pos {
                                if j - 1 > pos {
                                    assert(target_before(old_list[pos as int], old_list[j - 1]));
                                }
                            } else {
                                assert(target_before(old_list[i - 1], old_list[j - 1]));
                            }
                        }
                        assert forall|u: DebugStatementTarget|
                            list@.contains(u) <==> (old_list.contains(u) || u == t) by {
                            lemma_insert_contains(old_list, pos as int, t, u);
                        }
                    }
                } else {
                    proof {
                        assert(list@[pos as int] == t);
                        assert(list@.contains(t));
                    }
                }
            }
            proof {
                assert forall|u: DebugStatementTarget|
                    #![trigger list@.contains(u)]
                    #![trigger targets@.subrange(0, k + 1).contains(u)]
                    list@.contains(u) <==> (targets@.subrange(0, k + 1).contains(u) && non_empty(u)) by {
                    lemma_prefix_contains(targets@, k as int, u);
                    assert(head.contains(u) <==> (pre.contains(u) && non_empty(u)));
                    if list@.contains(u) && !head.contains(u) {
                        assert(u == t);
                    }
                }
            }
            k += 1;
        }
        assert(targets@.subrange(0, targets@.len() as int) =~= targets@);
        self.targets = list;
        let found = match &previous {
            Some(p) => self.index_of(p),
            None => None,
        };
        self.selected = match found {
            Some(k) => Some(k),
            None => self.first_on_line(),
        };
    }

    /// The index of `t` among the targets.
    pub fn index_of(&self, t: &DebugStatementTarget) -> (r: Option<usize>)
        ensures
            match r {
                None => index_from(self.targets@, *t, 0) is None,
                Some(k) => index_from(self.targets@, *t, 0) == Some(k as int),
            },
    {
        let mut k: usize = 0;
        while k < self.targets.len()
            invariant
                0 <= k <= self.targets@.len(),
                index_from(self.targets@, *t, 0) == index_from(self.targets@, *t, k as int),
            decreases self.targets@.len() - k,
        {
            if same_target(&self.targets[k], t) {
                return Some(k);
            }
            k += 1;
        }
        None
    }

    /// Moves to `line`. A non-empty `prefer_span` selects the narrowest
    /// target of the line that encloses it (else the first of the line);
    /// otherwise a new line, or a lost selection, selects the first target of
    /// the line.
    pub fn sync_line(&mut self, line: Option<i32>, prefer_span: Option<&Range<usize>>)
        ensures
            final(self).targets == old(self).targets,
            final(self).line == line,
            final(self).selected == (match prefer_span {
                Some(span) => if span.start < span.end {
                    match narrowest(old(self).targets@, line, *span, old(self).targets@.len() as int) {
                        Some(k) => Some(k as usize),
                        None => match first_on_line_from(old(self).targets@, line, 0) {
                            Some(k) => Some(k as usize),
                            None => None,
                        },
                    }
                } else if old(self).line != line || (DebugCodeSelection {
                    line,
                    ..*old(self)
                }).sel() is None {
                    match first_on_line_from(old(self).targets@, line, 0) {
                        Some(k) => Some(k as usize),
                        None => None,
                    }
                } else {
                    old(self).selected
                },
                None => if old(self).line != line || (DebugCodeSelection {
                    line,
                    ..*old(self)
                }).sel() is None {
                    match first_on_line_from(old(self).targets@, line, 0) {
                        Some(k) => Some(k as usize),
                        None => None,
                    }
                } else {
                    old(self).selected
                },
            }),
    {
        let changed_line = self.line != line;
        self.line = line;
        let preferred = match prefer_span {
            Some(span) => if span.start < span.end {
                Some(span)
            } else {
                None
            },
            None => None,
        };
        match preferred {
            Some(span) => {
                let mut best: Option<usize> = None;
                let mut k: usize = 0;
                while k < self.targets.len()
                    invariant
                        0 <= k <= self.targets@.len(),
                        self.line == line,
                        span.start < span.end,
                        match best {
                            None => narrowest(self.targets@, line, *span, k as int) is None,
                            Some(b) => narrowest(self.targets@, line, *span, k as int) == Some(b as int)
                                && b < self.targets@.len() && encloses(self.targets@, line, *span, b as int),
                        },
                    decreases self.targets@.len() - k,
                {
                    let t = &self.targets[k];
                    if Some(t.line) == line && t.source_span.start <= span.start && span.end
                        <= t.source_span.end {
                        let take = match best {
                            None => true,
                            Some(b) => {
                                let bt = &self.targets[b];
                                t.source_span.end - t.source_span.start < bt.source_span.end
                                    - bt.source_span.start
                            },
                        };
                        if take {
                            best = Some(k);
                        }
                    }
                    k += 1;
                }
                self.selected = match best {
                    Some(b) => Some(b),
                    None => self.first_on_line(),
                };
            },
            None => {
                if changed_line || self.selected().is_none() {
                    self.selected = self.first_on_line();
                }
            },
        }
    }

    /// The indices of the targets on the current line.
    fn line_candidates(&self) -> (r: Vec<usize>)
        ensures
            r@.len() == on_line(self.targets@, self.line, self.targets@.len() as int).len(),
            forall|i: int|
                0 <= i < r@.len() ==> #[trigger] r@[i] as int == on_line(
                    self.targets@,
                    self.line,
                    self.targets@.len() as int,
                )[i],
            forall|i: int| 0 <= i < r@.len() ==> #[trigger] r@[i] < self.targets@.len(),
    {
        let mut r: Vec<usize> = Vec::new();
        let mut k: usize = 0;
        while k < self.targets.len()
            invariant
                0 <= k <= self.targets@.len(),
                r@.len() == on_line(self.targets@, self.line, k as int).len(),
                forall|i: int|
                    0 <= i < r@.len() ==> #[trigger] r@[i] as int == on_line(self.targets@, self.line, k as int)[i],
                forall|i: int| 0 <= i < r@.len() ==> #[trigger] r@[i] < k,
            decreases self.targets@.len() - k,
        {
            if Some(self.targets[k].line) == self.line {
                r.push(k);
            }
            k += 1;
        }
        r
    }

    /// Moves the selection to the next (or previous) target of the current
    /// line, without wrapping; `true` when the selection changed.
    pub fn move_on_line(&mut self, forward: bool) -> (r: bool)
        ensures
            final(self).targets == old(self).targets,
            final(self).line == old(self).line,
            ({
                let c = on_line(old(self).targets@, old(self).line, old(self).targets@.len() as int);
                if c.len() == 0 {
                    !r && final(self).selected == old(self).selected
                } else {
                    let next = match old(self).selected {
                        Some(s) => match position_of(c, s as int, 0) {
                            Some(p) => if forward {
                                c[if p + 1 < c.len() {
                                    p + 1
                                } else {
                                    c.len() - 1
                                }]
                            } else {
                                c[if p > 0 {
                                    p - 1
                                } else {
                                    0
                                }]
                            },
                            None => c[0],
                        },
                        None => c[0],
                    };
                    &&& final(self).selected == Some(next as usize)
                    &&& r == (old(self).selected != Some(next as usize))
                }
            }),
    {
        let candidates = self.line_candidates();
        let ghost c = on_line(self.targets@, self.line, self.targets@.len() as int);
        if candidates.len() == 0 {
            return false;
        }
        let position = match self.selected {
            Some(s) => {
                let mut p: usize = 0;
                let mut found: Option<usize> = None;
                while p < candidates.len()
                    invariant
                        0 <= p <= candidates@.len(),
                        c == on_line(self.targets@, self.line, self.targets@.len() as int),
                        candidates@.len() == c.len(),
                        forall|i: int| 0 <= i < candidates@.len() ==> #[trigger] candidates@[i] as int == c[i],
                        found is None ==> position_of(c, s as int, 0) == position_of(c, s as int, p as int),
                        found matches Some(f) ==> position_of(c, s as int, 0) == Some(f as int) && f
                            < candidates@.len(),
                    decreases candidates@.len() - p,
                {
                    if found.is_none() && candidates[p] == s {
                        found = Some(p);
                    }
                    p += 1;
                }
                proof {
                    if found is None {
                        assert(position_of(c, s as int, p as int) is None);
                    }
                }
                found
            },
            None => None,
        };
        let next = match position {
            Some(p) => if forward {
                let q = if p + 1 < candidates.len() {
                    p + 1
                } else {
                    candidates.len() - 1
                };
                candidates[q]
            } else {
                let q = if p > 0 {
                    p - 1
                } else {
                    0
                };
                candidates[q]
            },
            None => candidates[0],
        };
        let changed = self.selected != Some(next);
        self.selected = Some(next);
        changed
    }

    /// The 1-based position of the selected target among those of the
    /// current line.
    pub fn ordinal(&self) -> (r: Option<usize>)
        ensures
            ({
                let c = on_line(self.targets@, self.line, self.targets@.len() as int);
                match self.selected {
                    None => r is None,
                    Some(s) => match position_of(c, s as int, 0) {
                        None => r is None,
                        Some(p) => r == Some((p + 1) as usize),
                    },
                }
            }),
    {
        let s = match self.selected {
            Some(s) => s,
            None => return None,
        };
        let candidates = self.line_candidates();
        let ghost c = on_line(self.targets@, self.line, self.targets@.len() as int);
        let mut p: usize = 0;
        while p < candidates.len()
            invariant
                0 <= p <= candidates@.len(),
                c == on_line(self.targets@, self.line, self.targets@.len() as int),
                candidates@.len() == c.len(),
                forall|i: int| 0 <= i < candidates@.len() ==> #[trigger] candidates@[i] as int == c[i],
                position_of(c, s as int, 0) == position_of(c, s as int, p as int),
                self.selected == Some(s),
            decreases candidates@.len() - p,
        {
            if candidates[p] == s {
                return Some(p + 1);
            }
            p += 1;
        }
        None
    }

    /// The character range of the selected statement in `source`.
    pub fn selected_char_span(&self, source: &str) -> (r: Option<Range<usize>>)
        ensures
            match self.sel() {
                None => r is None,
                Some(t) => match r {
                    None => statement_span(source@, t.source_span.start as int, t.source_span.end as int) is None,
                    Some(c) => statement_span(source@, t.source_span.start as int, t.source_span.end as int)
                        == Some((c.start as int, c.end as int)),
                },
            },
    {
        match self.selected() {
            Some(t) => statement_char_span(source, &t.source_span),
            None => None,
        }
    }
}

/// The same statement: the same line and byte range.
pub fn same_target(left: &DebugStatementTarget, right: &DebugStatementTarget) -> (r: bool)
    ensures
        r == same(*left, *right),
{
    left.line == right.line && left.source_span.start == right.source_span.start
        && left.source_span.end == right.source_span.end
}

fn before_exec(a: &DebugStatementTarget, b: &DebugStatementTarget) -> (r: bool)
    ensures
        r == target_before(*a, *b),
{
    a.line < b.line || (a.line == b.line && a.source_span.start < b.source_span.start) || (a.line
        == b.line && a.source_span.start == b.source_span.start && a.source_span.end
        < b.source_span.end)
}

} // verus!
