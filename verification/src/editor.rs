//! The full-screen program editor: a buffer of character lines with a cursor,
//! an optional selection, breakpoints, a clipboard, search and replace,
//! renumbering, and bounded undo/redo history.
use std::collections::HashSet;
use vstd::prelude::*;
use crate::text::{extend_with_range, extend_with_chars, chars_range, string_from_chars, str_chars, push_char, chars_equal_ignore_ascii_case, eq_ic};

verus! {

broadcast use vstd::std_specs::hash::group_hash_axioms;

/// Maximum number of undo snapshots that are kept.
pub const MAX_UNDO_STEPS: usize = 200;

#[derive(Clone, Copy, Debug, PartialEq, Eq, Structural)]
pub struct EditorPosition {
    pub line: usize,
    pub col: usize,
}

/// `a` comes strictly before `b` in document order.
pub open spec fn pos_before(a: EditorPosition, b: EditorPosition) -> bool {
    a.line < b.line || (a.line == b.line && a.col < b.col)
}

fn position_before(a: EditorPosition, b: EditorPosition) -> (r: bool)
    ensures
        r == pos_before(a, b),
{
    a.line < b.line || (a.line == b.line && a.col < b.col)
}

/// The characters of each line.
pub open spec fn doc(lines: Seq<Vec<char>>) -> Seq<Seq<char>> {
    lines.map_values(|l: Vec<char>| l@)
}

/// A position names a line of the document and a column within it
/// (the end of the line included).
pub open spec fn valid_pos(d: Seq<Seq<char>>, p: EditorPosition) -> bool {
    p.line < d.len() && p.col <= d[p.line as int].len()
}

/// A selection anchor lies inside the document and differs from the cursor.
pub open spec fn valid_anchor(d: Seq<Seq<char>>, a: Option<EditorPosition>, cursor: EditorPosition) -> bool {
    a matches Some(p) ==> valid_pos(d, p) && p != cursor
}

#[derive(Debug, PartialEq, Eq)]
pub struct EditorSnapshot {
    pub lines: Vec<Vec<char>>,
    pub breakpoints: HashSet<i32>,
    pub cursor_line: usize,
    pub cursor_col: usize,
    pub top_line: usize,
    pub left_col: usize,
    pub dirty: bool,
    pub selection_anchor: Option<EditorPosition>,
}

/// The mathematical content of a snapshot.
pub struct SnapshotView {
    pub lines: Seq<Seq<char>>,
    pub breakpoints: Set<i32>,
    pub cursor_line: usize,
    pub cursor_col: usize,
    pub top_line: usize,
    pub left_col: usize,
    pub dirty: bool,
    pub selection_anchor: Option<EditorPosition>,
}

impl View for EditorSnapshot {
    type V = SnapshotView;

    open spec fn view(&self) -> SnapshotView {
        SnapshotView {
            lines: doc(self.lines@),
            breakpoints: self.breakpoints@,
            cursor_line: self.cursor_line,
            cursor_col: self.cursor_col,
            top_line: self.top_line,
            left_col: self.left_col,
            dirty: self.dirty,
            selection_anchor: self.selection_anchor,
        }
    }
}

impl SnapshotView {
    /// A snapshot records a well-formed editor state: at least one line, a
    /// cursor inside the lines and a selection anchor inside them, apart
    /// from the cursor.
    pub open spec fn wf(self) -> bool {
        let cursor = EditorPosition { line: self.cursor_line, col: self.cursor_col };
        &&& self.lines.len() >= 1
        &&& valid_pos(self.lines, cursor)
        &&& valid_anchor(self.lines, self.selection_anchor, cursor)
    }
}

pub open spec fn stack_view(s: Seq<EditorSnapshot>) -> Seq<SnapshotView> {
    s.map_values(|e: EditorSnapshot| e@)
}

pub open spec fn stack_wf(s: Seq<SnapshotView>) -> bool {
    forall|i: int| 0 <= i < s.len() ==> (#[trigger] s[i]).wf()
}

/// Copy of a breakpoint set (`HashSet::clone`).
#[verifier::external_body]
pub fn clone_breakpoints(s: &HashSet<i32>) -> (r: HashSet<i32>)
    ensures
        r@ == s@,
{
    s.clone()
}

pub fn clone_chars(v: &Vec<char>) -> (r: Vec<char>)
    ensures
        r@ == v@,
{
    let mut r: Vec<char> = Vec::new();
    let mut i: usize = 0;
    while i < v.len()
        invariant
            i <= v@.len(),
            r@ == v@.subrange(0, i as int),
        decreases v@.len() - i,
    {
        r.push(v[i]);
        i += 1;
        assert(r@ =~= v@.subrange(0, i as int));
    }
    assert(r@ =~= v@);
    r
}

pub fn clone_lines(lines: &Vec<Vec<char>>) -> (r: Vec<Vec<char>>)
    ensures
        doc(r@) == doc(lines@),
{
    let mut r: Vec<Vec<char>> = Vec::new();
    let mut i: usize = 0;
    while i < lines.len()
        invariant
            i <= lines@.len(),
            doc(r@) == doc(lines@).subrange(0, i as int),
        decreases lines@.len() - i,
    {
        let line = clone_chars(&lines[i]);
        let ghost prev = r@;
        r.push(line);
        assert(r@ == prev.push(line));
        assert(doc(r@) =~= doc(prev).push(line@));
        i += 1;
        assert(doc(r@) =~= doc(lines@).subrange(0, i as int));
    }
    assert(doc(lines@).subrange(0, lines@.len() as int) =~= doc(lines@));
    r
}

impl EditorSnapshot {
    pub fn duplicate(&self) -> (r: EditorSnapshot)
        ensures
            r@ == self@,
    {
        EditorSnapshot {
            lines: clone_lines(&self.lines),
            breakpoints: clone_breakpoints(&self.breakpoints),
            cursor_line: self.cursor_line,
            cursor_col: self.cursor_col,
            top_line: self.top_line,
            left_col: self.left_col,
            dirty: self.dirty,
            selection_anchor: self.selection_anchor,
        }
    }
}

impl Clone for EditorSnapshot {
    fn clone(&self) -> (r: EditorSnapshot)
        ensures
            r@ == self@,
    {
        self.duplicate()
    }
}

pub fn clone_stack(s: &Vec<EditorSnapshot>) -> (r: Vec<EditorSnapshot>)
    ensures
        stack_view(r@) == stack_view(s@),
{
    let mut r: Vec<EditorSnapshot> = Vec::new();
    let mut i: usize = 0;
    while i < s.len()
        invariant
            i <= s@.len(),
            stack_view(r@) == stack_view(s@).subrange(0, i as int),
        decreases s@.len() - i,
    {
        let e = s[i].duplicate();
        let ghost prev = r@;
        r.push(e);
        assert(r@ == prev.push(e));
        assert(stack_view(r@) =~= stack_view(prev).push(e@));
        i += 1;
        assert(stack_view(r@) =~= stack_view(s@).subrange(0, i as int));
    }
    assert(stack_view(s@).subrange(0, s@.len() as int) =~= stack_view(s@));
    r
}

} // verus!

verus! {

// ---------------------------------------------------------------------------
// Editing model: replacing a range of the document by a list of line parts
// ---------------------------------------------------------------------------

/// `str::split(sep)`: the parts between separators (at least one).
pub open spec fn split_on(s: Seq<char>, sep: char) -> Seq<Seq<char>>
    decreases s.len(),
{
    if s.len() == 0 {
        seq![Seq::<char>::empty()]
    } else {
        let r = split_on(s.drop_last(), sep);
        if s.last() == sep {
            r.push(Seq::<char>::empty())
        } else {
            r.update(r.len() - 1, r.last().push(s.last()))
        }
    }
}

pub proof fn lemma_split_on_nonempty(s: Seq<char>, sep: char)
    ensures
        split_on(s, sep).len() >= 1,
    decreases s.len(),
{
    if s.len() > 0 {
        lemma_split_on_nonempty(s.drop_last(), sep);
    }
}

/// The new lines made of `parts`, with `prefix` before the first and
/// `tail` after the last.
pub open spec fn splice_parts(prefix: Seq<char>, parts: Seq<Seq<char>>, tail: Seq<char>) -> Seq<
    Seq<char>,
> {
    Seq::new(
        parts.len(),
        |i: int|
            (if i == 0 {
                prefix
            } else {
                Seq::<char>::empty()
            }) + parts[i] + (if i == parts.len() - 1 {
                tail
            } else {
                Seq::<char>::empty()
            }),
    )
}

/// The document after the text from `start` to `end` is replaced by the
/// lines `parts` (a single part inserts no line break).
pub open spec fn edit_doc(
    d: Seq<Seq<char>>,
    start: EditorPosition,
    end: EditorPosition,
    parts: Seq<Seq<char>>,
) -> Seq<Seq<char>> {
    d.subrange(0, start.line as int) + splice_parts(
        d[start.line as int].subrange(0, start.col as int),
        parts,
        d[end.line as int].subrange(end.col as int, d[end.line as int].len() as int),
    ) + d.subrange(end.line + 1, d.len() as int)
}

/// Where the replacement of a range by `parts` ends.
pub open spec fn edit_end(start: EditorPosition, parts: Seq<Seq<char>>) -> EditorPosition {
    EditorPosition {
        line: (start.line + parts.len() - 1) as usize,
        col: ((if parts.len() == 1 {
            start.col as int
        } else {
            0
        }) + parts.last().len()) as usize,
    }
}

/// `p` is where the replacement of a range starting at `start` by `parts`
/// ends, computed without truncation.
pub open spec fn ends_edit(start: EditorPosition, parts: Seq<Seq<char>>, p: EditorPosition) -> bool {
    &&& p == edit_end(start, parts)
    &&& p.line as int == start.line + parts.len() - 1
    &&& p.col as int == (if parts.len() == 1 {
        start.col as int
    } else {
        0
    }) + parts.last().len()
}

/// A replaceable range: two ordered positions inside the document.
pub open spec fn valid_range(d: Seq<Seq<char>>, start: EditorPosition, end: EditorPosition) -> bool {
    valid_pos(d, start) && valid_pos(d, end) && !pos_before(end, start)
}

/// The parts of a character sequence between `\n` separators.
pub fn split_lines(text: &[char]) -> (parts: Vec<Vec<char>>)
    ensures
        doc(parts@) == split_on(text@, '\n'),
        parts@.len() >= 1,
{
    let mut parts: Vec<Vec<char>> = Vec::new();
    let mut current: Vec<char> = Vec::new();
    let mut i: usize = 0;
    while i < text.len()
        invariant
            i <= text@.len(),
            doc(parts@).push(current@) == split_on(text@.subrange(0, i as int), '\n'),
        decreases text@.len() - i,
    {
        let ghost before = text@.subrange(0, i as int);
        let ghost after = text@.subrange(0, i as int + 1);
        assert(after.drop_last() =~= before);
        let c = text[i];
        if c == '\n' {
            let ghost pp = parts@;
            let done = current;
            parts.push(done);
            current = Vec::new();
            assert(doc(parts@) =~= doc(pp).push(done@));
            assert(doc(parts@).push(current@) =~= split_on(after, '\n'));
        } else {
            let ghost cc = current@;
            current.push(c);
            assert(doc(parts@).push(current@) =~= doc(parts@).push(cc).update(
                doc(parts@).len() as int,
                cc.push(c),
            ));
        }
        i += 1;
    }
    assert(text@.subrange(0, text@.len() as int) =~= text@);
    let ghost pp = parts@;
    parts.push(current);
    assert(doc(parts@) =~= doc(pp).push(current@));
    parts
}

} // verus!

verus! {

#[derive(Debug, PartialEq, Eq)]
pub struct BasicEditor {
    pub lines: Vec<Vec<char>>,
    pub breakpoints: HashSet<i32>,
    pub cursor_line: usize,
    pub cursor_col: usize,
    pub top_line: usize,
    pub left_col: usize,
    pub page_rows: usize,
    pub dirty: bool,
    pub selection_anchor: Option<EditorPosition>,
    pub clipboard: String,
    pub last_find: String,
    pub last_replace: String,
    pub undo_stack: Vec<EditorSnapshot>,
    pub redo_stack: Vec<EditorSnapshot>,
}

/// `stack` with `snap` pushed on top, dropping the oldest entry when the
/// history exceeds its bound.
pub open spec fn push_bounded(stack: Seq<SnapshotView>, snap: SnapshotView) -> Seq<SnapshotView> {
    let pushed = stack.push(snap);
    if pushed.len() > MAX_UNDO_STEPS {
        pushed.subrange(1, pushed.len() as int)
    } else {
        pushed
    }
}

pub open spec fn min_int(a: int, b: int) -> int {
    if a <= b {
        a
    } else {
        b
    }
}

/// The ordered selection between the anchor and the cursor, when they differ.
pub open spec fn sel_range(anchor: Option<EditorPosition>, cursor: EditorPosition) -> Option<
    (EditorPosition, EditorPosition),
> {
    match anchor {
        None => None,
        Some(a) => if a == cursor {
            None
        } else if pos_before(a, cursor) {
            Some((a, cursor))
        } else {
            Some((cursor, a))
        },
    }
}

impl BasicEditor {
    pub open spec fn docv(&self) -> Seq<Seq<char>> {
        doc(self.lines@)
    }

    pub open spec fn pos(&self) -> EditorPosition {
        EditorPosition { line: self.cursor_line, col: self.cursor_col }
    }

    /// The cursor names a line and a column of it, the selection anchor lies
    /// inside the document, and every history entry can be restored.
    pub open spec fn wf(&self) -> bool {
        &&& self.docv().len() >= 1
        &&& valid_pos(self.docv(), self.pos())
        &&& valid_anchor(self.docv(), self.selection_anchor, self.pos())
        &&& stack_wf(stack_view(self.undo_stack@))
        &&& stack_wf(stack_view(self.redo_stack@))
    }

    pub open spec fn snap(&self) -> SnapshotView {
        SnapshotView {
            lines: self.docv(),
            breakpoints: self.breakpoints@,
            cursor_line: self.cursor_line,
            cursor_col: self.cursor_col,
            top_line: self.top_line,
            left_col: self.left_col,
            dirty: self.dirty,
            selection_anchor: self.selection_anchor,
        }
    }

    pub open spec fn selection(&self) -> Option<(EditorPosition, EditorPosition)> {
        sel_range(self.selection_anchor, self.pos())
    }

    /// The fields that a snapshot does not hold are those of `other`.
    pub open spec fn same_extras(&self, other: &BasicEditor) -> bool {
        &&& self.page_rows == other.page_rows
        &&& self.clipboard == other.clipboard
        &&& self.last_find == other.last_find
        &&& self.last_replace == other.last_replace
    }

    /// `self` holds what `snap` recorded, with the cursor and the first
    /// visible line clamped to the restored lines.
    pub open spec fn restored_from(&self, snap: SnapshotView) -> bool {
        let last = snap.lines.len() - 1;
        &&& self.docv() == snap.lines
        &&& self.breakpoints@ == snap.breakpoints
        &&& self.cursor_line as int == min_int(snap.cursor_line as int, last)
        &&& self.cursor_col as int == min_int(
            snap.cursor_col as int,
            snap.lines[self.cursor_line as int].len() as int,
        )
        &&& self.top_line as int == min_int(snap.top_line as int, last)
        &&& self.left_col == snap.left_col
        &&& self.dirty == snap.dirty
        &&& self.selection_anchor == snap.selection_anchor
    }

    pub fn position(&self) -> (r: EditorPosition)
        ensures
            r == self.pos(),
    {
        EditorPosition { line: self.cursor_line, col: self.cursor_col }
    }

    pub fn current_line_len(&self) -> (r: usize)
        ensures
            r == (if self.cursor_line < self.lines@.len() {
                self.lines@[self.cursor_line as int]@.len()
            } else {
                0
            }),
    {
        if self.cursor_line < self.lines.len() {
            self.lines[self.cursor_line].len()
        } else {
            0
        }
    }

    pub fn clear_selection(&mut self)
        ensures
            final(self).selection_anchor is None,
            final(self).lines == old(self).lines,
            final(self).breakpoints == old(self).breakpoints,
            final(self).cursor_line == old(self).cursor_line,
            final(self).cursor_col == old(self).cursor_col,
            final(self).top_line == old(self).top_line,
            final(self).left_col == old(self).left_col,
            final(self).page_rows == old(self).page_rows,
            final(self).dirty == old(self).dirty,
            final(self).clipboard == old(self).clipboard,
            final(self).last_find == old(self).last_find,
            final(self).last_replace == old(self).last_replace,
            final(self).undo_stack == old(self).undo_stack,
            final(self).redo_stack == old(self).redo_stack,
    {
        self.selection_anchor = None;
    }

    pub fn selection_range(&self) -> (r: Option<(EditorPosition, EditorPosition)>)
        ensures
            r == self.selection(),
    {
        let anchor = match self.selection_anchor {
            Some(a) => a,
            None => return None,
        };
        let cursor = self.position();
        if anchor == cursor {
            None
        } else if position_before(anchor, cursor) {
            Some((anchor, cursor))
        } else {
            Some((cursor, anchor))
        }
    }

    pub fn snapshot(&self) -> (r: EditorSnapshot)
        ensures
            r@ == self.snap(),
    {
        EditorSnapshot {
            lines: clone_lines(&self.lines),
            breakpoints: clone_breakpoints(&self.breakpoints),
            cursor_line: self.cursor_line,
            cursor_col: self.cursor_col,
            top_line: self.top_line,
            left_col: self.left_col,
            dirty: self.dirty,
            selection_anchor: self.selection_anchor,
        }
    }

    pub fn restore_snapshot(&mut self, snapshot: EditorSnapshot)
        requires
            snapshot@.wf(),
        ensures
            final(self).restored_from(snapshot@),
            final(self).same_extras(old(self)),
            final(self).undo_stack == old(self).undo_stack,
            final(self).redo_stack == old(self).redo_stack,
    {
        let ghost snap = snapshot@;
        self.lines = snapshot.lines;
        self.breakpoints = snapshot.breakpoints;
        let last = self.lines.len() - 1;
        self.cursor_line = if snapshot.cursor_line < last {
            snapshot.cursor_line
        } else {
            last
        };
        let len = self.lines[self.cursor_line].len();
        self.cursor_col = if snapshot.cursor_col < len {
            snapshot.cursor_col
        } else {
            len
        };
        self.top_line = if snapshot.top_line < last {
            snapshot.top_line
        } else {
            last
        };
        self.left_col = snapshot.left_col;
        self.dirty = snapshot.dirty;
        self.selection_anchor = snapshot.selection_anchor;
    }

    pub fn push_undo_snapshot(&mut self, snapshot: EditorSnapshot)
        ensures
            stack_view(final(self).undo_stack@) == push_bounded(
                stack_view(old(self).undo_stack@),
                snapshot@,
            ),
            final(self).redo_stack@.len() == 0,
            final(self).lines == old(self).lines,
            final(self).breakpoints == old(self).breakpoints,
            final(self).cursor_line == old(self).cursor_line,
            final(self).cursor_col == old(self).cursor_col,
            final(self).top_line == old(self).top_line,
            final(self).left_col == old(self).left_col,
            final(self).dirty == old(self).dirty,
            final(self).selection_anchor == old(self).selection_anchor,
            final(self).same_extras(old(self)),
    {
        let ghost old_stack = self.undo_stack@;
        let ghost sv = snapshot@;
        self.undo_stack.push(snapshot);
        assert(stack_view(self.undo_stack@) =~= stack_view(old_stack).push(sv));
        if self.undo_stack.len() > MAX_UNDO_STEPS {
            let ghost pushed = self.undo_stack@;
            self.undo_stack.remove(0);
            assert(stack_view(self.undo_stack@) =~= stack_view(pushed).subrange(
                1,
                pushed.len() as int,
            ));
        }
        self.redo_stack.clear();
    }

    pub fn record_undo(&mut self)
        ensures
            stack_view(final(self).undo_stack@) == push_bounded(
                stack_view(old(self).undo_stack@),
                old(self).snap(),
            ),
            final(self).redo_stack@.len() == 0,
            final(self).lines == old(self).lines,
            final(self).breakpoints == old(self).breakpoints,
            final(self).cursor_line == old(self).cursor_line,
            final(self).cursor_col == old(self).cursor_col,
            final(self).top_line == old(self).top_line,
            final(self).left_col == old(self).left_col,
            final(self).dirty == old(self).dirty,
            final(self).selection_anchor == old(self).selection_anchor,
            final(self).same_extras(old(self)),
    {
        let snapshot = self.snapshot();
        self.push_undo_snapshot(snapshot);
    }

    /// The cursor, the lines and nothing else may differ.
    pub open spec fn only_text_changed(&self, other: &BasicEditor) -> bool {
        &&& self.breakpoints == other.breakpoints
        &&& self.top_line == other.top_line
        &&& self.left_col == other.left_col
        &&& self.dirty == other.dirty
        &&& self.selection_anchor == other.selection_anchor
        &&& self.page_rows == other.page_rows
        &&& self.clipboard == other.clipboard
        &&& self.last_find == other.last_find
        &&& self.last_replace == other.last_replace
        &&& self.undo_stack == other.undo_stack
        &&& self.redo_stack == other.redo_stack
    }

    /// Replaces the text from `start` to `end` by the lines `parts` and puts
    /// the cursor at the end of the inserted text.
    pub fn splice(&mut self, start: EditorPosition, end: EditorPosition, parts: &Vec<Vec<char>>)
        requires
            old(self).docv().len() >= 1,
            valid_range(old(self).docv(), start, end),
            parts@.len() >= 1,
        ensures
            final(self).docv() == edit_doc(old(self).docv(), start, end, doc(parts@)),
            ends_edit(start, doc(parts@), final(self).pos()),
            final(self).docv().len() >= 1,
            valid_pos(final(self).docv(), final(self).pos()),
            final(self).only_text_changed(old(self)),
    {
        let ghost d = self.docv();
        let ghost p = doc(parts@);
        let ghost prefix = d[start.line as int].subrange(0, start.col as int);
        let ghost tail = d[end.line as int].subrange(end.col as int, d[end.line as int].len() as int);
        let ghost mid = splice_parts(prefix, p, tail);
        let mut new_lines: Vec<Vec<char>> = Vec::new();
        let mut i: usize = 0;
        while i < start.line
            invariant
                d == doc(self.lines@),
                start.line < d.len(),
                i <= start.line,
                doc(new_lines@) == d.subrange(0, i as int),
            decreases start.line - i,
        {
            let line = clone_chars(&self.lines[i]);
            let ghost prev = new_lines@;
            new_lines.push(line);
            assert(doc(new_lines@) =~= doc(prev).push(line@));
            assert(doc(new_lines@) =~= d.subrange(0, i as int + 1));
            i += 1;
        }
        let n = parts.len();
        let mut k: usize = 0;
        while k < n
            invariant
                d == doc(self.lines@),
                p == doc(parts@),
                n == p.len(),
                n >= 1,
                valid_range(d, start, end),
                prefix == d[start.line as int].subrange(0, start.col as int),
                tail == d[end.line as int].subrange(end.col as int, d[end.line as int].len() as int),
                mid == splice_parts(prefix, p, tail),
                k <= n,
                doc(new_lines@) == d.subrange(0, start.line as int) + mid.subrange(0, k as int),
            decreases n - k,
        {
            let mut line: Vec<char> = Vec::new();
            if k == 0 {
                extend_with_range(&mut line, &self.lines[start.line], 0, start.col);
            }
            extend_with_chars(&mut line, &parts[k]);
            if k == n - 1 {
                let len = self.lines[end.line].len();
                extend_with_range(&mut line, &self.lines[end.line], end.col, len);
            }
            assert(line@ =~= mid[k as int]);
            let ghost prev = new_lines@;
            new_lines.push(line);
            assert(doc(new_lines@) =~= doc(prev).push(line@));
            assert(doc(new_lines@) =~= d.subrange(0, start.line as int) + mid.subrange(
                0,
                k as int + 1,
            ));
            k += 1;
        }
        let total = self.lines.len();
        let mut j: usize = end.line + 1;
        while j < total
            invariant
                d == doc(self.lines@),
                total == d.len(),
                end.line < total,
                end.line + 1 <= j <= total,
                mid.len() == n,
                doc(new_lines@) == d.subrange(0, start.line as int) + mid + d.subrange(
                    end.line + 1,
                    j as int,
                ),
            decreases total - j,
        {
            let line = clone_chars(&self.lines[j]);
            let ghost prev = new_lines@;
            new_lines.push(line);
            assert(doc(new_lines@) =~= doc(prev).push(line@));
            assert(doc(new_lines@) =~= d.subrange(0, start.line as int) + mid + d.subrange(
                end.line + 1,
                j as int + 1,
            ));
            j += 1;
        }
        assert(mid.subrange(0, n as int) =~= mid);
        let tail_len = self.lines[end.line].len() - end.col;
        let new_total = new_lines.len();
        assert(doc(new_lines@).len() == new_total);
        let line_index = start.line + (n - 1);
        assert(doc(new_lines@)[line_index as int] == mid[n - 1]);
        let col = new_lines[line_index].len() - tail_len;
        self.lines = new_lines;
        self.cursor_line = line_index;
        self.cursor_col = col;
        assert(self.docv()[self.cursor_line as int] == mid[n - 1]);
    }

    /// Restores the most recent undo snapshot, saving the current state for
    /// redo; `false` when there is nothing to undo.
    pub fn undo(&mut self) -> (r: bool)
        requires
            old(self).wf(),
        ensures
            r == (old(self).undo_stack@.len() > 0),
            !r ==> *final(self) == *old(self),
            r ==> {
                &&& final(self).restored_from(stack_view(old(self).undo_stack@).last())
                &&& crate::laws::undone(&*old(self), &*final(self))
                &&& stack_view(final(self).undo_stack@) == stack_view(
                    old(self).undo_stack@,
                ).drop_last()
                &&& stack_view(final(self).redo_stack@) == stack_view(
                    old(self).redo_stack@,
                ).push(old(self).snap())
                &&& final(self).same_extras(old(self))
            },
            final(self).wf(),
    {
        if self.undo_stack.len() == 0 {
            return false;
        }
        let ghost old_undo = self.undo_stack@;
        let ghost old_redo = self.redo_stack@;
        let snapshot = self.undo_stack.pop().unwrap();
        assert(stack_view(self.undo_stack@) =~= stack_view(old_undo).drop_last());
        assert(snapshot@ == stack_view(old_undo).last());
        let ghost snap = snapshot@;
        assert(stack_view(old_undo)[stack_view(old_undo).len() - 1].wf());
        let current = self.snapshot();
        self.redo_stack.push(current);
        assert(stack_view(self.redo_stack@) =~= stack_view(old_redo).push(current@));
        self.restore_snapshot(snapshot);
        assert(self.pos() == EditorPosition { line: snap.cursor_line, col: snap.cursor_col });
        assert(stack_wf(stack_view(self.undo_stack@)));
        assert(stack_wf(stack_view(self.redo_stack@)));
        true
    }

    /// Restores the most recent redo snapshot, saving the current state for
    /// undo; `false` when there is nothing to redo.
    pub fn redo(&mut self) -> (r: bool)
        requires
            old(self).wf(),
        ensures
            r == (old(self).redo_stack@.len() > 0),
            !r ==> *final(self) == *old(self),
            r ==> {
                &&& final(self).restored_from(stack_view(old(self).redo_stack@).last())
                &&& crate::laws::redone(&*old(self), &*final(self))
                &&& stack_view(final(self).redo_stack@) == stack_view(
                    old(self).redo_stack@,
                ).drop_last()
                &&& stack_view(final(self).undo_stack@) == stack_view(
                    old(self).undo_stack@,
                ).push(old(self).snap())
                &&& final(self).same_extras(old(self))
            },
            final(self).wf(),
    {
        if self.redo_stack.len() == 0 {
            return false;
        }
        let ghost old_undo = self.undo_stack@;
        let ghost old_redo = self.redo_stack@;
        let snapshot = self.redo_stack.pop().unwrap();
        assert(stack_view(self.redo_stack@) =~= stack_view(old_redo).drop_last());
        assert(snapshot@ == stack_view(old_redo).last());
        let ghost snap = snapshot@;
        assert(stack_view(old_redo)[stack_view(old_redo).len() - 1].wf());
        let current = self.snapshot();
        self.undo_stack.push(current);
        assert(stack_view(self.undo_stack@) =~= stack_view(old_undo).push(current@));
        self.restore_snapshot(snapshot);
        assert(self.pos() == EditorPosition { line: snap.cursor_line, col: snap.cursor_col });
        assert(stack_wf(stack_view(self.undo_stack@)));
        assert(stack_wf(stack_view(self.redo_stack@)));
        true
    }
}

} // verus!

verus! {

pub open spec fn empty_parts() -> Seq<Seq<char>> {
    seq![Seq::<char>::empty()]
}

/// Deleting a range and then inserting at its start is one replacement.
pub proof fn lemma_delete_then_insert(
    d: Seq<Seq<char>>,
    s: EditorPosition,
    e: EditorPosition,
    p: Seq<Seq<char>>,
)
    requires
        valid_range(d, s, e),
        p.len() >= 1,
    ensures
        valid_range(edit_doc(d, s, e, empty_parts()), s, s),
        edit_doc(edit_doc(d, s, e, empty_parts()), s, s, p) == edit_doc(d, s, e, p),
{
    let d1 = edit_doc(d, s, e, empty_parts());
    let prefix = d[s.line as int].subrange(0, s.col as int);
    let tail = d[e.line as int].subrange(e.col as int, d[e.line as int].len() as int);
    let joined = prefix + tail;
    assert(splice_parts(prefix, empty_parts(), tail) =~= seq![joined]);
    assert(d1 =~= d.subrange(0, s.line as int) + seq![joined] + d.subrange(e.line + 1, d.len() as int));
    assert(d1[s.line as int] == joined);
    assert(joined.subrange(0, s.col as int) =~= prefix);
    assert(joined.subrange(s.col as int, joined.len() as int) =~= tail);
    assert(d1.subrange(0, s.line as int) =~= d.subrange(0, s.line as int));
    assert(d1.subrange(s.line + 1, d1.len() as int) =~= d.subrange(e.line + 1, d.len() as int));
    assert(edit_doc(d1, s, s, p) =~= edit_doc(d, s, e, p));
}

impl BasicEditor {
    /// The range that an edit replaces: the selection, or the empty range at
    /// the cursor.
    pub open spec fn edit_range(&self) -> (EditorPosition, EditorPosition) {
        match self.selection() {
            Some(r) => r,
            None => (self.pos(), self.pos()),
        }
    }

    /// Breakpoints, scrolling, clipboard and search texts are those of `other`.
    pub open spec fn keeps_settings(&self, other: &BasicEditor) -> bool {
        &&& self.breakpoints == other.breakpoints
        &&& self.top_line == other.top_line
        &&& self.left_col == other.left_col
        &&& self.page_rows == other.page_rows
        &&& self.clipboard == other.clipboard
        &&& self.last_find == other.last_find
        &&& self.last_replace == other.last_replace
    }

    /// The history records `before` as the newest undo step and forgets redo.
    pub open spec fn recorded(&self, before: &BasicEditor) -> bool {
        &&& stack_view(self.undo_stack@) == push_bounded(
            stack_view(before.undo_stack@),
            before.snap(),
        )
        &&& self.redo_stack@.len() == 0
    }

    pub open spec fn same_history(&self, other: &BasicEditor) -> bool {
        &&& self.undo_stack == other.undo_stack
        &&& self.redo_stack == other.redo_stack
    }

    /// `self` is `before` with the range `(s, e)` replaced by `parts`, the
    /// cursor after the inserted text, no selection, and the buffer dirty.
    pub open spec fn edited(
        &self,
        before: &BasicEditor,
        s: EditorPosition,
        e: EditorPosition,
        parts: Seq<Seq<char>>,
    ) -> bool {
        &&& self.docv() == edit_doc(before.docv(), s, e, parts)
        &&& ends_edit(s, parts, self.pos())
        &&& self.selection_anchor is None
        &&& self.dirty
        &&& self.keeps_settings(before)
    }

    pub proof fn lemma_selection_valid(&self)
        requires
            self.wf(),
        ensures
            valid_range(self.docv(), self.edit_range().0, self.edit_range().1),
            self.selection() is Some <==> self.selection_anchor is Some,
    {
    }

    pub proof fn lemma_history_wf(&self, before: &BasicEditor)
        requires
            before.wf(),
            self.recorded(before),
        ensures
            stack_wf(stack_view(self.undo_stack@)),
            stack_wf(stack_view(self.redo_stack@)),
    {
        let pushed = stack_view(before.undo_stack@).push(before.snap());
        assert(stack_wf(pushed)) by {
            assert forall|i: int| 0 <= i < pushed.len() implies (#[trigger] pushed[i]).wf() by {
                if i < pushed.len() - 1 {
                    assert(stack_view(before.undo_stack@)[i].wf());
                }
            }
        }
        if pushed.len() > MAX_UNDO_STEPS {
            let t = pushed.subrange(1, pushed.len() as int);
            assert forall|i: int| 0 <= i < t.len() implies (#[trigger] t[i]).wf() by {
                assert(pushed[i + 1].wf());
            }
        }
        assert(stack_view(self.redo_stack@) =~= Seq::<SnapshotView>::empty());
    }

    /// Deletes the selected text, leaving the cursor at its start; `false`
    /// when nothing is selected. No history is recorded.
    pub fn delete_selection_without_history(&mut self) -> (r: bool)
        requires
            old(self).wf(),
        ensures
            r == old(self).selection() is Some,
            r ==> final(self).edited(
                old(self),
                old(self).edit_range().0,
                old(self).edit_range().1,
                empty_parts(),
            ),
            !r ==> *final(self) == *old(self),
            final(self).same_history(old(self)),
            final(self).wf(),
    {
        let (start, end) = match self.selection_range() {
            Some(range) => range,
            None => return false,
        };
        let mut parts: Vec<Vec<char>> = Vec::new();
        parts.push(Vec::new());
        assert(doc(parts@) =~= empty_parts());
        self.splice(start, end, &parts);
        self.clear_selection();
        self.dirty = true;
        true
    }

    /// Inserts text at the cursor, splitting lines at each `\n`; the cursor
    /// moves after the inserted text. The selection anchor is kept.
    pub fn insert_text_without_history(&mut self, text: &str)
        requires
            old(self).wf(),
        ensures
            final(self).docv() == edit_doc(
                old(self).docv(),
                old(self).pos(),
                old(self).pos(),
                split_on(text@, '\n'),
            ),
            ends_edit(old(self).pos(), split_on(text@, '\n'), final(self).pos()),
            final(self).docv().len() >= 1,
            valid_pos(final(self).docv(), final(self).pos()),
            final(self).only_text_changed(old(self)),
    {
        let chars = str_chars(text);
        let parts = split_lines(&chars);
        let cursor = self.position();
        self.splice(cursor, cursor, &parts);
    }

    /// Replaces the selection by `replacement`; `false` when nothing is
    /// selected. No history is recorded.
    pub fn replace_selected_without_history(&mut self, replacement: &str) -> (r: bool)
        requires
            old(self).wf(),
        ensures
            r == old(self).selection() is Some,
            r ==> final(self).edited(
                old(self),
                old(self).edit_range().0,
                old(self).edit_range().1,
                split_on(replacement@, '\n'),
            ),
            !r ==> *final(self) == *old(self),
            final(self).same_history(old(self)),
            final(self).wf(),
    {
        let ghost before = *self;
        if !self.delete_selection_without_history() {
            return false;
        }
        proof {
            lemma_split_on_nonempty(replacement@, '\n');
            lemma_delete_then_insert(
                before.docv(),
                before.edit_range().0,
                before.edit_range().1,
                split_on(replacement@, '\n'),
            );
        }
        self.insert_text_without_history(replacement);
        self.clear_selection();
        self.dirty = true;
        true
    }

    /// Replaces the selection (or inserts at the cursor) with `text`,
    /// recording one undo step; nothing happens for empty text.
    pub fn insert_text(&mut self, text: &str)
        requires
            old(self).wf(),
        ensures
            text@.len() == 0 ==> *final(self) == *old(self),
            text@.len() > 0 ==> {
                &&& final(self).edited(
                    old(self),
                    old(self).edit_range().0,
                    old(self).edit_range().1,
                    split_on(text@, '\n'),
                )
                &&& final(self).recorded(old(self))
            },
            final(self).wf(),
    {
        if text.is_empty() {
            return;
        }
        let ghost before = *self;
        proof {
            before.lemma_selection_valid();
            lemma_split_on_nonempty(text@, '\n');
            lemma_delete_then_insert(
                before.docv(),
                before.edit_range().0,
                before.edit_range().1,
                split_on(text@, '\n'),
            );
        }
        self.record_undo();
        proof {
            self.lemma_history_wf(&before);
        }
        self.delete_selection_without_history();
        self.insert_text_without_history(text);
        self.clear_selection();
        self.dirty = true;
    }
}

} // verus!

verus! {

pub open spec fn line_break_parts() -> Seq<Seq<char>> {
    seq![Seq::<char>::empty(), Seq::<char>::empty()]
}

impl BasicEditor {
    /// Removes the range `(s, e)` (recording an undo step), as backspace and
    /// delete do.
    fn remove_range_recorded(&mut self, s: EditorPosition, e: EditorPosition)
        requires
            old(self).wf(),
            old(self).selection_anchor is None,
            valid_range(old(self).docv(), s, e),
        ensures
            final(self).edited(old(self), s, e, empty_parts()),
            final(self).recorded(old(self)),
            final(self).wf(),
    {
        let ghost before = *self;
        self.record_undo();
        proof {
            self.lemma_history_wf(&before);
        }
        let mut parts: Vec<Vec<char>> = Vec::new();
        parts.push(Vec::new());
        assert(doc(parts@) =~= empty_parts());
        self.splice(s, e, &parts);
        self.dirty = true;
    }

    /// Splits the current line at the cursor (replacing any selection),
    /// recording one undo step; the cursor moves to the start of the new line.
    pub fn insert_newline(&mut self)
        requires
            old(self).wf(),
        ensures
            final(self).edited(
                old(self),
                old(self).edit_range().0,
                old(self).edit_range().1,
                line_break_parts(),
            ),
            final(self).recorded(old(self)),
            final(self).wf(),
    {
        let ghost before = *self;
        proof {
            before.lemma_selection_valid();
            lemma_delete_then_insert(
                before.docv(),
                before.edit_range().0,
                before.edit_range().1,
                line_break_parts(),
            );
        }
        self.record_undo();
        proof {
            self.lemma_history_wf(&before);
        }
        self.delete_selection_without_history();
        let mut parts: Vec<Vec<char>> = Vec::new();
        parts.push(Vec::new());
        parts.push(Vec::new());
        assert(doc(parts@) =~= line_break_parts());
        let cursor = self.position();
        self.splice(cursor, cursor, &parts);
        self.clear_selection();
        self.dirty = true;
    }

    /// What Backspace leaves: the selection, or the character or line break
    /// before the cursor, removed as one undo step.
    pub open spec fn backspaced(&self, before: &BasicEditor) -> bool {
        &&& (before.selection() is Some ==> self.edited(
                before,
                before.edit_range().0,
                before.edit_range().1,
                empty_parts(),
            ) && self.recorded(before))
        &&& (before.selection() is None && before.cursor_col > 0 ==> self.edited(
                before,
                EditorPosition { line: before.cursor_line, col: (before.cursor_col - 1) as usize },
                before.pos(),
                empty_parts(),
            ) && self.recorded(before))
        &&& (before.selection() is None && before.cursor_col == 0 && before.cursor_line > 0
                ==> self.edited(
                before,
                EditorPosition {
                    line: (before.cursor_line - 1) as usize,
                    col: before.docv()[before.cursor_line - 1].len() as usize,
                },
                before.pos(),
                empty_parts(),
            ) && self.recorded(before))
        &&& (before.selection() is None && before.cursor_col == 0 && before.cursor_line == 0
                ==> *self == *before)
        &&& (self.wf())
    }

    /// Deletes the selection, else the character before the cursor, else
    /// joins the line with the previous one; each change records one undo
    /// step. Nothing happens at the start of the document.
    pub fn backspace(&mut self)
        requires
            old(self).wf(),
        ensures
            final(self).backspaced(old(self)),
            final(self).wf(),
    {
        let ghost before = *self;
        if self.selection_range().is_some() {
            self.record_undo();
            proof {
                self.lemma_history_wf(&before);
            }
            self.delete_selection_without_history();
            return;
        }
        if self.cursor_col > 0 {
            let start = EditorPosition { line: self.cursor_line, col: self.cursor_col - 1 };
            let end = self.position();
            self.remove_range_recorded(start, end);
        } else if self.cursor_line > 0 {
            let prev = self.cursor_line - 1;
            let start = EditorPosition { line: prev, col: self.lines[prev].len() };
            let end = self.position();
            self.remove_range_recorded(start, end);
        }
    }

    /// What Delete leaves: the selection, or the character or line break
    /// after the cursor, removed as one undo step.
    pub open spec fn deleted_forward(&self, before: &BasicEditor) -> bool {
        &&& (before.selection() is Some ==> self.edited(
                before,
                before.edit_range().0,
                before.edit_range().1,
                empty_parts(),
            ) && self.recorded(before))
        &&& (before.selection() is None && before.cursor_col < before.docv()[before.cursor_line as int].len() ==> self.edited(
                before,
                before.pos(),
                EditorPosition { line: before.cursor_line, col: (before.cursor_col + 1) as usize },
                empty_parts(),
            ) && self.recorded(before))
        &&& (before.selection() is None && before.cursor_col == before.docv()[before.cursor_line as int].len() && before.cursor_line + 1 < before.docv().len()
                ==> self.edited(
                before,
                before.pos(),
                EditorPosition { line: (before.cursor_line + 1) as usize, col: 0 },
                empty_parts(),
            ) && self.recorded(before))
        &&& (before.selection() is None && before.cursor_col == before.docv()[before.cursor_line as int].len() && before.cursor_line + 1 == before.docv().len()
                ==> *self == *before)
        &&& (self.wf())
    }

    /// Deletes the selection, else the character under the cursor, else
    /// joins the next line onto this one; each change records one undo step.
    /// Nothing happens at the end of the document.
    pub fn delete(&mut self)
        requires
            old(self).wf(),
        ensures
            final(self).deleted_forward(old(self)),
            final(self).wf(),
    {
        let ghost before = *self;
        if self.selection_range().is_some() {
            self.record_undo();
            proof {
                self.lemma_history_wf(&before);
            }
            self.delete_selection_without_history();
            return;
        }
        let len = self.current_line_len();
        if self.cursor_col < len {
            let start = self.position();
            let end = EditorPosition { line: self.cursor_line, col: self.cursor_col + 1 };
            self.remove_range_recorded(start, end);
        } else if self.cursor_line < self.lines.len() - 1 {
            let start = self.position();
            let end = EditorPosition { line: self.cursor_line + 1, col: 0 };
            self.remove_range_recorded(start, end);
        }
    }
}

} // verus!

verus! {

/// The text of lines `a..b`, each followed by a line break.
pub open spec fn full_lines(d: Seq<Seq<char>>, a: int, b: int) -> Seq<char>
    decreases b - a,
{
    if b <= a {
        Seq::<char>::empty()
    } else {
        full_lines(d, a, b - 1) + d[b - 1] + seq!['\n']
    }
}

/// The text from `s` to `e`, lines joined by `\n`.
pub open spec fn text_between(d: Seq<Seq<char>>, s: EditorPosition, e: EditorPosition) -> Seq<char> {
    if s.line == e.line {
        d[s.line as int].subrange(s.col as int, e.col as int)
    } else {
        d[s.line as int].subrange(s.col as int, d[s.line as int].len() as int) + seq!['\n']
            + full_lines(d, s.line + 1, e.line as int) + d[e.line as int].subrange(0, e.col as int)
    }
}

/// Equal lengths and equal characters up to ASCII case.
pub open spec fn eq_ic_seq(a: Seq<char>, b: Seq<char>) -> bool {
    a.len() == b.len() && forall|i: int| 0 <= i < a.len() ==> eq_ic(#[trigger] a[i], b[i])
}

/// `query` matches, ignoring ASCII case, at `p` within one line.
pub open spec fn match_at(d: Seq<Seq<char>>, p: EditorPosition, q: Seq<char>) -> bool {
    &&& p.line < d.len()
    &&& p.col + q.len() <= d[p.line as int].len()
    &&& eq_ic_seq(d[p.line as int].subrange(p.col as int, p.col + q.len()), q)
}

/// A search from `start` may report `p`: a later line, or the same line at
/// or after the start column (clamped to the line).
pub open spec fn searchable(d: Seq<Seq<char>>, start: EditorPosition, p: EditorPosition) -> bool {
    ||| p.line > start.line
    ||| (p.line == start.line && p.line < d.len() && p.col >= min_int(
        start.col as int,
        d[p.line as int].len() as int,
    ))
}

/// `p` is the first match at or after `start`.
pub open spec fn first_match(d: Seq<Seq<char>>, q: Seq<char>, start: EditorPosition, p: EditorPosition) -> bool {
    &&& searchable(d, start, p)
    &&& match_at(d, p, q)
    &&& forall|o: EditorPosition|
        searchable(d, start, o) && pos_before(o, p) ==> !#[trigger] match_at(d, o, q)
}

pub open spec fn no_match(d: Seq<Seq<char>>, q: Seq<char>, start: EditorPosition) -> bool {
    forall|o: EditorPosition| searchable(d, start, o) ==> !#[trigger] match_at(d, o, q)
}

/// Whether `query` matches `line` at `start`, ignoring ASCII case.
pub fn line_matches_at_ignore_ascii_case(line: &[char], start: usize, query: &[char]) -> (r: bool)
    requires
        start + query@.len() <= line@.len(),
    ensures
        r == eq_ic_seq(line@.subrange(start as int, start + query@.len()), query@),
{
    let n = line.len();
    let mut i: usize = 0;
    while i < query.len()
        invariant
            n == line@.len(),
            start + query@.len() <= line@.len(),
            i <= query@.len(),
            forall|j: int| 0 <= j < i ==> eq_ic(line@[start + j], query@[j]),
        decreases query@.len() - i,
    {
        if !chars_equal_ignore_ascii_case(line[start + i], query[i]) {
            assert(line@.subrange(start as int, start + query@.len())[i as int] == line@[start + i]);
            return false;
        }
        i += 1;
    }
    true
}

#[derive(Clone, Copy, Debug, PartialEq, Eq, Structural)]
pub enum EditorFindResult {
    Found,
    Wrapped,
}

impl BasicEditor {
    /// The selected text, lines joined by `\n`; `None` without a selection.
    pub fn selected_text(&self) -> (r: Option<String>)
        requires
            self.wf(),
        ensures
            r is Some <==> self.selection() is Some,
            r matches Some(t) ==> t@ == text_between(
                self.docv(),
                self.edit_range().0,
                self.edit_range().1,
            ),
    {
        let chars = match self.selected_chars() {
            Some(c) => c,
            None => return None,
        };
        Some(string_from_chars(&chars))
    }

    pub fn selected_chars(&self) -> (r: Option<Vec<char>>)
        requires
            self.wf(),
        ensures
            r is Some <==> self.selection() is Some,
            r matches Some(t) ==> t@ == text_between(
                self.docv(),
                self.edit_range().0,
                self.edit_range().1,
            ),
    {
        let (start, end) = match self.selection_range() {
            Some(range) => range,
            None => return None,
        };
        let ghost d = self.docv();
        if start.line == end.line {
            return Some(chars_range(&self.lines[start.line], start.col, end.col));
        }
        let first_len = self.lines[start.line].len();
        let mut text = chars_range(&self.lines[start.line], start.col, first_len);
        text.push('\n');
        let ghost head = text@;
        let mut line = start.line + 1;
        while line < end.line
            invariant
                d == doc(self.lines@),
                start.line < end.line < d.len(),
                start.line + 1 <= line <= end.line,
                text@ == head + full_lines(d, start.line + 1, line as int),
            decreases end.line - line,
        {
            let len = self.lines[line].len();
            extend_with_range(&mut text, &self.lines[line], 0, len);
            text.push('\n');
            assert(self.lines@[line as int]@.subrange(0, len as int) =~= d[line as int]);
            assert(text@ =~= head + full_lines(d, start.line + 1, line as int + 1));
            line += 1;
        }
        extend_with_range(&mut text, &self.lines[end.line], 0, end.col);
        assert(text@ =~= text_between(d, start, end));
        Some(text)
    }

    /// Whether the selected text equals `query`, ignoring ASCII case.
    pub fn selected_text_matches(&self, query: &[char]) -> (r: bool)
        requires
            self.wf(),
        ensures
            r == (self.selection() is Some && eq_ic_seq(
                text_between(self.docv(), self.edit_range().0, self.edit_range().1),
                query@,
            )),
    {
        let text = match self.selected_chars() {
            Some(t) => t,
            None => return false,
        };
        if text.len() != query.len() {
            return false;
        }
        assert(text@.subrange(0, query@.len() as int) =~= text@);
        line_matches_at_ignore_ascii_case(&text, 0, query)
    }

    /// Copies the selected text to the clipboard; `false` without a selection.
    pub fn copy_selection(&mut self) -> (r: bool)
        requires
            old(self).wf(),
        ensures
            r == old(self).selection() is Some,
            r ==> final(self).clipboard@ == text_between(
                old(self).docv(),
                old(self).edit_range().0,
                old(self).edit_range().1,
            ),
            !r ==> final(self).clipboard == old(self).clipboard,
            final(self).lines == old(self).lines,
            final(self).pos() == old(self).pos(),
            final(self).selection_anchor == old(self).selection_anchor,
            final(self).dirty == old(self).dirty,
            final(self).breakpoints == old(self).breakpoints,
            final(self).same_history(old(self)),
            final(self).wf(),
    {
        let text = match self.selected_text() {
            Some(t) => t,
            None => return false,
        };
        self.clipboard = text;
        true
    }

    /// Inserts the clipboard as `insert_text` does; `false` when it is empty.
    pub fn paste_clipboard(&mut self) -> (r: bool)
        requires
            old(self).wf(),
        ensures
            r == (old(self).clipboard@.len() > 0),
            !r ==> *final(self) == *old(self),
            r ==> final(self).edited(
                old(self),
                old(self).edit_range().0,
                old(self).edit_range().1,
                split_on(old(self).clipboard@, '\n'),
            ) && final(self).recorded(old(self)),
            final(self).wf(),
    {
        if self.clipboard.as_str().is_empty() {
            return false;
        }
        let text = self.clipboard.clone();
        self.insert_text(text.as_str());
        true
    }

    /// Selects from `start` to `end` (the cursor goes to `end`, clamped to
    /// the document); equal positions only move the cursor.
    pub fn set_selection_range(&mut self, start: EditorPosition, end: EditorPosition)
        requires
            old(self).wf(),
            valid_pos(old(self).docv(), start),
            valid_pos(old(self).docv(), end),
        ensures
            final(self).pos() == end,
            final(self).selection_anchor == (if start == end {
                None
            } else {
                Some(start)
            }),
            final(self).lines == old(self).lines,
            final(self).dirty == old(self).dirty,
            final(self).keeps_settings(old(self)),
            final(self).same_history(old(self)),
            final(self).wf(),
    {
        if start == end {
            self.cursor_line = end.line;
            self.cursor_col = end.col;
            self.clear_selection();
            return;
        }
        self.selection_anchor = Some(start);
        self.cursor_line = end.line;
        self.cursor_col = end.col;
    }

    pub fn select_match(&mut self, start: EditorPosition, len: usize)
        requires
            old(self).wf(),
            valid_pos(old(self).docv(), start),
            start.col + len <= old(self).docv()[start.line as int].len(),
        ensures
            final(self).cursor_line == start.line,
            final(self).cursor_col == start.col + len,
            final(self).selection_anchor == (if len == 0 {
                None
            } else {
                Some(start)
            }),
            final(self).lines == old(self).lines,
            final(self).dirty == old(self).dirty,
            final(self).keeps_settings(old(self)),
            final(self).same_history(old(self)),
            final(self).wf(),
    {
        let line_len = self.lines[start.line].len();
        assert(start.col + len <= line_len);
        let end = EditorPosition { line: start.line, col: start.col + len };
        self.set_selection_range(start, end);
    }

    /// The first position at or after `start` where `query` matches within a
    /// line, ignoring ASCII case.
    pub fn find_match_from(&self, query: &[char], start: EditorPosition) -> (r: Option<EditorPosition>)
        ensures
            r matches Some(p) ==> first_match(self.docv(), query@, start, p),
            r is None ==> no_match(self.docv(), query@, start),
    {
        let ghost d = self.docv();
        let mut line_index = start.line;
        while line_index < self.lines.len()
            invariant
                d == doc(self.lines@),
                line_index >= start.line,
                forall|o: EditorPosition|
                    searchable(d, start, o) && o.line < line_index ==> !#[trigger] match_at(
                        d,
                        o,
                        query@,
                    ),
            decreases self.lines@.len() - line_index,
        {
            let line = &self.lines[line_index];
            let len = line.len();
            let start_col = if line_index == start.line {
                if start.col < len {
                    start.col
                } else {
                    len
                }
            } else {
                0
            };
            if query.len() <= len && start_col <= len - query.len() {
                let last = len - query.len();
                let mut col = start_col;
                loop
                    invariant
                        d == doc(self.lines@),
                        line_index < d.len(),
                        line@ == d[line_index as int],
                        len == d[line_index as int].len(),
                        last == len - query@.len(),
                        start_col <= col <= last,
                        line_index == start.line ==> start_col == min_int(start.col as int, len as int),
                        line_index > start.line ==> start_col == 0,
                        line_index >= start.line,
                        forall|o: EditorPosition|
                            searchable(d, start, o) && o.line < line_index ==> !#[trigger] match_at(
                                d,
                                o,
                                query@,
                            ),
                        forall|c: usize|
                            start_col <= c < col ==> !#[trigger] match_at(
                                d,
                                EditorPosition { line: line_index, col: c },
                                query@,
                            ),
                    ensures
                        forall|c: usize|
                            start_col <= c <= last ==> !#[trigger] match_at(
                                d,
                                EditorPosition { line: line_index, col: c },
                                query@,
                            ),
                    decreases last - col,
                {
                    if line_matches_at_ignore_ascii_case(line, col, query) {
                        let p = EditorPosition { line: line_index, col };
                        assert forall|o: EditorPosition|
                            searchable(d, start, o) && pos_before(o, p) implies !#[trigger] match_at(
                                d,
                                o,
                                query@,
                            ) by {
                            if o.line == line_index {
                                assert(o == EditorPosition { line: line_index, col: o.col });
                            }
                        }
                        return Some(p);
                    }
                    if col == last {
                        break;
                    }
                    col += 1;
                }
                assert forall|o: EditorPosition|
                    searchable(d, start, o) && o.line < line_index + 1 implies !#[trigger] match_at(
                        d,
                        o,
                        query@,
                    ) by {
                    if o.line == line_index && o.col <= last {
                        assert(o == EditorPosition { line: line_index, col: o.col });
                    }
                }
            } else {
                assert forall|o: EditorPosition|
                    searchable(d, start, o) && o.line < line_index + 1 implies !#[trigger] match_at(
                        d,
                        o,
                        query@,
                    ) by {}
            }
            line_index += 1;
        }
        None
    }
}

} // verus!

verus! {

pub open spec fn origin() -> EditorPosition {
    EditorPosition { line: 0, col: 0 }
}

/// Lines after `p`, then characters after `p` on its line: this pair
/// decreases lexicographically as a position moves forward.
pub open spec fn lines_after(d: Seq<Seq<char>>, p: EditorPosition) -> int {
    d.len() - 1 - p.line
}

pub open spec fn cols_after(d: Seq<Seq<char>>, p: EditorPosition) -> int {
    d[p.line as int].len() - p.col
}

proof fn lemma_edit_keeps_suffix(
    d: Seq<Seq<char>>,
    s: EditorPosition,
    e: EditorPosition,
    p: Seq<Seq<char>>,
    q: EditorPosition,
)
    requires
        valid_range(d, s, e),
        p.len() >= 1,
        ends_edit(s, p, q),
    ensures
        lines_after(edit_doc(d, s, e, p), q) == lines_after(d, e),
        cols_after(edit_doc(d, s, e, p), q) == cols_after(d, e),
{
    let d2 = edit_doc(d, s, e, p);
    let n = p.len();
    let prefix = d[s.line as int].subrange(0, s.col as int);
    let tail = d[e.line as int].subrange(e.col as int, d[e.line as int].len() as int);
    let mid = splice_parts(prefix, p, tail);
    assert(d2.len() == s.line + n + (d.len() - e.line - 1));
    assert(d2[s.line + n - 1] == mid[n - 1]);
}

/// After selecting a match of `q` at `m`, the selection is that match.
proof fn lemma_selected_match(e: BasicEditor, m: EditorPosition, q: Seq<char>)
    requires
        q.len() > 0,
        match_at(e.docv(), m, q),
        e.selection_anchor == Some(m),
        e.cursor_line == m.line,
        e.cursor_col == m.col + q.len(),
    ensures
        e.selection_matches(q),
        e.edit_range() == (m, match_end(m, q)),
{
    assert(pos_before(m, e.pos()));
    assert(e.pos() == match_end(m, q));
}

/// The end of the match of `q` that starts at `m`.
pub open spec fn match_end(m: EditorPosition, q: Seq<char>) -> EditorPosition {
    EditorPosition { line: m.line, col: (m.col + q.len()) as usize }
}

/// A run of replacements: `docs[k + 1]` is `docs[k]` with `ranges[k]`
/// replaced by `parts`, and each range after the first is the first match
/// of `q` after the text inserted for the one before.
pub open spec fn replacement_chain(
    docs: Seq<Seq<Seq<char>>>,
    ranges: Seq<(EditorPosition, EditorPosition)>,
    q: Seq<char>,
    parts: Seq<Seq<char>>,
) -> bool {
    &&& docs.len() == ranges.len() + 1
    &&& forall|k: int|
        0 <= k < ranges.len() ==> docs[k + 1] == edit_doc(docs[k], #[trigger] ranges[k].0, ranges[k].1, parts)
    &&& forall|k: int|
        0 < k < ranges.len() ==> first_match(docs[k], q, edit_end(ranges[k - 1].0, parts), #[trigger] ranges[k].0)
            && ranges[k].1 == match_end(ranges[k].0, q)
}

impl BasicEditor {
    /// The editor selects the match of length `len` that starts at `m`.
    pub open spec fn selects_match(&self, m: EditorPosition, len: nat) -> bool {
        &&& self.selection_anchor == Some(m)
        &&& self.cursor_line == m.line
        &&& self.cursor_col == m.col + len
    }

    /// The selected text is `q`, ignoring ASCII case.
    pub open spec fn selection_matches(&self, q: Seq<char>) -> bool {
        self.selection() is Some && eq_ic_seq(text_between(self.docv(), self.edit_range().0, self.edit_range().1), q)
    }

    /// Where replacing every match from the selection starts: the selection
    /// when it is a match, else the first match after the cursor.
    pub open spec fn first_replacement(&self, q: Seq<char>, range: (EditorPosition, EditorPosition)) -> bool {
        if self.selection_matches(q) {
            range == self.edit_range()
        } else {
            first_match(self.docv(), q, self.pos(), range.0) && range.1 == match_end(range.0, q)
        }
    }

    /// Where a search continues: after the selection, else at the cursor.
    pub open spec fn search_start(&self) -> EditorPosition {
        match self.selection() {
            Some((_, e)) => e,
            None => self.pos(),
        }
    }

    /// Only the selection and the cursor may differ from `other`.
    pub open spec fn only_selection_changed(&self, other: &BasicEditor) -> bool {
        &&& self.lines == other.lines
        &&& self.dirty == other.dirty
        &&& self.keeps_settings(other)
        &&& self.same_history(other)
    }

    /// Selects the next match of `query` (ignoring ASCII case) after the
    /// selection or cursor, wrapping once to the top of the document.
    pub fn find_next(&mut self, query: &str) -> (r: Option<EditorFindResult>)
        requires
            old(self).wf(),
        ensures
            final(self).wf(),
            final(self).only_selection_changed(old(self)),
            query@.len() == 0 ==> r is None,
            r is None ==> *final(self) == *old(self),
            r is None && query@.len() > 0 ==> no_match(old(self).docv(), query@, old(self).search_start())
                && (old(self).search_start() == origin() || no_match(old(self).docv(), query@, origin())),
            r == Some(EditorFindResult::Found) ==> query@.len() > 0 && exists|m: EditorPosition|
                first_match(old(self).docv(), query@, old(self).search_start(), m)
                    && final(self).selects_match(m, query@.len()),
            r == Some(EditorFindResult::Wrapped) ==> query@.len() > 0 && no_match(
                old(self).docv(),
                query@,
                old(self).search_start(),
            ) && old(self).search_start() != origin() && exists|m: EditorPosition|
                first_match(old(self).docv(), query@, origin(), m) && final(self).selects_match(
                    m,
                    query@.len(),
                ),
    {
        let q = str_chars(query);
        if q.len() == 0 {
            return None;
        }
        let start = match self.selection_range() {
            Some((_, end)) => end,
            None => self.position(),
        };
        let ghost before = *self;
        if let Some(m) = self.find_match_from(&q, start) {
            self.select_match(m, q.len());
            assert(first_match(before.docv(), query@, before.search_start(), m)
                && self.selects_match(m, query@.len()));
            return Some(EditorFindResult::Found);
        }
        if start.line != 0 || start.col != 0 {
            let document_start = EditorPosition { line: 0, col: 0 };
            if let Some(m) = self.find_match_from(&q, document_start) {
                self.select_match(m, q.len());
                assert(first_match(before.docv(), query@, origin(), m)
                    && self.selects_match(m, query@.len()));
                return Some(EditorFindResult::Wrapped);
            }
        }
        None
    }

    /// Selects the next match after the selection or cursor, without
    /// wrapping; `false` when there is none.
    pub fn find_next_without_wrap(&mut self, query: &str) -> (r: bool)
        requires
            old(self).wf(),
        ensures
            final(self).wf(),
            final(self).only_selection_changed(old(self)),
            !r ==> *final(self) == *old(self),
            !r ==> query@.len() == 0 || no_match(old(self).docv(), query@, old(self).search_start()),
            r ==> query@.len() > 0 && exists|m: EditorPosition|
                first_match(old(self).docv(), query@, old(self).search_start(), m)
                    && final(self).selects_match(m, query@.len()),
    {
        let q = str_chars(query);
        if q.len() == 0 {
            return false;
        }
        let start = match self.selection_range() {
            Some((_, end)) => end,
            None => self.position(),
        };
        let ghost before = *self;
        match self.find_match_from(&q, start) {
            Some(m) => {
                self.select_match(m, q.len());
                assert(first_match(before.docv(), query@, before.search_start(), m)
                    && self.selects_match(m, query@.len()));
                true
            },
            None => false,
        }
    }

    /// Selects the first match in the document; `false` when there is none.
    pub fn find_first(&mut self, query: &str) -> (r: bool)
        requires
            old(self).wf(),
        ensures
            final(self).wf(),
            final(self).only_selection_changed(old(self)),
            !r ==> *final(self) == *old(self),
            !r ==> query@.len() == 0 || no_match(old(self).docv(), query@, origin()),
            r ==> query@.len() > 0 && exists|m: EditorPosition|
                first_match(old(self).docv(), query@, origin(), m) && final(self).selects_match(
                    m,
                    query@.len(),
                ),
    {
        let q = str_chars(query);
        if q.len() == 0 {
            return false;
        }
        let ghost before = *self;
        match self.find_match_from(&q, EditorPosition { line: 0, col: 0 }) {
            Some(m) => {
                self.select_match(m, q.len());
                assert(first_match(before.docv(), query@, origin(), m)
                    && self.selects_match(m, query@.len()));
                true
            },
            None => false,
        }
    }

    /// Replaces the selection by `replacement` when it equals `query`
    /// (ignoring ASCII case), recording one undo step.
    pub fn replace_selected_match(&mut self, query: &str, replacement: &str) -> (r: bool)
        requires
            old(self).wf(),
        ensures
            final(self).wf(),
            r == (query@.len() > 0 && old(self).selection() is Some && eq_ic_seq(
                text_between(old(self).docv(), old(self).edit_range().0, old(self).edit_range().1),
                query@,
            )),
            !r ==> *final(self) == *old(self),
            r ==> final(self).edited(
                old(self),
                old(self).edit_range().0,
                old(self).edit_range().1,
                split_on(replacement@, '\n'),
            ) && final(self).recorded(old(self)),
    {
        let q = str_chars(query);
        if q.len() == 0 || !self.selected_text_matches(&q) {
            return false;
        }
        let ghost before = *self;
        self.record_undo();
        proof {
            self.lemma_history_wf(&before);
        }
        self.replace_selected_without_history(replacement)
    }

    /// What replacing every match of `q` by `rep` from the selection (or
    /// the next match) to the end of the document leaves, with `n` the
    /// number of replacements reported: the chain of replacements, each at
    /// the first match after the text inserted before it, as one undo step.
    pub open spec fn replaced_all(&self, before: &BasicEditor, q: Seq<char>, rep: Seq<char>, n: int) -> bool {
        &&& (q.len() == 0 ==> n == 0 && *self == *before)
        &&& (n == 0 ==> self.docv() == before.docv() && self.same_history(before))
        &&& (n > 0 ==> {
                &&& stack_view(self.undo_stack@).len() > 0
                &&& stack_view(self.undo_stack@).last().lines == before.docv()
                &&& stack_view(self.undo_stack@).drop_last() == push_bounded(
                    stack_view(before.undo_stack@),
                    stack_view(self.undo_stack@).last(),
                ).drop_last()
                &&& self.redo_stack@.len() == 0
                &&& self.dirty
            })
        &&& (self.keeps_settings(before))
        &&& (q.len() > 0 ==> exists|docs: Seq<Seq<Seq<char>>>, ranges: Seq<(EditorPosition, EditorPosition)>|
            {
                let parts = split_on(rep, '\n');
                &&& #[trigger] replacement_chain(docs, ranges, q, split_on(rep, '\n'))
                &&& docs[0] == before.docv()
                &&& docs.last() == self.docv()
                &&& n == min_int(ranges.len() as int, usize::MAX as int)
                &&& ranges.len() == 0 ==> !before.selection_matches(q) && no_match(before.docv(), q, before.pos())
                &&& ranges.len() > 0 ==> {
                    &&& before.first_replacement(q, ranges[0])
                    &&& no_match(docs.last(), q, edit_end(ranges.last().0, parts))
                    &&& self.pos() == edit_end(ranges.last().0, parts)
                    &&& self.selection_anchor is None
                }
            })
    }

    /// From the selection (or the next match) to the end of the document,
    /// replaces every match of `query` by `replacement`, continuing after
    /// each inserted text; all replacements form one undo step. Returns the
    /// number of replacements.
    pub fn replace_all_from_selection_to_end(&mut self, query: &str, replacement: &str) -> (r: usize)
        requires
            old(self).wf(),
        ensures
            final(self).wf(),
            final(self).replaced_all(old(self), query@, replacement@, r as int),
    {
        let q = str_chars(query);
        if q.len() == 0 {
            return 0;
        }
        let ghost before = *self;
        let ghost parts = split_on(replacement@, '\n');
        if !self.selected_text_matches(&q) {
            let start = self.position();
            match self.find_match_from(&q, start) {
                Some(m) => {
                    self.select_match(m, q.len());
                    proof {
                        lemma_selected_match(*self, m, q@);
                    }
                },
                None => {
                    proof {
                        let docs = seq![before.docv()];
                        let ranges = Seq::<(EditorPosition, EditorPosition)>::empty();
                        assert(replacement_chain(docs, ranges, query@, parts));
                    }
                    return 0;
                },
            }
        }
        let snapshot = self.snapshot();
        let ghost snap = snapshot@;
        let mut count: usize = 0;
        let ghost mut docs = seq![before.docv()];
        let ghost mut ranges = Seq::<(EditorPosition, EditorPosition)>::empty();
        loop
            invariant_except_break
                self.selection_matches(q@),
                ranges.len() == 0 ==> before.first_replacement(q@, self.edit_range()),
                ranges.len() > 0 ==> first_match(self.docv(), q@, edit_end(ranges.last().0, parts), self.edit_range().0)
                    && self.edit_range().1 == match_end(self.edit_range().0, q@),
            invariant
                self.wf(),
                q@ == query@,
                parts == split_on(replacement@, '\n'),
                replacement_chain(docs, ranges, q@, parts),
                docs[0] == before.docv(),
                docs.last() == self.docv(),
                count as int == min_int(ranges.len() as int, usize::MAX as int),
                ranges.len() > 0 ==> before.first_replacement(q@, ranges[0]),
                q@.len() > 0,
                snap.lines == before.docv(),
                snap.wf(),
                count == 0 ==> self.docv() == before.docv() && self.same_history(&before),
                count > 0 ==> self.dirty,
                self.undo_stack == before.undo_stack,
                count == 0 ==> self.redo_stack == before.redo_stack,
                self.keeps_settings(&before),
            ensures
                ranges.len() > 0,
                no_match(self.docv(), q@, edit_end(ranges.last().0, parts)),
                self.pos() == edit_end(ranges.last().0, parts),
                self.selection_anchor is None,
            decreases lines_after(self.docv(), self.edit_range().0), cols_after(
                self.docv(),
                self.edit_range().0,
            ),
        {
            if !self.selected_text_matches(&q) {
                break;
            }
            let ghost d = self.docv();
            let ghost s = self.edit_range().0;
            let ghost e = self.edit_range().1;
            proof {
                self.lemma_selection_valid();
                lemma_split_on_nonempty(replacement@, '\n');
            }
            self.replace_selected_without_history(replacement);
            if count < usize::MAX {
                count += 1;
            }
            proof {
                let old_docs = docs;
                let old_ranges = ranges;
                docs = docs.push(self.docv());
                ranges = ranges.push((s, e));
                assert forall|k: int| 0 <= k < ranges.len() implies docs[k + 1] == edit_doc(
                    docs[k],
                    #[trigger] ranges[k].0,
                    ranges[k].1,
                    parts,
                ) by {
                    if k < old_ranges.len() {
                        assert(ranges[k] == old_ranges[k]);
                        assert(docs[k + 1] == old_docs[k + 1]);
                    }
                }
                assert forall|k: int| 0 < k < ranges.len() implies first_match(
                    docs[k],
                    q@,
                    edit_end(ranges[k - 1].0, parts),
                    #[trigger] ranges[k].0,
                ) && ranges[k].1 == match_end(ranges[k].0, q@) by {
                    if k < old_ranges.len() {
                        assert(ranges[k] == old_ranges[k]);
                        assert(ranges[k - 1] == old_ranges[k - 1]);
                    }
                }
                assert(replacement_chain(docs, ranges, q@, parts));
            }
            let next_start = self.position();
            let ghost d2 = self.docv();
            proof {
                lemma_edit_keeps_suffix(d, s, e, split_on(replacement@, '\n'), next_start);
            }
            match self.find_match_from(&q, next_start) {
                Some(m) => {
                    self.select_match(m, q.len());
                    proof {
                        lemma_selected_match(*self, m, q@);
                        assert(self.edit_range().0 == m);
                        assert(self.docv() == d2);
                        assert(lines_after(d2, m) <= lines_after(d, s));
                        assert(lines_after(d2, m) < lines_after(d, s) || cols_after(d2, m)
                            < cols_after(d, s));
                    }
                },
                None => break,
            }
        }
        if count > 0 {
            proof {
                assert(snap.wf());
            }
            self.push_undo_snapshot(snapshot);
            proof {
                let pushed = stack_view(before.undo_stack@).push(snap);
                assert(stack_wf(pushed)) by {
                    assert forall|i: int| 0 <= i < pushed.len() implies (#[trigger] pushed[i]).wf() by {
                        if i < pushed.len() - 1 {
                            assert(stack_view(before.undo_stack@)[i].wf());
                        }
                    }
                }
                if pushed.len() > MAX_UNDO_STEPS {
                    let t = pushed.subrange(1, pushed.len() as int);
                    assert forall|i: int| 0 <= i < t.len() implies (#[trigger] t[i]).wf() by {
                        assert(pushed[i + 1].wf());
                    }
                }
                assert(stack_view(self.redo_stack@) =~= Seq::<SnapshotView>::empty());
            }
        }
        count
    }
}

} // verus!
