//! Cursor movement, scrolling, breakpoints and live separator layout of the
//! full-screen editor.
use std::collections::HashSet;
use vstd::prelude::*;
use crate::editor::{
    BasicEditor, EditorPosition, doc, valid_pos, min_int, sel_range, split_on, edit_doc, edit_end,
    ends_edit, clone_lines, clone_breakpoints, clone_stack, stack_view,
};
use crate::separators::{format_editing, marked, strip_markers, marker_pos, format_editing_separators_with_cursor};
use crate::renumber::line_number_of;

verus! {

broadcast use vstd::std_specs::hash::group_hash_axioms;

/// A direction of cursor movement.
#[derive(Clone, Copy, Debug, PartialEq, Eq, Structural)]
pub enum MoveDirection {
    Left,
    Right,
    Up,
    Down,
}

/// Where the cursor goes from `p` in direction `dir`: across line ends for
/// left and right, keeping the column (clamped) for up and down.
pub open spec fn moved(d: Seq<Seq<char>>, p: EditorPosition, dir: MoveDirection) -> EditorPosition {
    match dir {
        MoveDirection::Left => if p.col > 0 {
            EditorPosition { line: p.line, col: (p.col - 1) as usize }
        } else if p.line > 0 {
            EditorPosition { line: (p.line - 1) as usize, col: d[p.line - 1].len() as usize }
        } else {
            p
        },
        MoveDirection::Right => if p.col < d[p.line as int].len() {
            EditorPosition { line: p.line, col: (p.col + 1) as usize }
        } else if p.line + 1 < d.len() {
            EditorPosition { line: (p.line + 1) as usize, col: 0 }
        } else {
            p
        },
        MoveDirection::Up => if p.line > 0 {
            EditorPosition {
                line: (p.line - 1) as usize,
                col: min_int(p.col as int, d[p.line - 1].len() as int) as usize,
            }
        } else {
            p
        },
        MoveDirection::Down => if p.line + 1 < d.len() {
            EditorPosition {
                line: (p.line + 1) as usize,
                col: min_int(p.col as int, d[p.line + 1].len() as int) as usize,
            }
        } else {
            p
        },
    }
}

/// The selection anchor after a move from `before` to `after`: kept (or set
/// at `before`) when extending, dropped when it meets the cursor or when not
/// extending.
pub open spec fn anchor_after_move(
    extend: bool,
    anchor: Option<EditorPosition>,
    before: EditorPosition,
    after: EditorPosition,
) -> Option<EditorPosition> {
    if !extend {
        None
    } else {
        let a = if anchor is None {
            Some(before)
        } else {
            anchor
        };
        if a == Some(after) {
            None
        } else {
            a
        }
    }
}

/// The line `line` of the document with its separators laid out and the
/// cursor column `col` carried along: the new document, the new cursor, and
/// whether anything changed.
pub open spec fn format_line_at(d: Seq<Seq<char>>, line: int, col: int) -> (Seq<Seq<char>>, int, bool) {
    let l = d[line];
    let c = min_int(col, l.len() as int);
    let f = format_editing(marked(l, c));
    if f == marked(l, c) || marker_pos(f) is None {
        (d, col, false)
    } else {
        let nb = strip_markers(f);
        let mc = marker_pos(f)->0;
        if l == nb && c == mc {
            (d, col, false)
        } else {
            (d.update(line, nb), min_int(mc, nb.len() as int), true)
        }
    }
}

/// The columns of line `i` covered by the selection `sel`, when any are.
pub open spec fn selection_columns(
    d: Seq<Seq<char>>,
    sel: Option<(EditorPosition, EditorPosition)>,
    i: int,
) -> Option<(usize, usize)> {
    match sel {
        None => None,
        Some((s, e)) => if i < s.line || i > e.line {
            None
        } else {
            let len = if 0 <= i < d.len() {
                d[i].len() as int
            } else {
                0
            };
            let a = if i == s.line {
                min_int(s.col as int, len)
            } else {
                0
            };
            let b = if i == e.line {
                min_int(e.col as int, len)
            } else {
                len
            };
            if a < b {
                Some((a as usize, b as usize))
            } else {
                None
            }
        },
    }
}

impl BasicEditor {
    /// An editor over `initial_lines` (one empty line when there are none).
    pub fn with_breakpoints(initial_lines: &[String], breakpoints: HashSet<i32>) -> (r: BasicEditor)
        ensures
            r.docv() == (if initial_lines@.len() == 0 {
                seq![Seq::<char>::empty()]
            } else {
                Seq::new(initial_lines@.len(), |i: int| initial_lines@[i]@)
            }),
            r.breakpoints@ == breakpoints@,
            r.pos() == (EditorPosition { line: 0, col: 0 }),
            r.top_line == 0 && r.left_col == 0 && r.page_rows == 1,
            !r.dirty,
            r.selection_anchor is None,
            r.clipboard@.len() == 0 && r.last_find@.len() == 0 && r.last_replace@.len() == 0,
            r.undo_stack@.len() == 0 && r.redo_stack@.len() == 0,
            r.wf(),
    {
        let mut lines: Vec<Vec<char>> = Vec::new();
        let mut i: usize = 0;
        while i < initial_lines.len()
            invariant
                0 <= i <= initial_lines@.len(),
                lines@.len() == i,
                doc(lines@) == Seq::new(i as nat, |k: int| initial_lines@[k]@),
            decreases initial_lines@.len() - i,
        {
            let ghost prev = lines@;
            let chars = crate::text::str_chars(initial_lines[i].as_str());
            assert(chars@ == initial_lines@[i as int]@);
            lines.push(chars);
            assert(lines@ == prev.push(chars));
            i += 1;
            assert forall|k: int| 0 <= k < i implies #[trigger] doc(lines@)[k] == initial_lines@[k]@ by {
                if k < i - 1 {
                    assert(lines@[k] == prev[k]);
                    assert(doc(prev)[k] == prev[k]@);
                }
            }
            assert(doc(lines@) =~= Seq::new(i as nat, |k: int| initial_lines@[k]@));
        }
        if lines.len() == 0 {
            let empty: Vec<char> = Vec::new();
            lines.push(empty);
            assert(lines@.len() == 1);
            assert(doc(lines@)[0] == lines@[0]@);
            assert(doc(lines@) =~= seq![Seq::<char>::empty()]);
        }
        let r = BasicEditor {
            lines,
            breakpoints,
            cursor_line: 0,
            cursor_col: 0,
            top_line: 0,
            left_col: 0,
            page_rows: 1,
            dirty: false,
            selection_anchor: None,
            clipboard: String::new(),
            last_find: String::new(),
            last_replace: String::new(),
            undo_stack: Vec::new(),
            redo_stack: Vec::new(),
        };
        proof {
            assert(crate::editor::stack_view(r.undo_stack@) =~= Seq::empty());
            assert(crate::editor::stack_view(r.redo_stack@) =~= Seq::empty());
        }
        r
    }

    /// An editor over `initial_lines` without breakpoints.
    pub fn new(initial_lines: &[String]) -> (r: BasicEditor)
        ensures
            r.docv() == (if initial_lines@.len() == 0 {
                seq![Seq::<char>::empty()]
            } else {
                Seq::new(initial_lines@.len(), |i: int| initial_lines@[i]@)
            }),
            r.breakpoints@ == Set::<i32>::empty(),
            r.pos() == (EditorPosition { line: 0, col: 0 }),
            !r.dirty,
            r.selection_anchor is None,
            r.undo_stack@.len() == 0 && r.redo_stack@.len() == 0,
            r.wf(),
    {
        BasicEditor::with_breakpoints(initial_lines, HashSet::new())
    }

    /// The buffer as strings, one per line.
    pub fn lines_as_strings(&self) -> (r: Vec<String>)
        ensures
            r@.len() == self.lines@.len(),
            forall|i: int| 0 <= i < r@.len() ==> #[trigger] r@[i]@ == self.docv()[i],
    {
        let mut r: Vec<String> = Vec::new();
        let mut i: usize = 0;
        while i < self.lines.len()
            invariant
                0 <= i <= self.lines@.len(),
                r@.len() == i,
                forall|k: int| 0 <= k < i ==> #[trigger] r@[k]@ == self.docv()[k],
            decreases self.lines@.len() - i,
        {
            r.push(crate::text::string_from_chars(&self.lines[i]));
            i += 1;
        }
        r
    }

    /// The keys shown in the status bar.
    pub fn default_help() -> (r: String)
        ensures
            r@ == "F12 Apply Esc Cancel F3/F4 Undo/Redo F5/F6 Copy/Paste F7/F8 Find/Replace F9 Renum"@,
    {
        String::from_str("F12 Apply Esc Cancel F3/F4 Undo/Redo F5/F6 Copy/Paste F7/F8 Find/Replace F9 Renum")
    }

    pub fn default_status(&self) -> (r: String)
        ensures
            r@ == "F12 Apply Esc Cancel F3/F4 Undo/Redo F5/F6 Copy/Paste F7/F8 Find/Replace F9 Renum"@,
    {
        BasicEditor::default_help()
    }

    /// Sets or clears the breakpoint of the line under the cursor; the new
    /// state and the line number, or an error when the line has no number.
    pub fn toggle_breakpoint(&mut self) -> (r: Result<(bool, i32), &'static str>)
        requires
            old(self).wf(),
        ensures
            final(self).wf(),
            final(self).lines == old(self).lines,
            final(self).pos() == old(self).pos(),
            final(self).selection_anchor == old(self).selection_anchor,
            final(self).dirty == old(self).dirty,
            final(self).top_line == old(self).top_line,
            final(self).left_col == old(self).left_col,
            final(self).page_rows == old(self).page_rows,
            final(self).same_history(old(self)),
            match line_number_of(old(self).docv()[old(self).cursor_line as int]) {
                None => r matches Err(m) && m@ == "no BASIC line"@ && final(self).breakpoints@
                    == old(self).breakpoints@,
                Some(n) => if old(self).breakpoints@.contains(n) {
                    r == Ok::<(bool, i32), &'static str>((false, n)) && final(self).breakpoints@
                        == old(self).breakpoints@.remove(n)
                } else {
                    r == Ok::<(bool, i32), &'static str>((true, n)) && final(self).breakpoints@
                        == old(self).breakpoints@.insert(n)
                },
            },
    {
        let line = match self.current_line_number() {
            Some(n) => n,
            None => return Err("no BASIC line"),
        };
        if self.breakpoints.remove(&line) {
            Ok((false, line))
        } else {
            self.breakpoints.insert(line);
            Ok((true, line))
        }
    }

    /// Moves the cursor one step, without touching the selection.
    pub fn move_raw(&mut self, dir: MoveDirection)
        requires
            old(self).docv().len() >= 1,
            valid_pos(old(self).docv(), old(self).pos()),
        ensures
            final(self).pos() == moved(old(self).docv(), old(self).pos(), dir),
            valid_pos(final(self).docv(), final(self).pos()),
            final(self).lines == old(self).lines,
            final(self).selection_anchor == old(self).selection_anchor,
            final(self).dirty == old(self).dirty,
            final(self).keeps_settings(old(self)),
            final(self).same_history(old(self)),
    {
        let ghost d = self.docv();
        match dir {
            MoveDirection::Left => {
                if self.cursor_col > 0 {
                    self.cursor_col -= 1;
                } else if self.cursor_line > 0 {
                    self.cursor_line -= 1;
                    self.cursor_col = self.current_line_len();
                }
            },
            MoveDirection::Right => {
                if self.cursor_col < self.current_line_len() {
                    self.cursor_col += 1;
                } else if self.cursor_line < self.lines.len() - 1 {
                    self.cursor_line += 1;
                    self.cursor_col = 0;
                }
            },
            MoveDirection::Up => {
                if self.cursor_line > 0 {
                    self.cursor_line -= 1;
                    let len = self.current_line_len();
                    if self.cursor_col > len {
                        self.cursor_col = len;
                    }
                }
            },
            MoveDirection::Down => {
                if self.cursor_line < self.lines.len() - 1 {
                    self.cursor_line += 1;
                    let len = self.current_line_len();
                    if self.cursor_col > len {
                        self.cursor_col = len;
                    }
                }
            },
        }
    }

    pub fn move_left_raw(&mut self)
        requires
            old(self).wf(),
        ensures
            final(self).pos() == moved(old(self).docv(), old(self).pos(), MoveDirection::Left),
            final(self).lines == old(self).lines,
            final(self).selection_anchor == old(self).selection_anchor,
    {
        self.move_raw(MoveDirection::Left)
    }

    pub fn move_right_raw(&mut self)
        requires
            old(self).wf(),
        ensures
            final(self).pos() == moved(old(self).docv(), old(self).pos(), MoveDirection::Right),
            final(self).lines == old(self).lines,
            final(self).selection_anchor == old(self).selection_anchor,
    {
        self.move_raw(MoveDirection::Right)
    }

    pub fn move_up_raw(&mut self)
        requires
            old(self).wf(),
        ensures
            final(self).pos() == moved(old(self).docv(), old(self).pos(), MoveDirection::Up),
            final(self).lines == old(self).lines,
            final(self).selection_anchor == old(self).selection_anchor,
    {
        self.move_raw(MoveDirection::Up)
    }

    pub fn move_down_raw(&mut self)
        requires
            old(self).wf(),
        ensures
            final(self).pos() == moved(old(self).docv(), old(self).pos(), MoveDirection::Down),
            final(self).lines == old(self).lines,
            final(self).selection_anchor == old(self).selection_anchor,
    {
        self.move_raw(MoveDirection::Down)
    }

    /// Moves the cursor one step; with `extend_selection` the selection
    /// grows from where the cursor was, otherwise it is dropped.
    pub fn move_with_selection(&mut self, extend_selection: bool, dir: MoveDirection)
        requires
            old(self).wf(),
        ensures
            final(self).wf(),
            final(self).pos() == moved(old(self).docv(), old(self).pos(), dir),
            final(self).selection_anchor == anchor_after_move(
                extend_selection,
                old(self).selection_anchor,
                old(self).pos(),
                final(self).pos(),
            ),
            final(self).lines == old(self).lines,
            final(self).dirty == old(self).dirty,
            final(self).keeps_settings(old(self)),
            final(self).same_history(old(self)),
    {
        let before = self.position();
        if extend_selection && self.selection_anchor.is_none() {
            self.selection_anchor = Some(before);
        }
        self.move_raw(dir);
        if extend_selection {
            if self.selection_anchor == Some(self.position()) {
                self.selection_anchor = None;
            }
        } else {
            self.selection_anchor = None;
        }
    }

    pub fn move_left(&mut self)
        requires
            old(self).wf(),
        ensures
            final(self).wf(),
            final(self).pos() == moved(old(self).docv(), old(self).pos(), MoveDirection::Left),
            final(self).selection_anchor is None,
            final(self).lines == old(self).lines,
            final(self).dirty == old(self).dirty,
    {
        self.move_with_selection(false, MoveDirection::Left)
    }

    pub fn move_right(&mut self)
        requires
            old(self).wf(),
        ensures
            final(self).wf(),
            final(self).pos() == moved(old(self).docv(), old(self).pos(), MoveDirection::Right),
            final(self).selection_anchor is None,
            final(self).lines == old(self).lines,
            final(self).dirty == old(self).dirty,
    {
        self.move_with_selection(false, MoveDirection::Right)
    }

    pub fn move_up(&mut self)
        requires
            old(self).wf(),
        ensures
            final(self).wf(),
            final(self).pos() == moved(old(self).docv(), old(self).pos(), MoveDirection::Up),
            final(self).selection_anchor is None,
            final(self).lines == old(self).lines,
            final(self).dirty == old(self).dirty,
            final(self).keeps_settings(old(self)),
            final(self).same_history(old(self)),
    {
        self.move_with_selection(false, MoveDirection::Up)
    }

    pub fn move_down(&mut self)
        requires
            old(self).wf(),
        ensures
            final(self).wf(),
            final(self).pos() == moved(old(self).docv(), old(self).pos(), MoveDirection::Down),
            final(self).selection_anchor is None,
            final(self).lines == old(self).lines,
            final(self).dirty == old(self).dirty,
            final(self).keeps_settings(old(self)),
            final(self).same_history(old(self)),
    {
        self.move_with_selection(false, MoveDirection::Down)
    }

    pub fn select_left(&mut self)
        requires
            old(self).wf(),
        ensures
            final(self).wf(),
            final(self).pos() == moved(old(self).docv(), old(self).pos(), MoveDirection::Left),
            final(self).selection_anchor == anchor_after_move(
                true,
                old(self).selection_anchor,
                old(self).pos(),
                final(self).pos(),
            ),
            final(self).lines == old(self).lines,
            final(self).dirty == old(self).dirty,
    {
        self.move_with_selection(true, MoveDirection::Left)
    }

    pub fn select_right(&mut self)
        requires
            old(self).wf(),
        ensures
            final(self).wf(),
            final(self).pos() == moved(old(self).docv(), old(self).pos(), MoveDirection::Right),
            final(self).selection_anchor == anchor_after_move(
                true,
                old(self).selection_anchor,
                old(self).pos(),
                final(self).pos(),
            ),
            final(self).lines == old(self).lines,
            final(self).dirty == old(self).dirty,
    {
        self.move_with_selection(true, MoveDirection::Right)
    }

    pub fn select_up(&mut self)
        requires
            old(self).wf(),
        ensures
            final(self).wf(),
            final(self).pos() == moved(old(self).docv(), old(self).pos(), MoveDirection::Up),
            final(self).selection_anchor == anchor_after_move(
                true,
                old(self).selection_anchor,
                old(self).pos(),
                final(self).pos(),
            ),
            final(self).lines == old(self).lines,
            final(self).dirty == old(self).dirty,
    {
        self.move_with_selection(true, MoveDirection::Up)
    }

    pub fn select_down(&mut self)
        requires
            old(self).wf(),
        ensures
            final(self).wf(),
            final(self).pos() == moved(old(self).docv(), old(self).pos(), MoveDirection::Down),
            final(self).selection_anchor == anchor_after_move(
                true,
                old(self).selection_anchor,
                old(self).pos(),
                final(self).pos(),
            ),
            final(self).lines == old(self).lines,
            final(self).dirty == old(self).dirty,
    {
        self.move_with_selection(true, MoveDirection::Down)
    }

    /// To the start of the line.
    pub fn move_home(&mut self)
        requires
            old(self).wf(),
        ensures
            final(self).wf(),
            final(self).pos() == (EditorPosition { line: old(self).cursor_line, col: 0 }),
            final(self).selection_anchor is None,
            final(self).lines == old(self).lines,
            final(self).dirty == old(self).dirty,
    {
        self.cursor_col = 0;
        self.clear_selection();
    }

    /// To the end of the line.
    pub fn move_end(&mut self)
        requires
            old(self).wf(),
        ensures
            final(self).wf(),
            final(self).pos() == (EditorPosition {
                line: old(self).cursor_line,
                col: old(self).docv()[old(self).cursor_line as int].len() as usize,
            }),
            final(self).selection_anchor is None,
            final(self).lines == old(self).lines,
            final(self).dirty == old(self).dirty,
    {
        self.cursor_col = self.current_line_len();
        self.clear_selection();
    }

    /// To the start of the document.
    pub fn move_document_start(&mut self)
        requires
            old(self).wf(),
        ensures
            final(self).wf(),
            final(self).pos() == (EditorPosition { line: 0, col: 0 }),
            final(self).selection_anchor is None,
            final(self).lines == old(self).lines,
            final(self).dirty == old(self).dirty,
            final(self).keeps_settings(old(self)),
            final(self).same_history(old(self)),
    {
        self.cursor_line = 0;
        self.cursor_col = 0;
        self.clear_selection();
    }

    /// To the end of the last line.
    pub fn move_document_end(&mut self)
        requires
            old(self).wf(),
        ensures
            final(self).wf(),
            final(self).cursor_line == old(self).docv().len() - 1,
            final(self).cursor_col == old(self).docv()[old(self).docv().len() - 1].len(),
            final(self).selection_anchor is None,
            final(self).lines == old(self).lines,
            final(self).dirty == old(self).dirty,
            final(self).keeps_settings(old(self)),
            final(self).same_history(old(self)),
    {
        self.cursor_line = self.lines.len() - 1;
        self.cursor_col = self.current_line_len();
        self.clear_selection();
    }

    /// One page (at least one line) up, keeping the column where it fits.
    pub fn page_up(&mut self)
        requires
            old(self).wf(),
        ensures
            final(self).wf(),
            final(self).cursor_line as int == (if old(self).cursor_line >= crate::debug_view::at_least_one(
                old(self).page_rows,
            ) {
                old(self).cursor_line - crate::debug_view::at_least_one(old(self).page_rows)
            } else {
                0
            }),
            final(self).cursor_col as int == min_int(
                old(self).cursor_col as int,
                old(self).docv()[final(self).cursor_line as int].len() as int,
            ),
            final(self).selection_anchor is None,
            final(self).lines == old(self).lines,
            final(self).dirty == old(self).dirty,
            final(self).keeps_settings(old(self)),
            final(self).same_history(old(self)),
    {
        let rows = if self.page_rows > 1 {
            self.page_rows
        } else {
            1
        };
        self.cursor_line = if self.cursor_line >= rows {
            self.cursor_line - rows
        } else {
            0
        };
        let len = self.current_line_len();
        if self.cursor_col > len {
            self.cursor_col = len;
        }
        self.clear_selection();
    }

    /// One page (at least one line) down, keeping the column where it fits.
    pub fn page_down(&mut self)
        requires
            old(self).wf(),
            old(self).cursor_line + crate::debug_view::at_least_one(old(self).page_rows) <= usize::MAX,
        ensures
            final(self).wf(),
            final(self).cursor_line as int == min_int(
                old(self).cursor_line + crate::debug_view::at_least_one(old(self).page_rows),
                old(self).docv().len() - 1,
            ),
            final(self).cursor_col as int == min_int(
                old(self).cursor_col as int,
                old(self).docv()[final(self).cursor_line as int].len() as int,
            ),
            final(self).selection_anchor is None,
            final(self).lines == old(self).lines,
            final(self).dirty == old(self).dirty,
            final(self).keeps_settings(old(self)),
            final(self).same_history(old(self)),
    {
        let rows = if self.page_rows > 1 {
            self.page_rows
        } else {
            1
        };
        let last = self.lines.len() - 1;
        let target = self.cursor_line + rows;
        self.cursor_line = if target < last {
            target
        } else {
            last
        };
        let len = self.current_line_len();
        if self.cursor_col > len {
            self.cursor_col = len;
        }
        self.clear_selection();
    }

    /// Scrolls so that the cursor lies inside a view of `cols` columns and
    /// `rows` rows; remembers the page height.
    pub fn ensure_cursor_visible(&mut self, cols: usize, rows: usize)
        requires
            old(self).wf(),
            old(self).top_line + rows <= usize::MAX,
            old(self).left_col + cols <= usize::MAX,
        ensures
            final(self).wf(),
            final(self).page_rows == crate::debug_view::at_least_one(rows),
            *final(self) == (BasicEditor {
                page_rows: final(self).page_rows,
                top_line: final(self).top_line,
                left_col: final(self).left_col,
                ..*old(self)
            }),
            final(self).top_line == (if old(self).cursor_line < old(self).top_line {
                old(self).cursor_line as int
            } else if old(self).cursor_line >= old(self).top_line + rows {
                old(self).cursor_line + 1 - rows
            } else {
                old(self).top_line as int
            }),
            final(self).left_col == (if old(self).cursor_col < old(self).left_col {
                old(self).cursor_col as int
            } else if cols > 0 && old(self).cursor_col >= old(self).left_col + cols {
                old(self).cursor_col + 1 - cols
            } else {
                old(self).left_col as int
            }),
            final(self).lines == old(self).lines,
            final(self).pos() == old(self).pos(),
            final(self).selection_anchor == old(self).selection_anchor,
            final(self).dirty == old(self).dirty,
    {
        let n = self.lines.len();
        let line_len = self.current_line_len();
        self.page_rows = if rows > 1 {
            rows
        } else {
            1
        };
        if self.cursor_line < self.top_line {
            self.top_line = self.cursor_line;
        } else if self.cursor_line >= self.top_line + rows {
            self.top_line = self.cursor_line + 1 - rows;
        }
        if self.cursor_col < self.left_col {
            self.left_col = self.cursor_col;
        } else if cols > 0 && self.cursor_col >= self.left_col + cols {
            self.left_col = self.cursor_col - cols + 1;
        }
    }

    /// Scrolls the debugger view so that the current line is visible and the
    /// horizontal offset does not run past the viewed line.
    pub fn ensure_debug_view_visible(&mut self, cols: usize, rows: usize, view_line_len: usize)
        requires
            old(self).wf(),
            old(self).top_line + crate::debug_view::at_least_one(rows) <= usize::MAX,
        ensures
            final(self).wf(),
            final(self).page_rows == crate::debug_view::at_least_one(rows),
            *final(self) == (BasicEditor {
                page_rows: final(self).page_rows,
                top_line: final(self).top_line,
                left_col: final(self).left_col,
                ..*old(self)
            }),
            final(self).top_line == (if old(self).cursor_line < old(self).top_line {
                old(self).cursor_line as int
            } else if old(self).cursor_line >= old(self).top_line + crate::debug_view::at_least_one(
                rows,
            ) {
                old(self).cursor_line + 1 - crate::debug_view::at_least_one(rows)
            } else {
                old(self).top_line as int
            }),
            final(self).left_col as int == min_int(
                old(self).left_col as int,
                crate::debug_view::sat_sub(view_line_len as int, crate::debug_view::at_least_one(cols) as int),
            ),
            final(self).lines == old(self).lines,
            final(self).pos() == old(self).pos(),
            final(self).selection_anchor == old(self).selection_anchor,
            final(self).dirty == old(self).dirty,
    {
        let n = self.lines.len();
        let rows1 = if rows > 1 {
            rows
        } else {
            1
        };
        let cols1 = if cols > 1 {
            cols
        } else {
            1
        };
        self.page_rows = rows1;
        if self.cursor_line < self.top_line {
            self.top_line = self.cursor_line;
        } else if self.cursor_line >= self.top_line + rows1 {
            self.top_line = self.cursor_line + 1 - rows1;
        }
        let max_left = if view_line_len > cols1 {
            view_line_len - cols1
        } else {
            0
        };
        if self.left_col > max_left {
            self.left_col = max_left;
        }
    }

    /// Scrolls the debugger view four columns to the left.
    pub fn scroll_debug_left(&mut self)
        ensures
            *final(self) == (BasicEditor { left_col: final(self).left_col, ..*old(self) }),
            final(self).left_col as int == crate::debug_view::sat_sub(old(self).left_col as int, 4),
            final(self).lines == old(self).lines,
            final(self).pos() == old(self).pos(),
            final(self).top_line == old(self).top_line,
            final(self).selection_anchor == old(self).selection_anchor,
    {
        self.left_col = if self.left_col > 4 {
            self.left_col - 4
        } else {
            0
        };
    }

    /// Scrolls the debugger view four columns to the right, no further than
    /// the viewed line allows.
    pub fn scroll_debug_right(&mut self, cols: usize, view_line_len: usize)
        ensures
            *final(self) == (BasicEditor { left_col: final(self).left_col, ..*old(self) }),
            final(self).left_col as int == min_int(
                crate::debug_view::sat_add(old(self).left_col as int, 4),
                crate::debug_view::sat_sub(view_line_len as int, crate::debug_view::at_least_one(cols) as int),
            ),
            final(self).lines == old(self).lines,
            final(self).pos() == old(self).pos(),
            final(self).top_line == old(self).top_line,
            final(self).selection_anchor == old(self).selection_anchor,
    {
        let cols1 = if cols > 1 {
            cols
        } else {
            1
        };
        let max_left = if view_line_len > cols1 {
            view_line_len - cols1
        } else {
            0
        };
        let moved = if self.left_col <= usize::MAX - 4 {
            self.left_col + 4
        } else {
            usize::MAX
        };
        self.left_col = if moved < max_left {
            moved
        } else {
            max_left
        };
    }

    /// The selected columns of line `line_index`, when part of it is selected.
    pub fn selection_columns_for_line(&self, line_index: usize) -> (r: Option<(usize, usize)>)
        requires
            self.wf(),
        ensures
            r == selection_columns(self.docv(), self.selection(), line_index as int),
    {
        let (start, end) = match self.selection_range() {
            Some(r) => r,
            None => return None,
        };
        if line_index < start.line || line_index > end.line {
            return None;
        }
        let line_len = if line_index < self.lines.len() {
            self.lines[line_index].len()
        } else {
            0
        };
        let a = if line_index == start.line {
            if start.col < line_len {
                start.col
            } else {
                line_len
            }
        } else {
            0
        };
        let b = if line_index == end.line {
            if end.col < line_len {
                end.col
            } else {
                line_len
            }
        } else {
            line_len
        };
        if a < b {
            Some((a, b))
        } else {
            None
        }
    }

    /// Lays out the separators of the line under the cursor, carrying the
    /// cursor along; marks the buffer dirty when the line changed.
    pub fn format_current_line_separators_without_history(&mut self)
        requires
            old(self).wf(),
            old(self).selection_anchor is None,
        ensures
            final(self).wf(),
            ({
                let f = format_line_at(old(self).docv(), old(self).cursor_line as int, old(self).cursor_col as int);
                &&& final(self).docv() == f.0
                &&& final(self).cursor_col == f.1
                &&& final(self).dirty == (old(self).dirty || f.2)
            }),
            final(self).cursor_line == old(self).cursor_line,
            final(self).selection_anchor is None,
            final(self).keeps_settings(old(self)),
            final(self).same_history(old(self)),
    {
        let ghost d = self.docv();
        let mut line = crate::text::chars_range(&self.lines[self.cursor_line], 0, self.lines[self.cursor_line].len());
        let mut cursor = if self.cursor_col < line.len() {
            self.cursor_col
        } else {
            line.len()
        };
        let ghost l = line@;
        let ghost c = cursor;
        assert(l =~= d[self.cursor_line as int]);
        if format_editing_separators_with_cursor(&mut line, &mut cursor) {
            let len = line.len();
            self.lines.set(self.cursor_line, line);
            self.cursor_col = if cursor < len {
                cursor
            } else {
                len
            };
            self.dirty = true;
            assert(self.docv() =~= d.update(self.cursor_line as int, line@));
        }
    }

    /// What typing `ch` leaves: it replaces the selection, the line's
    /// separators are laid out again, one undo step.
    pub open spec fn char_inserted(&self, before: &BasicEditor, ch: char) -> bool {
        &&& (({
                let s = before.edit_range().0;
                let e = before.edit_range().1;
                let parts = split_on(seq![ch], '\n');
                let d1 = edit_doc(before.docv(), s, e, parts);
                let p1 = edit_end(s, parts);
                let f = format_line_at(d1, p1.line as int, p1.col as int);
                &&& self.docv() == f.0
                &&& self.cursor_line == p1.line
                &&& self.cursor_col == f.1
            }))
        &&& (self.recorded(before))
        &&& (self.selection_anchor is None)
        &&& (self.dirty)
        &&& (self.keeps_settings(before))
    }

    /// Types `ch` at the cursor (replacing the selection) as one undo step,
    /// then lays out the separators of the current line.
    pub fn insert_char(&mut self, ch: char)
        requires
            old(self).wf(),
        ensures
            final(self).char_inserted(old(self), ch),
            final(self).wf(),
    {
        let mut text = String::new();
        crate::text::push_char(&mut text, ch);
        assert(text@ =~= seq![ch]);
        self.insert_text(text.as_str());
        self.format_current_line_separators_without_history();
    }
}

impl Clone for BasicEditor {
    fn clone(&self) -> (r: BasicEditor)
        ensures
            r.docv() == self.docv(),
            r.breakpoints@ == self.breakpoints@,
            r.pos() == self.pos(),
            r.top_line == self.top_line,
            r.left_col == self.left_col,
            r.page_rows == self.page_rows,
            r.dirty == self.dirty,
            r.selection_anchor == self.selection_anchor,
            r.clipboard@ == self.clipboard@,
            r.last_find@ == self.last_find@,
            r.last_replace@ == self.last_replace@,
            stack_view(r.undo_stack@) == stack_view(self.undo_stack@),
            stack_view(r.redo_stack@) == stack_view(self.redo_stack@),
    {
        BasicEditor {
            lines: clone_lines(&self.lines),
            breakpoints: clone_breakpoints(&self.breakpoints),
            cursor_line: self.cursor_line,
            cursor_col: self.cursor_col,
            top_line: self.top_line,
            left_col: self.left_col,
            page_rows: self.page_rows,
            dirty: self.dirty,
            selection_anchor: self.selection_anchor,
            clipboard: self.clipboard.clone(),
            last_find: self.last_find.clone(),
            last_replace: self.last_replace.clone(),
            undo_stack: clone_stack(&self.undo_stack),
            redo_stack: clone_stack(&self.redo_stack),
        }
    }
}

} // verus!
