//! What a full-screen editing session hands back: the program lines, the
//! breakpoints that still name a line, and the editor state that a later
//! session resumes from.
use std::collections::HashSet;
use vstd::prelude::*;
use crate::editor::{BasicEditor, EditorPosition, EditorSnapshot, doc, valid_pos, min_int, stack_view, stack_wf, clone_stack, clone_breakpoints};
use crate::renumber::{line_number_of, editor_line_number};

verus! {

broadcast use vstd::std_specs::hash::group_hash_axioms;

/// The breakpoints that are line numbers of some line.
pub open spec fn valid_breakpoints(lines: Seq<Seq<char>>, bp: Set<i32>) -> Set<i32> {
    bp.filter(|n: i32| exists|i: int| 0 <= i < lines.len() && line_number_of(#[trigger] lines[i]) == Some(n))
}

pub open spec fn strings_view(lines: Seq<String>) -> Seq<Seq<char>> {
    lines.map_values(|s: String| s@)
}

/// Keeps the breakpoints that name a line of `lines`.
pub fn valid_editor_breakpoints(lines: &[String], breakpoints: &HashSet<i32>) -> (r: HashSet<i32>)
    ensures
        r@ == valid_breakpoints(strings_view(lines@), breakpoints@),
{
    let ghost d = strings_view(lines@);
    let mut r: HashSet<i32> = HashSet::new();
    let mut i: usize = 0;
    while i < lines.len()
        invariant
            d == strings_view(lines@),
            0 <= i <= lines@.len(),
            r@ == breakpoints@.filter(
                |n: i32| exists|j: int| 0 <= j < i && line_number_of(#[trigger] d[j]) == Some(n),
            ),
        decreases lines@.len() - i,
    {
        let chars = crate::text::str_chars(lines[i].as_str());
        assert(chars@ == d[i as int]);
        match editor_line_number(&chars) {
            Some(n) => {
                if breakpoints.contains(&n) {
                    r.insert(n);
                }
            },
            None => {},
        }
        i += 1;
        proof {
            assert(r@ =~= breakpoints@.filter(
                |n: i32| exists|j: int| 0 <= j < i && line_number_of(#[trigger] d[j]) == Some(n),
            )) by {
                assert forall|n: i32|
                    #![trigger breakpoints@.contains(n)]
                    breakpoints@.contains(n) && (exists|j: int|
                        0 <= j < i && line_number_of(#[trigger] d[j]) == Some(n)) implies r@.contains(n) by {
                    let j = choose|j: int| 0 <= j < i && line_number_of(#[trigger] d[j]) == Some(n);
                    if j < i - 1 {
                        assert(exists|q: int| 0 <= q < i - 1 && line_number_of(#[trigger] d[q]) == Some(n));
                    }
                }
                assert forall|n: i32| r@.contains(n) implies (exists|j: int|
                    0 <= j < i && line_number_of(#[trigger] d[j]) == Some(n)) by {
                    if !(exists|j: int| 0 <= j < i - 1 && line_number_of(#[trigger] d[j]) == Some(n)) {
                        assert(line_number_of(d[i - 1]) == Some(n));
                    }
                }
            }
        }
    }
    r
}

/// The editor state that a session keeps besides its lines and breakpoints.
#[derive(Debug, PartialEq, Eq)]
pub struct FullscreenEditorState {
    pub cursor_line: usize,
    pub cursor_col: usize,
    pub top_line: usize,
    pub left_col: usize,
    pub page_rows: usize,
    pub dirty: bool,
    pub selection_anchor: Option<EditorPosition>,
    pub clipboard: String,
    pub last_find: String,
    pub last_replace: String,
    pub undo_stack: Vec<EditorSnapshot>,
    pub redo_stack: Vec<EditorSnapshot>,
}

impl FullscreenEditorState {
    /// Every history entry of the state can be restored.
    pub open spec fn history_wf(&self) -> bool {
        stack_wf(stack_view(self.undo_stack@)) && stack_wf(stack_view(self.redo_stack@))
    }

    pub fn from_editor(editor: &BasicEditor) -> (r: FullscreenEditorState)
        requires
            editor.wf(),
        ensures
            r.history_wf(),
            r.cursor_line == editor.cursor_line,
            r.cursor_col == editor.cursor_col,
            r.top_line == editor.top_line,
            r.left_col == editor.left_col,
            r.page_rows == editor.page_rows,
            r.dirty == editor.dirty,
            r.selection_anchor == editor.selection_anchor,
            r.clipboard@ == editor.clipboard@,
            r.last_find@ == editor.last_find@,
            r.last_replace@ == editor.last_replace@,
            stack_view(r.undo_stack@) == stack_view(editor.undo_stack@),
            stack_view(r.redo_stack@) == stack_view(editor.redo_stack@),
    {
        FullscreenEditorState {
            cursor_line: editor.cursor_line,
            cursor_col: editor.cursor_col,
            top_line: editor.top_line,
            left_col: editor.left_col,
            page_rows: editor.page_rows,
            dirty: editor.dirty,
            selection_anchor: editor.selection_anchor,
            clipboard: editor.clipboard.clone(),
            last_find: editor.last_find.clone(),
            last_replace: editor.last_replace.clone(),
            undo_stack: clone_stack(&editor.undo_stack),
            redo_stack: clone_stack(&editor.redo_stack),
        }
    }

    /// Puts the state into `editor`, clamping the cursor and the first
    /// visible line to its lines and dropping a selection anchor that no
    /// longer lies inside them (or that meets the cursor).
    pub fn restore_into(self, editor: &mut BasicEditor)
        requires
            old(editor).wf(),
            self.history_wf(),
        ensures
            final(editor).wf(),
            final(editor).lines == old(editor).lines,
            final(editor).breakpoints == old(editor).breakpoints,
            final(editor).cursor_line as int == min_int(self.cursor_line as int, old(editor).docv().len() - 1),
            final(editor).cursor_col as int == min_int(
                self.cursor_col as int,
                old(editor).docv()[final(editor).cursor_line as int].len() as int,
            ),
            final(editor).top_line as int == min_int(self.top_line as int, old(editor).docv().len() - 1),
            final(editor).left_col == self.left_col,
            final(editor).page_rows == crate::debug_view::at_least_one(self.page_rows),
            final(editor).dirty == self.dirty,
            final(editor).selection_anchor == (match self.selection_anchor {
                Some(p) => if valid_pos(old(editor).docv(), p) && p != final(editor).pos() {
                    Some(p)
                } else {
                    None
                },
                None => None,
            }),
            final(editor).clipboard == self.clipboard,
            final(editor).last_find == self.last_find,
            final(editor).last_replace == self.last_replace,
            final(editor).undo_stack == self.undo_stack,
            final(editor).redo_stack == self.redo_stack,
    {
        let last = editor.lines.len() - 1;
        editor.cursor_line = if self.cursor_line < last {
            self.cursor_line
        } else {
            last
        };
        let len = editor.current_line_len();
        editor.cursor_col = if self.cursor_col < len {
            self.cursor_col
        } else {
            len
        };
        editor.top_line = if self.top_line < last {
            self.top_line
        } else {
            last
        };
        editor.left_col = self.left_col;
        editor.page_rows = if self.page_rows > 1 {
            self.page_rows
        } else {
            1
        };
        editor.dirty = self.dirty;
        editor.selection_anchor = match self.selection_anchor {
            Some(p) => if p.line < editor.lines.len() && p.col <= editor.lines[p.line].len() && !(
            p.line == editor.cursor_line && p.col == editor.cursor_col) {
                Some(p)
            } else {
                None
            },
            None => None,
        };
        editor.clipboard = self.clipboard;
        editor.last_find = self.last_find;
        editor.last_replace = self.last_replace;
        editor.undo_stack = self.undo_stack;
        editor.redo_stack = self.redo_stack;
    }

    fn duplicate(&self) -> (r: FullscreenEditorState)
        ensures
            r.history_wf() == self.history_wf(),
            r.cursor_line == self.cursor_line,
            r.cursor_col == self.cursor_col,
            r.top_line == self.top_line,
            r.left_col == self.left_col,
            r.page_rows == self.page_rows,
            r.dirty == self.dirty,
            r.selection_anchor == self.selection_anchor,
            r.clipboard@ == self.clipboard@,
            r.last_find@ == self.last_find@,
            r.last_replace@ == self.last_replace@,
            stack_view(r.undo_stack@) == stack_view(self.undo_stack@),
            stack_view(r.redo_stack@) == stack_view(self.redo_stack@),
    {
        FullscreenEditorState {
            cursor_line: self.cursor_line,
            cursor_col: self.cursor_col,
            top_line: self.top_line,
            left_col: self.left_col,
            page_rows: self.page_rows,
            dirty: self.dirty,
            selection_anchor: self.selection_anchor,
            clipboard: self.clipboard.clone(),
            last_find: self.last_find.clone(),
            last_replace: self.last_replace.clone(),
            undo_stack: clone_stack(&self.undo_stack),
            redo_stack: clone_stack(&self.redo_stack),
        }
    }
}

/// The result of a full-screen editing session: the program lines, the
/// breakpoints on them, and the editor state to resume from.
#[derive(Debug, PartialEq, Eq)]
pub struct FullscreenEditorSession {
    lines: Vec<String>,
    breakpoints: HashSet<i32>,
    editor_state: FullscreenEditorState,
}

impl FullscreenEditorSession {
    #[verifier::type_invariant]
    spec fn inv(self) -> bool {
        self.editor_state.history_wf()
    }

    /// The lines of the session.
    pub closed spec fn lines_view(self) -> Seq<Seq<char>> {
        strings_view(self.lines@)
    }

    /// The breakpoints of the session.
    pub closed spec fn breakpoints_view(self) -> Set<i32> {
        self.breakpoints@
    }

    /// The cursor, view, selection, dirty flag and texts of the session are
    /// those of `e`, and so is its history.
    pub closed spec fn keeps_state_of(self, e: BasicEditor) -> bool {
        let s = self.editor_state;
        &&& s.cursor_line == e.cursor_line
        &&& s.cursor_col == e.cursor_col
        &&& s.top_line == e.top_line
        &&& s.left_col == e.left_col
        &&& s.page_rows == e.page_rows
        &&& s.dirty == e.dirty
        &&& s.selection_anchor == e.selection_anchor
        &&& s.clipboard@ == e.clipboard@
        &&& s.last_find@ == e.last_find@
        &&& s.last_replace@ == e.last_replace@
        &&& stack_view(s.undo_stack@) == stack_view(e.undo_stack@)
        &&& stack_view(s.redo_stack@) == stack_view(e.redo_stack@)
    }

    /// A session over `lines` without breakpoints.
    pub fn new(lines: Vec<String>) -> (r: FullscreenEditorSession)
        ensures
            r.lines_view() == (if lines@.len() == 0 {
                seq![Seq::<char>::empty()]
            } else {
                strings_view(lines@)
            }),
            r.breakpoints_view() == Set::<i32>::empty(),
    {
        FullscreenEditorSession::with_breakpoints(lines, HashSet::new())
    }

    /// A session over `lines` with those of `breakpoints` that name a line.
    pub fn with_breakpoints(lines: Vec<String>, breakpoints: HashSet<i32>) -> (r: FullscreenEditorSession)
        ensures
            r.lines_view() == (if lines@.len() == 0 {
                seq![Seq::<char>::empty()]
            } else {
                strings_view(lines@)
            }),
            r.breakpoints_view() == valid_breakpoints(r.lines_view(), breakpoints@),
    {
        let editor = BasicEditor::with_breakpoints(lines.as_slice(), breakpoints);
        let r = FullscreenEditorSession::from_editor(&editor);
        proof {
            assert(r.lines_view() =~= editor.docv());
            if lines@.len() > 0 {
                assert(strings_view(lines@) =~= Seq::new(lines@.len(), |i: int| lines@[i]@));
            }
        }
        r
    }

    /// The program lines.
    pub fn lines(&self) -> (r: &[String])
        ensures
            strings_view(r@) == self.lines_view(),
    {
        self.lines.as_slice()
    }

    /// The breakpoints.
    pub fn breakpoints(&self) -> (r: &HashSet<i32>)
        ensures
            r@ == self.breakpoints_view(),
    {
        &self.breakpoints
    }

    /// The session that an editor leaves: its lines, its breakpoints that
    /// name a line, and its state.
    pub fn from_editor(editor: &BasicEditor) -> (r: FullscreenEditorSession)
        requires
            editor.wf(),
        ensures
            r.lines_view() == editor.docv(),
            r.breakpoints_view() == valid_breakpoints(editor.docv(), editor.breakpoints@),
            r.keeps_state_of(*editor),
    {
        let lines = editor.lines_as_strings();
        assert(strings_view(lines@) =~= editor.docv());
        let breakpoints = valid_editor_breakpoints(lines.as_slice(), &editor.breakpoints);
        let state = FullscreenEditorState::from_editor(editor);
        FullscreenEditorSession { lines, breakpoints, editor_state: state }
    }

    /// `r` resumes the session: its lines and breakpoints, its state with
    /// the cursor and first visible line clamped to the lines, and its
    /// selection anchor when it still lies inside them.
    pub closed spec fn resumed_by(self, r: BasicEditor) -> bool {
        let st = self.editor_state;
        let d = r.docv();
        &&& d == (if self.lines_view().len() == 0 {
            seq![Seq::<char>::empty()]
        } else {
            self.lines_view()
        })
        &&& r.breakpoints@ == self.breakpoints_view()
        &&& r.cursor_line as int == min_int(st.cursor_line as int, d.len() - 1)
        &&& r.cursor_col as int == min_int(st.cursor_col as int, d[r.cursor_line as int].len() as int)
        &&& r.top_line as int == min_int(st.top_line as int, d.len() - 1)
        &&& r.left_col == st.left_col
        &&& r.page_rows == crate::debug_view::at_least_one(st.page_rows)
        &&& r.dirty == st.dirty
        &&& r.selection_anchor == (match st.selection_anchor {
            Some(p) => if valid_pos(d, p) && p != r.pos() {
                Some(p)
            } else {
                None
            },
            None => None,
        })
        &&& r.clipboard == st.clipboard
        &&& r.last_find == st.last_find
        &&& r.last_replace == st.last_replace
        &&& r.undo_stack == st.undo_stack
        &&& r.redo_stack == st.redo_stack
    }

    /// An editor that resumes the session.
    pub fn into_editor(self) -> (r: BasicEditor)
        ensures
            self.resumed_by(r),
            r.wf(),
            r.docv() == (if self.lines_view().len() == 0 {
                seq![Seq::<char>::empty()]
            } else {
                self.lines_view()
            }),
            r.breakpoints@ == self.breakpoints_view(),
    {
        proof {
            use_type_invariant(&self);
        }
        let FullscreenEditorSession { lines, breakpoints, editor_state } = self;
        let mut editor = BasicEditor::with_breakpoints(lines.as_slice(), breakpoints);
        editor_state.restore_into(&mut editor);
        proof {
            if lines@.len() > 0 {
                assert(strings_view(lines@) =~= Seq::new(lines@.len(), |i: int| lines@[i]@));
            }
        }
        editor
    }
}

impl Clone for FullscreenEditorSession {
    fn clone(&self) -> (r: FullscreenEditorSession)
        ensures
            r.lines_view() == self.lines_view(),
            r.breakpoints_view() == self.breakpoints_view(),
    {
        proof {
            use_type_invariant(self);
        }
        let mut lines: Vec<String> = Vec::new();
        let mut i: usize = 0;
        while i < self.lines.len()
            invariant
                0 <= i <= self.lines@.len(),
                lines@.len() == i,
                forall|k: int| 0 <= k < i ==> #[trigger] lines@[k]@ == self.lines@[k]@,
            decreases self.lines@.len() - i,
        {
            lines.push(self.lines[i].clone());
            i += 1;
        }
        assert(strings_view(lines@) =~= strings_view(self.lines@));
        FullscreenEditorSession {
            lines,
            breakpoints: clone_breakpoints(&self.breakpoints),
            editor_state: self.editor_state.duplicate(),
        }
    }
}

impl Default for FullscreenEditorSession {
    fn default() -> (r: FullscreenEditorSession)
        ensures
            r.lines_view() == seq![Seq::<char>::empty()],
            r.breakpoints_view() == Set::<i32>::empty(),
    {
        FullscreenEditorSession::new(Vec::new())
    }
}

/// A session keeps the editor: the editor that resumes the session taken
/// from a well-formed editor has its lines, cursor, view, selection, dirty
/// flag, texts and history (the first visible line and the page height
/// being in range, as editing keeps them).
pub proof fn session_round_trip(e: BasicEditor, s: FullscreenEditorSession, r: BasicEditor)
    requires
        e.wf(),
        e.top_line < e.docv().len(),
        e.page_rows >= 1,
        s.lines_view() == e.docv(),
        s.keeps_state_of(e),
        s.resumed_by(r),
    ensures
        r.docv() == e.docv(),
        r.pos() == e.pos(),
        r.top_line == e.top_line,
        r.left_col == e.left_col,
        r.page_rows == e.page_rows,
        r.dirty == e.dirty,
        r.selection_anchor == e.selection_anchor,
        r.clipboard@ == e.clipboard@,
        r.last_find@ == e.last_find@,
        r.last_replace@ == e.last_replace@,
        stack_view(r.undo_stack@) == stack_view(e.undo_stack@),
        stack_view(r.redo_stack@) == stack_view(e.redo_stack@),
{
}

/// How a full-screen editing session ends.
pub enum FullscreenEditOutcome {
    Apply(FullscreenEditorSession),
    Cancel,
}

} // verus!
