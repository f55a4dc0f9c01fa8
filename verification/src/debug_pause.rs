//! One pause of the full-screen debugger as a state machine: the source
//! view, the inspector scroll offset and the status bar, and what each key
//! press, resize or interrupt does to them. The terminal loop around it
//! reads the events and draws the frames.
use std::collections::HashSet;
use vstd::prelude::*;
use crate::debug_view::{
    command_start, next_separator, remark_at,
    at_least_one, has_inspector_spec, layout_of, reveal_left, sat_add, sat_sub, statement_col, viewed_len,
    DebugLayout,
};
use crate::debugger::DebugAction;
use crate::editor::{BasicEditor, EditorPosition};
use crate::editor_ops::{moved, MoveDirection};
use crate::line_input::{KeyInput, KeyModifierState};
use crate::panel::DebugSnapshot;
use crate::renumber::line_number_of;
use crate::screen_text::{location_status, reason_label};
use crate::text::int_decimal;

verus! {

/// What happens while the debugger is paused.
#[derive(Debug, Clone, Copy, PartialEq, Eq)]
pub enum DebugEvent {
    /// A key was pressed (or repeated).
    Key(KeyInput, KeyModifierState),
    /// The terminal now has this many columns and rows.
    Resize(usize, usize),
    /// Ctrl+C was raised outside the key stream.
    Interrupt,
}

/// The outcome of one event.
#[derive(Debug, Clone, Copy, PartialEq, Eq)]
pub enum DebugStep {
    /// Leave the pause with `action`; `clear_interrupt` when the pending
    /// interrupt request has been answered by it.
    Finish { action: DebugAction, clear_interrupt: bool },
    /// Stay paused and draw the screen again.
    Redraw,
}

/// The debugger action of a key, as `debug_action_for_key` gives it.
pub open spec fn key_action(code: KeyInput, modifiers: KeyModifierState) -> Option<DebugAction> {
    match code {
        KeyInput::F(n) => if n == 1 || n == 5 {
            Some(DebugAction::Continue)
        } else if n == 6 {
            Some(DebugAction::StepInto)
        } else if n == 7 {
            Some(DebugAction::StepOver)
        } else if n == 8 {
            Some(DebugAction::StepOut)
        } else {
            None
        },
        KeyInput::Char(c) => if (c == 'c' || c == 'C') && modifiers.control {
            Some(DebugAction::Abort)
        } else {
            None
        },
        KeyInput::Esc => Some(DebugAction::Abort),
        _ => None,
    }
}

/// Ctrl+C pressed as a key.
pub open spec fn is_ctrl_c(code: KeyInput, modifiers: KeyModifierState) -> bool {
    code matches KeyInput::Char(c) && (c == 'c' || c == 'C') && modifiers.control
}

/// The number of the line under the cursor.
pub open spec fn viewed_line(editor: BasicEditor) -> Option<i32> {
    if editor.cursor_line < editor.lines@.len() {
        line_number_of(editor.lines@[editor.cursor_line as int]@)
    } else {
        None
    }
}

/// The status bar: pause reason, location and the keys.
pub open spec fn pause_status(snapshot: DebugSnapshot, viewed: Option<i32>, inspector: bool) -> Seq<char> {
    reason_label(snapshot.reason) + " | "@ + location_status(
        snapshot.location.line,
        snapshot.location.statement as nat,
        viewed,
    ) + " | F5 Go F6 Into F7 Over F8 Out Esc Abort F2 Break"@ + (if inspector {
        " Tab/Shift+Tab Inspect"@
    } else {
        Seq::<char>::empty()
    })
}

/// The status bar after F2 on the cursor line of `editor`.
pub open spec fn breakpoint_status(snapshot: DebugSnapshot, editor: BasicEditor) -> Seq<char> {
    let message = match line_number_of(editor.docv()[editor.cursor_line as int]) {
        None => "Breakpoint failed: no BASIC line"@,
        Some(n) => if editor.breakpoints@.contains(n) {
            "Breakpoint cleared at "@ + int_decimal(n as int)
        } else {
            "Breakpoint set at "@ + int_decimal(n as int)
        },
    };
    reason_label(snapshot.reason) + " | "@ + location_status(
        snapshot.location.line,
        snapshot.location.statement as nat,
        viewed_line(editor),
    ) + " | "@ + message
}

/// The breakpoints after F2 on the cursor line of `editor`.
pub open spec fn toggled_breakpoints(editor: BasicEditor) -> Set<i32> {
    match line_number_of(editor.docv()[editor.cursor_line as int]) {
        None => editor.breakpoints@,
        Some(n) => if editor.breakpoints@.contains(n) {
            editor.breakpoints@.remove(n)
        } else {
            editor.breakpoints@.insert(n)
        },
    }
}

/// The index of the first line of `lines` numbered `n`.
pub open spec fn first_line_numbered(lines: Seq<Seq<char>>, n: i32, i: int) -> bool {
    &&& 0 <= i < lines.len()
    &&& line_number_of(lines[i]) == Some(n)
    &&& forall|j: int| 0 <= j < i ==> line_number_of(#[trigger] lines[j]) != Some(n)
}

/// The inspector scroll offset after Tab (`backwards` for Shift+Tab).
pub open spec fn advanced_scroll(panel_lines: int, layout: DebugLayout, scroll: int, backwards: bool) -> int {
    if !has_inspector_spec(layout) {
        0
    } else if backwards {
        sat_sub(scroll, 4)
    } else {
        let max_scroll = sat_sub(panel_lines, layout.panel_rows as int);
        if max_scroll == 0 || scroll >= max_scroll {
            0
        } else {
            crate::editor::min_int(sat_add(scroll, 4), max_scroll)
        }
    }
}

/// The inspector scroll offset kept inside the panel.
pub open spec fn clamped_scroll(panel_lines: int, layout: DebugLayout, scroll: int) -> int {
    if !has_inspector_spec(layout) {
        0
    } else {
        crate::editor::min_int(scroll, sat_sub(panel_lines, layout.panel_rows as int))
    }
}

/// The number of inspector lines for a panel `width` columns wide.
pub open spec fn panel_line_count(snapshot: DebugSnapshot, width: usize) -> int {
    let cols = crate::panel::panel_texts(snapshot, crate::panel::no_changes(), width as int);
    crate::screen_text::max_rows(cols, cols.len() as int)
}

/// The state of a pause: the source view, the inspector scroll offset, the
/// status bar and the screen layout.
pub struct DebugPause {
    pub editor: BasicEditor,
    pub panel_scroll: usize,
    pub status: String,
    pub layout: DebugLayout,
}

/// The character index at a byte offset lies inside the line.
proof fn lemma_char_at_byte_within(s: Seq<char>, b: int, k: int)
    requires
        crate::navigation::char_at_byte_from(s, b, k) is Some,
    ensures
        k <= crate::navigation::char_at_byte_from(s, b, k).unwrap() <= s.len(),
    decreases s.len() + 1 - k,
{
    if k < 0 || k > s.len() {
    } else if crate::navigation::byte_off(s, k) == b {
    } else {
        lemma_char_at_byte_within(s, b, k + 1);
    }
}

proof fn lemma_statement_col_within(line: Seq<char>, statement: int, span: Option<std::ops::Range<usize>>)
    requires
        statement_col(line, statement, span) is Some,
    ensures
        0 <= statement_col(line, statement, span).unwrap() <= line.len(),
{
    match span {
        Some(sp) => if crate::navigation::statement_span(line, sp.start as int, sp.end as int) is Some {
            lemma_char_at_byte_within(line, sp.start as int, 0);
        } else {
            lemma_line_command_within(line, statement);
        },
        None => lemma_line_command_within(line, statement),
    }
}

proof fn lemma_line_command_within(line: Seq<char>, statement: int)
    requires
        crate::separators::line_number_end(line) is Some,
        statement >= 0,
        command_start(line, crate::separators::line_number_end(line).unwrap(), statement as nat) is Some,
    ensures
        0 <= command_start(line, crate::separators::line_number_end(line).unwrap(), statement as nat).unwrap() <= line.len(),
{
    let n = crate::separators::line_number_end(line).unwrap();
    let a = crate::separators::ws_run(line, 0) as int;
    crate::renumber::lemma_ws_run_le(line, 0);
    crate::renumber::lemma_digit_run_le(line, a);
    crate::renumber::lemma_ws_run_le(line, a + crate::separators::digit_run(line, a) as int);
    lemma_command_start_within(line, n, statement as nat);
}

proof fn lemma_next_separator_within(s: Seq<char>, i: int)
    requires
        next_separator(s, i) is Some,
    ensures
        i <= next_separator(s, i).unwrap() < s.len(),
    decreases s.len() - i,
{
    if !(i < 0 || i >= s.len() || remark_at(s, i)) && !crate::separators::unquoted_colon(s, i) {
        lemma_next_separator_within(s, i + 1);
    }
}

proof fn lemma_command_start_within(s: Seq<char>, i: int, k: nat)
    requires
        0 <= i <= s.len(),
        command_start(s, i, k) is Some,
    ensures
        0 <= command_start(s, i, k).unwrap() <= s.len(),
    decreases k,
{
    if k == 0 {
        crate::renumber::lemma_ws_run_le(s, i);
    } else {
        lemma_next_separator_within(s, i);
        lemma_command_start_within(s, next_separator(s, i).unwrap() + 1, (k - 1) as nat);
    }
}

fn index_of_line_numbered(lines: &Vec<Vec<char>>, n: i32) -> (r: Option<usize>)
    ensures
        match r {
            Some(i) => first_line_numbered(crate::editor::doc(lines@), n, i as int),
            None => forall|j: int|
                0 <= j < lines@.len() ==> line_number_of(#[trigger] crate::editor::doc(lines@)[j]) != Some(n),
        },
{
    let mut i: usize = 0;
    while i < lines.len()
        invariant
            i <= lines@.len(),
            forall|j: int| 0 <= j < i ==> line_number_of(#[trigger] crate::editor::doc(lines@)[j]) != Some(n),
        decreases lines@.len() - i,
    {
        if crate::renumber::editor_line_number(&lines[i]) == Some(n) {
            return Some(i);
        }
        i += 1;
    }
    None
}

impl DebugPause {
    pub open spec fn wf(&self) -> bool {
        self.editor.wf()
    }

    /// The pause as the debugger opens it on `lines` for a terminal of
    /// `cols` by `rows`: the cursor on the first line with the paused line's
    /// number, at its executing statement, which is scrolled into view, and
    /// that line half a screen from the top.
    pub fn begin(
        lines: &[String],
        breakpoints: &HashSet<i32>,
        snapshot: &DebugSnapshot,
        cols: usize,
        rows: usize,
    ) -> (r: DebugPause)
        requires
            snapshot.location.statement < u64::MAX,
        ensures
            r.wf(),
            r.editor.docv() == (if lines@.len() == 0 {
                seq![Seq::<char>::empty()]
            } else {
                Seq::new(lines@.len(), |i: int| lines@[i]@)
            }),
            r.editor.breakpoints@ == breakpoints@,
            r.editor.selection_anchor is None,
            !r.editor.dirty,
            r.layout == layout_of(cols, rows),
            r.panel_scroll == 0,
            r.status@ == pause_status(*snapshot, viewed_line(r.editor), has_inspector_spec(r.layout)),
            (exists|i: int| first_line_numbered(r.editor.docv(), snapshot.location.line, i)) ==> {
                let i = r.editor.cursor_line as int;
                let line = r.editor.docv()[i];
                let col = statement_col(line, snapshot.location.statement as int, snapshot.location.source_span);
                &&& first_line_numbered(r.editor.docv(), snapshot.location.line, i)
                &&& r.editor.cursor_col as int == (match col {
                    Some(c) => c,
                    None => 0,
                })
                &&& r.editor.left_col as int == (match col {
                    Some(c) => reveal_left(c, line.len() as int, 0, r.layout.code_cols as int, true),
                    None => 0,
                })
                &&& r.editor.top_line as int == sat_sub(i, (r.layout.code_rows / 2) as int)
            },
            !(exists|i: int| first_line_numbered(r.editor.docv(), snapshot.location.line, i)) ==> {
                &&& r.editor.pos() == (EditorPosition { line: 0, col: 0 })
                &&& r.editor.top_line == 0 && r.editor.left_col == 0
            },
    {
        let mut editor = BasicEditor::with_breakpoints(lines, crate::editor::clone_breakpoints(breakpoints));
        let layout = crate::debug_view::debug_layout(cols, rows);
        let ghost d = editor.docv();
        assert(d == crate::editor::doc(editor.lines@));
        match index_of_line_numbered(&editor.lines, snapshot.location.line) {
            Some(line_index) => {
                editor.cursor_line = line_index;
                editor.cursor_col = 0;
                let span = match &snapshot.location.source_span {
                    Some(sp) => Some(sp),
                    None => None,
                };
                let statement = editor.reveal_debug_statement(
                    line_index,
                    snapshot.location.statement,
                    span,
                    layout.code_cols,
                    true,
                );
                match statement {
                    Some(c) => {
                        proof {
                            lemma_statement_col_within(
                                d[line_index as int],
                                snapshot.location.statement as int,
                                snapshot.location.source_span,
                            );
                            assert(d[line_index as int] == editor.lines@[line_index as int]@);
                            assert(editor.lines@[line_index as int]@.len() == editor.lines@[line_index as int].len());
                        }
                        editor.cursor_col = c;
                    },
                    None => {},
                }
                let half = layout.code_rows / 2;
                editor.top_line = if line_index > half {
                    line_index - half
                } else {
                    0
                };
                assert(crate::debug_view::opt_range(span) == snapshot.location.source_span);
            },
            None => {
                assert(!(exists|i: int| first_line_numbered(d, snapshot.location.line, i)));
            },
        }
        let inspector = layout.has_inspector();
        let status = crate::screen_text::debug_status(snapshot, editor.current_line_number(), inspector);
        DebugPause { editor, panel_scroll: 0, status, layout }
    }

    /// Keeps the inspector offset inside the panel and scrolls the source
    /// view so that the cursor line shows; done before each frame is drawn.
    pub fn prepare_frame(&mut self, snapshot: &DebugSnapshot)
        requires
            old(self).wf(),
            old(self).editor.top_line + at_least_one(old(self).layout.code_rows) <= usize::MAX,
        ensures
            final(self).wf(),
            final(self).layout == old(self).layout,
            final(self).status == old(self).status,
            final(self).panel_scroll as int == clamped_scroll(
                panel_line_count(*snapshot, old(self).layout.panel_cols),
                old(self).layout,
                old(self).panel_scroll as int,
            ),
            final(self).editor.page_rows == at_least_one(old(self).layout.code_rows),
            final(self).editor.top_line == (if old(self).editor.cursor_line < old(self).editor.top_line {
                old(self).editor.cursor_line as int
            } else if old(self).editor.cursor_line >= old(self).editor.top_line + at_least_one(
                old(self).layout.code_rows,
            ) {
                old(self).editor.cursor_line + 1 - at_least_one(old(self).layout.code_rows)
            } else {
                old(self).editor.top_line as int
            }),
            final(self).editor.left_col as int == crate::editor::min_int(
                old(self).editor.left_col as int,
                sat_sub(viewed_len(old(self).editor, snapshot.location), at_least_one(old(self).layout.code_cols) as int),
            ),
            final(self).editor.lines == old(self).editor.lines,
            final(self).editor.breakpoints == old(self).editor.breakpoints,
            final(self).editor.pos() == old(self).editor.pos(),
    {
        let layout = self.layout;
        let count = crate::panel::debug_panel_lines(snapshot, layout.panel_cols).len();
        self.panel_scroll = crate::debug_view::clamp_debug_panel_scroll(count, layout, self.panel_scroll);
        let view_len = crate::debug_view::debug_viewed_line_len(&self.editor, &snapshot.location);
        self.editor.ensure_debug_view_visible(layout.code_cols, layout.code_rows, view_len);
    }
    /// What one event does to the pause. Debugger keys and interrupts end
    /// it; F2 toggles the breakpoint of the cursor line; the arrows, Home,
    /// End and the page keys move through the source; Left and Right scroll
    /// it; Tab and Shift+Tab page through the inspector; a resize takes the
    /// new layout and brings the executing statement back into view.
    #[verifier::rlimit(40)]
    pub fn step(&mut self, snapshot: &DebugSnapshot, event: DebugEvent) -> (r: DebugStep)
        requires
            old(self).wf(),
            snapshot.location.statement < u64::MAX,
            event matches DebugEvent::Key(KeyInput::PageDown, _) ==> old(self).editor.cursor_line + at_least_one(
                old(self).editor.page_rows,
            ) <= usize::MAX,
        ensures
            final(self).wf(),
            final(self).editor.lines == old(self).editor.lines,
            event == DebugEvent::Interrupt ==> r == (DebugStep::Finish {
                action: DebugAction::Abort,
                clear_interrupt: true,
            }) && *final(self) == *old(self),
            event matches DebugEvent::Resize(cols, rows) ==> {
                    let layout = layout_of(cols, rows);
                    let e = old(self).editor;
                    let line = e.docv()[e.cursor_line as int];
                    &&& r == DebugStep::Redraw
                    &&& final(self).layout == layout
                    &&& final(self).editor == (BasicEditor { left_col: final(self).editor.left_col, ..e })
                    &&& final(self).editor.left_col as int == (if viewed_line(e) == Some(snapshot.location.line) {
                        match statement_col(line, snapshot.location.statement as int, snapshot.location.source_span) {
                            Some(c) => reveal_left(c, line.len() as int, e.left_col as int, layout.code_cols as int, false),
                            None => e.left_col as int,
                        }
                    } else {
                        e.left_col as int
                    })
                    &&& final(self).panel_scroll as int == clamped_scroll(
                        panel_line_count(*snapshot, layout.panel_cols),
                        layout,
                        old(self).panel_scroll as int,
                    )
                    &&& final(self).status@ == pause_status(*snapshot, viewed_line(e), has_inspector_spec(layout))
                },
            event matches DebugEvent::Key(code, modifiers) ==> match key_action(code, modifiers) {
                    Some(action) => r == (DebugStep::Finish { action, clear_interrupt: is_ctrl_c(code, modifiers) })
                        && *final(self) == *old(self),
                    None => {
                        let e = old(self).editor;
                        let f = final(self).editor;
                        let plain = pause_status(*snapshot, viewed_line(f), has_inspector_spec(old(self).layout));
                        &&& r == DebugStep::Redraw
                        &&& final(self).layout == old(self).layout
                        &&& (code matches KeyInput::Tab || code matches KeyInput::BackTab) ==> final(self).panel_scroll
                            as int == advanced_scroll(
                            panel_line_count(*snapshot, old(self).layout.panel_cols),
                            old(self).layout,
                            old(self).panel_scroll as int,
                            code matches KeyInput::BackTab,
                        ) && f == e && final(self).status@ == plain
                        &&& !(code matches KeyInput::Tab || code matches KeyInput::BackTab) ==> final(self).panel_scroll
                            == old(self).panel_scroll
                        &&& code == KeyInput::F(2) ==> f.breakpoints@ == toggled_breakpoints(e) && f.pos() == e.pos()
                            && f.top_line == e.top_line && f.left_col == e.left_col && final(self).status@
                            == breakpoint_status(*snapshot, e)
                        &&& (code == KeyInput::Up || code == KeyInput::Down) ==> f.pos() == moved(
                            e.docv(),
                            e.pos(),
                            if code == KeyInput::Up {
                                MoveDirection::Up
                            } else {
                                MoveDirection::Down
                            },
                        ) && f.keeps_settings(&e) && final(self).status@ == plain
                        &&& code == KeyInput::Left ==> f.left_col as int == sat_sub(e.left_col as int, 4) && f
                            == (BasicEditor { left_col: f.left_col, ..e }) && final(self).status@ == plain
                        &&& code == KeyInput::Right ==> f.left_col as int == crate::editor::min_int(
                            sat_add(e.left_col as int, 4),
                            sat_sub(viewed_len(e, snapshot.location), at_least_one(old(self).layout.code_cols) as int),
                        ) && f == (BasicEditor { left_col: f.left_col, ..e }) && final(self).status@ == plain
                        &&& code == KeyInput::Home ==> f.pos() == (EditorPosition { line: 0, col: 0 })
                            && f.keeps_settings(&e) && final(self).status@ == plain
                        &&& code == KeyInput::End ==> f.cursor_line == e.docv().len() - 1 && f.cursor_col
                            == e.docv()[e.docv().len() - 1].len() && f.keeps_settings(&e) && final(self).status@
                            == plain
                        &&& code == KeyInput::PageUp ==> f.cursor_line as int == (if e.cursor_line >= at_least_one(
                            e.page_rows,
                        ) {
                            e.cursor_line - at_least_one(e.page_rows)
                        } else {
                            0
                        }) && f.cursor_col as int == crate::editor::min_int(
                            e.cursor_col as int,
                            e.docv()[f.cursor_line as int].len() as int,
                        ) && f.keeps_settings(&e) && final(self).status@ == plain
                        &&& code == KeyInput::PageDown ==> f.cursor_line as int == crate::editor::min_int(
                            e.cursor_line + at_least_one(e.page_rows),
                            e.docv().len() - 1,
                        ) && f.cursor_col as int == crate::editor::min_int(
                            e.cursor_col as int,
                            e.docv()[f.cursor_line as int].len() as int,
                        ) && f.keeps_settings(&e) && final(self).status@ == plain
                        &&& !(code == KeyInput::F(2) || code == KeyInput::Up || code == KeyInput::Down || code
                            == KeyInput::Left || code == KeyInput::Right || code == KeyInput::Home || code
                            == KeyInput::End || code == KeyInput::PageUp || code == KeyInput::PageDown || code
                            matches KeyInput::Tab || code matches KeyInput::BackTab) ==> *final(self) == *old(self)
                    },
                },
    {
        match event {
            DebugEvent::Interrupt => DebugStep::Finish { action: DebugAction::Abort, clear_interrupt: true },
            DebugEvent::Resize(cols, rows) => {
                let layout = crate::debug_view::debug_layout(cols, rows);
                if self.editor.current_line_number() == Some(snapshot.location.line) {
                    let span = match &snapshot.location.source_span {
                        Some(sp) => Some(sp),
                        None => None,
                    };
                    let cursor_line = self.editor.cursor_line;
                    let _ = self.editor.reveal_debug_statement(
                        cursor_line,
                        snapshot.location.statement,
                        span,
                        layout.code_cols,
                        false,
                    );
                }
                let count = crate::panel::debug_panel_lines(snapshot, layout.panel_cols).len();
                self.panel_scroll = crate::debug_view::clamp_debug_panel_scroll(count, layout, self.panel_scroll);
                self.layout = layout;
                self.status = crate::screen_text::debug_status(
                    snapshot,
                    self.editor.current_line_number(),
                    layout.has_inspector(),
                );
                DebugStep::Redraw
            },
            DebugEvent::Key(code, modifiers) => {
                match crate::screen_text::debug_action_for_key(code, modifiers) {
                    Some(action) => {
                        let clear = crate::screen_text::is_debugger_ctrl_c(code, modifiers);
                        return DebugStep::Finish { action, clear_interrupt: clear };
                    },
                    None => {},
                }
                let layout = self.layout;
                match code {
                    KeyInput::F(2) => {
                        let ghost before = self.editor;
                        let toggled = self.editor.toggle_breakpoint();
                        let mut message: Vec<char> = Vec::new();
                        match toggled {
                            Ok((set, line)) => {
                                if set {
                                    crate::text::extend_with_str(&mut message, "Breakpoint set at ");
                                } else {
                                    crate::text::extend_with_str(&mut message, "Breakpoint cleared at ");
                                }
                                crate::text::extend_with_chars(&mut message, &crate::text::i32_to_decimal(line));
                            },
                            Err(m) => {
                                crate::text::extend_with_str(&mut message, "Breakpoint failed: ");
                                crate::text::extend_with_str(&mut message, m);
                            },
                        }
                        proof {
                            reveal_strlit("Breakpoint set at ");
                            reveal_strlit("Breakpoint cleared at ");
                            reveal_strlit("Breakpoint failed: ");
                            reveal_strlit("no BASIC line");
                            reveal_strlit("Breakpoint failed: no BASIC line");
                            assert("Breakpoint failed: no BASIC line"@ =~= "Breakpoint failed: "@ + "no BASIC line"@);
                        }
                        let text = crate::text::string_from_chars(&message);
                        self.status = crate::screen_text::debug_status_message(
                            snapshot,
                            self.editor.current_line_number(),
                            text.as_str(),
                        );
                    },
                    KeyInput::Up => {
                        self.editor.move_up();
                        self.status = crate::screen_text::debug_status(
                            snapshot,
                            self.editor.current_line_number(),
                            layout.has_inspector(),
                        );
                    },
                    KeyInput::Down => {
                        self.editor.move_down();
                        self.status = crate::screen_text::debug_status(
                            snapshot,
                            self.editor.current_line_number(),
                            layout.has_inspector(),
                        );
                    },
                    KeyInput::Left => {
                        self.editor.scroll_debug_left();
                        self.status = crate::screen_text::debug_status(
                            snapshot,
                            self.editor.current_line_number(),
                            layout.has_inspector(),
                        );
                    },
                    KeyInput::Right => {
                        let view_len = crate::debug_view::debug_viewed_line_len(&self.editor, &snapshot.location);
                        self.editor.scroll_debug_right(layout.code_cols, view_len);
                        self.status = crate::screen_text::debug_status(
                            snapshot,
                            self.editor.current_line_number(),
                            layout.has_inspector(),
                        );
                    },
                    KeyInput::Home => {
                        self.editor.move_document_start();
                        self.status = crate::screen_text::debug_status(
                            snapshot,
                            self.editor.current_line_number(),
                            layout.has_inspector(),
                        );
                    },
                    KeyInput::End => {
                        self.editor.move_document_end();
                        self.status = crate::screen_text::debug_status(
                            snapshot,
                            self.editor.current_line_number(),
                            layout.has_inspector(),
                        );
                    },
                    KeyInput::PageUp => {
                        self.editor.page_up();
                        self.status = crate::screen_text::debug_status(
                            snapshot,
                            self.editor.current_line_number(),
                            layout.has_inspector(),
                        );
                    },
                    KeyInput::PageDown => {
                        self.editor.page_down();
                        self.status = crate::screen_text::debug_status(
                            snapshot,
                            self.editor.current_line_number(),
                            layout.has_inspector(),
                        );
                    },
                    KeyInput::BackTab | KeyInput::Tab => {
                        let backwards = code == KeyInput::BackTab;
                        let count = crate::panel::debug_panel_lines(snapshot, layout.panel_cols).len();
                        self.panel_scroll = crate::debug_view::advance_debug_panel_scroll(
                            count,
                            layout,
                            self.panel_scroll,
                            backwards,
                        );
                        self.status = crate::screen_text::debug_status(
                            snapshot,
                            self.editor.current_line_number(),
                            layout.has_inspector(),
                        );
                    },
                    _ => {},
                }
                DebugStep::Redraw
            },
        }
    }
}

} // verus!
