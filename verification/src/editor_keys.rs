//! What each key does in the full-screen editor, and the commands that run
//! on the buffer alone.
use vstd::prelude::*;
use crate::editor::{BasicEditor, EditorPosition, min_int, first_match, no_match, origin, eq_ic_seq, text_between, split_on};
use crate::editor_ops::{MoveDirection, moved, anchor_after_move};
use crate::line_input::{KeyInput, KeyModifierState, should_insert_key_char};
use crate::text::{is_control, is_alnum};

verus! {

/// A command of the full-screen editor.
#[derive(Debug, Clone, Copy, PartialEq, Eq, Structural)]
pub enum EditorCommand {
    Apply,
    Cancel,
    Undo,
    Redo,
    Copy,
    Paste,
    Find,
    Replace,
    Renumber,
    InsertChar(char),
    Newline,
    Indent,
    Backspace,
    Delete,
    Move(MoveDirection, bool),
    LineStart,
    LineEnd,
    DocumentStart,
    DocumentEnd,
    PageUp,
    PageDown,
    Ignore,
}

/// The command of a key press: F12 applies, Esc cancels, F3/F4 undo and
/// redo, F5/F6 copy and paste, F7/F8 find and replace, F9 renumbers;
/// arrows move (selecting with Shift), Ctrl+Home/End go to the document's
/// ends; text keys type.
pub open spec fn command_for(code: KeyInput, m: KeyModifierState) -> EditorCommand {
    match code {
        KeyInput::F(n) => if n == 12 {
            EditorCommand::Apply
        } else if n == 3 {
            EditorCommand::Undo
        } else if n == 4 {
            EditorCommand::Redo
        } else if n == 5 {
            EditorCommand::Copy
        } else if n == 6 {
            EditorCommand::Paste
        } else if n == 8 {
            EditorCommand::Replace
        } else if n == 7 {
            EditorCommand::Find
        } else if n == 9 {
            EditorCommand::Renumber
        } else {
            EditorCommand::Ignore
        },
        KeyInput::Esc => EditorCommand::Cancel,
        KeyInput::Char(c) => if !is_control(c) && (!m.control || (m.alt && !is_alnum(c))) {
            EditorCommand::InsertChar(c)
        } else {
            EditorCommand::Ignore
        },
        KeyInput::Enter => EditorCommand::Newline,
        KeyInput::Tab => EditorCommand::Indent,
        KeyInput::Backspace => EditorCommand::Backspace,
        KeyInput::Delete => EditorCommand::Delete,
        KeyInput::Left => EditorCommand::Move(MoveDirection::Left, m.shift),
        KeyInput::Right => EditorCommand::Move(MoveDirection::Right, m.shift),
        KeyInput::Up => EditorCommand::Move(MoveDirection::Up, m.shift),
        KeyInput::Down => EditorCommand::Move(MoveDirection::Down, m.shift),
        KeyInput::Home => if m.control {
            EditorCommand::DocumentStart
        } else {
            EditorCommand::LineStart
        },
        KeyInput::End => if m.control {
            EditorCommand::DocumentEnd
        } else {
            EditorCommand::LineEnd
        },
        KeyInput::PageUp => EditorCommand::PageUp,
        KeyInput::PageDown => EditorCommand::PageDown,
        _ => EditorCommand::Ignore,
    }
}

pub fn editor_command_for_key(code: KeyInput, modifiers: KeyModifierState) -> (r: EditorCommand)
    ensures
        r == command_for(code, modifiers),
{
    match code {
        KeyInput::F(n) => if n == 12 {
            EditorCommand::Apply
        } else if n == 3 {
            EditorCommand::Undo
        } else if n == 4 {
            EditorCommand::Redo
        } else if n == 5 {
            EditorCommand::Copy
        } else if n == 6 {
            EditorCommand::Paste
        } else if n == 8 {
            EditorCommand::Replace
        } else if n == 7 {
            EditorCommand::Find
        } else if n == 9 {
            EditorCommand::Renumber
        } else {
            EditorCommand::Ignore
        },
        KeyInput::Esc => EditorCommand::Cancel,
        KeyInput::Char(c) => if should_insert_key_char(c, modifiers) {
            EditorCommand::InsertChar(c)
        } else {
            EditorCommand::Ignore
        },
        KeyInput::Enter => EditorCommand::Newline,
        KeyInput::Tab => EditorCommand::Indent,
        KeyInput::Backspace => EditorCommand::Backspace,
        KeyInput::Delete => EditorCommand::Delete,
        KeyInput::Left => EditorCommand::Move(MoveDirection::Left, modifiers.shift),
        KeyInput::Right => EditorCommand::Move(MoveDirection::Right, modifiers.shift),
        KeyInput::Up => EditorCommand::Move(MoveDirection::Up, modifiers.shift),
        KeyInput::Down => EditorCommand::Move(MoveDirection::Down, modifiers.shift),
        KeyInput::Home => if modifiers.control {
            EditorCommand::DocumentStart
        } else {
            EditorCommand::LineStart
        },
        KeyInput::End => if modifiers.control {
            EditorCommand::DocumentEnd
        } else {
            EditorCommand::LineEnd
        },
        KeyInput::PageUp => EditorCommand::PageUp,
        KeyInput::PageDown => EditorCommand::PageDown,
        _ => EditorCommand::Ignore,
    }
}

/// The commands that need nothing but the buffer.
pub open spec fn runs_on_buffer(cmd: EditorCommand) -> bool {
    !(cmd == EditorCommand::Apply || cmd == EditorCommand::Cancel || cmd == EditorCommand::Find || cmd
        == EditorCommand::Replace)
}

fn text_of(s: &str) -> (r: String)
    ensures
        r@ == s@,
{
    crate::text::string_from_chars(&crate::text::str_chars(s))
}

impl BasicEditor {
    /// Runs a command that needs nothing but the buffer and returns the new
    /// status text.
    pub fn apply_editor_command(&mut self, cmd: EditorCommand) -> (status: String)
        requires
            old(self).wf(),
            runs_on_buffer(cmd),
            cmd == EditorCommand::PageDown ==> old(self).cursor_line + crate::debug_view::at_least_one(
                old(self).page_rows,
            ) <= usize::MAX,
        ensures
            final(self).wf(),
            cmd == EditorCommand::Undo ==> if old(self).undo_stack@.len() > 0 {
                status@ == "Undone"@ && crate::laws::undone(&*old(self), &*final(self))
            } else {
                status@ == "Nothing to undo"@ && *final(self) == *old(self)
            },
            cmd == EditorCommand::Redo ==> if old(self).redo_stack@.len() > 0 {
                status@ == "Redone"@ && crate::laws::redone(&*old(self), &*final(self))
            } else {
                status@ == "Nothing to redo"@ && *final(self) == *old(self)
            },
            cmd == EditorCommand::Copy ==> if old(self).selection() is Some {
                status@ == "Copied"@ && final(self).clipboard@ == crate::editor::text_between(
                    old(self).docv(),
                    old(self).edit_range().0,
                    old(self).edit_range().1,
                ) && final(self).lines == old(self).lines
            } else {
                status@ == "No selection"@ && final(self).clipboard == old(self).clipboard
            },
            cmd == EditorCommand::Paste ==> if old(self).clipboard@.len() > 0 {
                status@ == "Pasted"@ && final(self).edited(
                    old(self),
                    old(self).edit_range().0,
                    old(self).edit_range().1,
                    crate::editor::split_on(old(self).clipboard@, '\n'),
                ) && final(self).recorded(old(self))
            } else {
                status@ == "Clipboard empty"@ && *final(self) == *old(self)
            },
            cmd == EditorCommand::Renumber ==> match crate::renumber::renum_plan(old(self).docv()) {
                Ok(_) => status@ == "Renumbered"@ && final(self).recorded(old(self)),
                Err(e) => status@ == "Renum failed: "@ + crate::renumber::renum_message(e) && *final(self)
                    == *old(self),
            },
            cmd == EditorCommand::Indent ==> final(self).edited(
                old(self),
                old(self).edit_range().0,
                old(self).edit_range().1,
                seq![seq![' ', ' ']],
            ) && final(self).recorded(old(self)),
            cmd matches EditorCommand::Move(dir, extend) ==> final(self).pos() == moved(
                old(self).docv(),
                old(self).pos(),
                dir,
            ) && final(self).selection_anchor == anchor_after_move(
                extend,
                old(self).selection_anchor,
                old(self).pos(),
                final(self).pos(),
            ) && final(self).lines == old(self).lines,
            cmd == EditorCommand::LineStart ==> final(self).pos() == (EditorPosition {
                line: old(self).cursor_line,
                col: 0,
            }),
            cmd == EditorCommand::DocumentStart ==> final(self).pos() == (EditorPosition { line: 0, col: 0 }),
            cmd matches EditorCommand::InsertChar(c) ==> final(self).char_inserted(old(self), c),
            cmd == EditorCommand::Newline ==> final(self).edited(
                old(self),
                old(self).edit_range().0,
                old(self).edit_range().1,
                crate::editor::line_break_parts(),
            ) && final(self).recorded(old(self)),
            cmd == EditorCommand::Backspace ==> final(self).backspaced(old(self)),
            cmd == EditorCommand::Delete ==> final(self).deleted_forward(old(self)),
            cmd == EditorCommand::LineEnd ==> final(self).pos() == (EditorPosition {
                line: old(self).cursor_line,
                col: old(self).docv()[old(self).cursor_line as int].len() as usize,
            }) && final(self).selection_anchor is None && final(self).lines == old(self).lines,
            cmd == EditorCommand::DocumentEnd ==> final(self).cursor_line == old(self).docv().len() - 1
                && final(self).cursor_col == old(self).docv()[old(self).docv().len() - 1].len()
                && final(self).selection_anchor is None && final(self).lines == old(self).lines,
            cmd == EditorCommand::PageUp ==> final(self).cursor_line as int == (if old(self).cursor_line
                >= crate::debug_view::at_least_one(old(self).page_rows) {
                old(self).cursor_line - crate::debug_view::at_least_one(old(self).page_rows)
            } else {
                0
            }) && final(self).cursor_col as int == crate::editor::min_int(
                old(self).cursor_col as int,
                old(self).docv()[final(self).cursor_line as int].len() as int,
            ) && final(self).selection_anchor is None && final(self).lines == old(self).lines,
            cmd == EditorCommand::PageDown ==> final(self).cursor_line as int == crate::editor::min_int(
                old(self).cursor_line + crate::debug_view::at_least_one(old(self).page_rows),
                old(self).docv().len() - 1,
            ) && final(self).cursor_col as int == crate::editor::min_int(
                old(self).cursor_col as int,
                old(self).docv()[final(self).cursor_line as int].len() as int,
            ) && final(self).selection_anchor is None && final(self).lines == old(self).lines,
            cmd == EditorCommand::Ignore ==> *final(self) == *old(self),
            !(cmd == EditorCommand::Undo || cmd == EditorCommand::Redo || cmd == EditorCommand::Copy || cmd
                == EditorCommand::Paste || cmd == EditorCommand::Renumber) ==> status@
                == "F12 Apply Esc Cancel F3/F4 Undo/Redo F5/F6 Copy/Paste F7/F8 Find/Replace F9 Renum"@,
    {
        match cmd {
            EditorCommand::Undo => {
                if self.undo() {
                    text_of("Undone")
                } else {
                    text_of("Nothing to undo")
                }
            },
            EditorCommand::Redo => {
                if self.redo() {
                    text_of("Redone")
                } else {
                    text_of("Nothing to redo")
                }
            },
            EditorCommand::Copy => {
                if self.copy_selection() {
                    text_of("Copied")
                } else {
                    text_of("No selection")
                }
            },
            EditorCommand::Paste => {
                if self.paste_clipboard() {
                    text_of("Pasted")
                } else {
                    text_of("Clipboard empty")
                }
            },
            EditorCommand::Renumber => {
                match self.renumber_visible_lines() {
                    Ok(()) => text_of("Renumbered"),
                    Err(e) => {
                        let mut v = crate::text::str_chars("Renum failed: ");
                        crate::text::extend_with_str(&mut v, e.message());
                        crate::text::string_from_chars(&v)
                    },
                }
            },
            EditorCommand::InsertChar(ch) => {
                self.insert_char(ch);
                self.default_status()
            },
            EditorCommand::Newline => {
                self.insert_newline();
                self.default_status()
            },
            EditorCommand::Indent => {
                proof {
                    reveal_strlit("  ");
                    let two = "  "@;
                    assert(two =~= seq![' ', ' ']);
                    assert(two.drop_last() =~= seq![' ']);
                    assert(two.drop_last().drop_last() =~= Seq::<char>::empty());
                    assert(crate::editor::split_on(two.drop_last().drop_last(), '\n') =~= seq![Seq::<char>::empty()]);
                    assert(seq![Seq::<char>::empty()].last().push(' ') =~= seq![' ']);
                    assert(crate::editor::split_on(two.drop_last(), '\n') =~= seq![seq![' ']]);
                    assert(seq![' '].push(' ') =~= seq![' ', ' ']);
                    assert(crate::editor::split_on(two, '\n') =~= seq![seq![' ', ' ']]);
                }
                self.insert_text("  ");
                self.default_status()
            },
            EditorCommand::Backspace => {
                self.backspace();
                self.default_status()
            },
            EditorCommand::Delete => {
                self.delete();
                self.default_status()
            },
            EditorCommand::Move(dir, extend) => {
                self.move_with_selection(extend, dir);
                self.default_status()
            },
            EditorCommand::LineStart => {
                self.move_home();
                self.default_status()
            },
            EditorCommand::LineEnd => {
                self.move_end();
                self.default_status()
            },
            EditorCommand::DocumentStart => {
                self.move_document_start();
                self.default_status()
            },
            EditorCommand::DocumentEnd => {
                self.move_document_end();
                self.default_status()
            },
            EditorCommand::PageUp => {
                self.page_up();
                self.default_status()
            },
            EditorCommand::PageDown => {
                self.page_down();
                self.default_status()
            },
            _ => self.default_status(),
        }
    }
}

/// The status line while replacing one match at a time.
pub fn editor_replace_status() -> (r: String)
    ensures
        r@ == "Replace: Enter Replace  F7 Skip  F8 All  Esc Done"@,
{
    text_of("Replace: Enter Replace  F7 Skip  F8 All  Esc Done")
}

/// The status line after replacing `count` matches.
pub fn editor_replace_count_status(count: usize) -> (r: String)
    ensures
        r@ == (if count == 1 {
            "Replaced 1 occurrence"@
        } else {
            "Replaced "@ + crate::text::decimal(count as nat) + " occurrences"@
        }),
{
    if count == 1 {
        return text_of("Replaced 1 occurrence");
    }
    let mut v = crate::text::str_chars("Replaced ");
    let digits = crate::text::nat_to_decimal(count as u64);
    crate::text::extend_with_chars(&mut v, &digits);
    crate::text::extend_with_str(&mut v, " occurrences");
    crate::text::string_from_chars(&v)
}

/// `Replaced N occurrences`, or the singular for one.
pub open spec fn replace_count_text(count: nat) -> Seq<char> {
    if count == 1 {
        "Replaced 1 occurrence"@
    } else {
        "Replaced "@ + crate::text::decimal(count) + " occurrences"@
    }
}

/// What a key does while replacing match by match: go on, or stop with the
/// status to show.
#[derive(Debug, Clone, PartialEq, Eq)]
pub enum ReplaceStep {
    Continue,
    Finished(String),
}

/// The status that stops a replace before it starts: an empty query.
pub fn replace_query_problem(query: &str) -> (r: Option<String>)
    ensures
        r is Some <==> query@.len() == 0,
        r matches Some(s) ==> s@ == "Find text empty"@,
{
    if crate::text::str_chars(query).len() == 0 {
        Some(text_of("Find text empty"))
    } else {
        None
    }
}

impl BasicEditor {
    /// Starts replacing `query` by `replacement`: remembers both for the
    /// prompts and selects the first match in the document; the status to
    /// stop with when there is none.
    pub fn begin_replace(&mut self, query: &str, replacement: &str) -> (r: Option<String>)
        requires
            old(self).wf(),
        ensures
            final(self).wf(),
            final(self).lines == old(self).lines,
            final(self).dirty == old(self).dirty,
            final(self).last_find@ == query@,
            final(self).last_replace@ == replacement@,
            r is None <==> (query@.len() > 0 && exists|m: EditorPosition|
                first_match(old(self).docv(), query@, origin(), m) && final(self).selects_match(m, query@.len())),
            r matches Some(s) ==> s@ == "Not found"@ && (query@.len() == 0 || no_match(old(self).docv(), query@, origin())),
    {
        self.last_find = text_of(query);
        self.last_replace = text_of(replacement);
        if self.find_first(query) {
            None
        } else {
            proof {
                if query@.len() > 0 && exists|m: EditorPosition|
                    first_match(old(self).docv(), query@, origin(), m) && self.selects_match(m, query@.len()) {
                    let m = choose|m: EditorPosition|
                        first_match(old(self).docv(), query@, origin(), m) && self.selects_match(m, query@.len());
                    assert(!crate::editor::no_match(old(self).docv(), query@, origin())) by {
                        assert(crate::editor::match_at(old(self).docv(), m, query@));
                    }
                }
            }
            Some(text_of("Not found"))
        }
    }

    /// One key while replacing: Enter replaces the selected match and selects
    /// the next, F7 skips to the next, F8 replaces every match to the end of
    /// the document, Esc stops; other keys do nothing.
    pub fn replace_key(&mut self, code: KeyInput, query: &str, replacement: &str) -> (r: ReplaceStep)
        requires
            old(self).wf(),
        ensures
            final(self).wf(),
            code == KeyInput::Esc ==> (r matches ReplaceStep::Finished(s) && s@ == "Replace stopped"@) && *final(self) == *old(self),
            !(code == KeyInput::Esc || code == KeyInput::Enter || code == KeyInput::F(7) || code == KeyInput::F(8))
                ==> r == ReplaceStep::Continue && *final(self) == *old(self),
            code == KeyInput::F(7) ==> match r {
                ReplaceStep::Continue => query@.len() > 0 && exists|m: EditorPosition|
                    first_match(old(self).docv(), query@, old(self).search_start(), m)
                        && final(self).selects_match(m, query@.len()),
                ReplaceStep::Finished(s) => s@ == "No more matches"@ && *final(self) == *old(self),
            },
            code == KeyInput::F(8) ==> (r matches ReplaceStep::Finished(s) && exists|n: nat|
                s@ == replace_count_text(n) && #[trigger] final(self).replaced_all(
                    old(self),
                    query@,
                    replacement@,
                    n as int,
                )),
            code == KeyInput::Enter && query@.len() > 0 && old(self).selection() is Some && eq_ic_seq(
                text_between(old(self).docv(), old(self).edit_range().0, old(self).edit_range().1),
                query@,
            ) ==> exists|mid: BasicEditor|
                {
                    &&& #[trigger] mid.edited(
                        old(self),
                        old(self).edit_range().0,
                        old(self).edit_range().1,
                        split_on(replacement@, '\n'),
                    )
                    &&& mid.recorded(old(self))
                    &&& match r {
                        ReplaceStep::Continue => exists|m: EditorPosition|
                            first_match(mid.docv(), query@, mid.search_start(), m) && final(self).selects_match(
                                m,
                                query@.len(),
                            ) && final(self).only_selection_changed(&mid),
                        ReplaceStep::Finished(_) => *final(self) == mid,
                    }
                },
            code == KeyInput::Enter ==> {
                let replaced = query@.len() > 0 && old(self).selection() is Some && eq_ic_seq(
                    text_between(old(self).docv(), old(self).edit_range().0, old(self).edit_range().1),
                    query@,
                );
                match r {
                    ReplaceStep::Continue => query@.len() > 0,
                    ReplaceStep::Finished(s) => if replaced {
                        s@ == "Replaced; no more matches"@
                    } else {
                        s@ == "No more matches"@ && *final(self) == *old(self)
                    },
                }
            },
            code == KeyInput::Enter && !(query@.len() > 0 && old(self).selection() is Some && eq_ic_seq(
                text_between(old(self).docv(), old(self).edit_range().0, old(self).edit_range().1),
                query@,
            )) ==> match r {
                ReplaceStep::Continue => exists|m: EditorPosition|
                    first_match(old(self).docv(), query@, old(self).search_start(), m)
                        && final(self).selects_match(m, query@.len()),
                ReplaceStep::Finished(_) => no_match(old(self).docv(), query@, old(self).search_start()) || query@.len() == 0,
            },
    {
        match code {
            KeyInput::Enter => {
                if self.replace_selected_match(query, replacement) {
                    let ghost mid = *self;
                    if self.find_next_without_wrap(query) {
                        ReplaceStep::Continue
                    } else {
                        ReplaceStep::Finished(text_of("Replaced; no more matches"))
                    }
                } else if self.find_next_without_wrap(query) {
                    ReplaceStep::Continue
                } else {
                    ReplaceStep::Finished(text_of("No more matches"))
                }
            },
            KeyInput::F(n) => {
                if n == 7 {
                    if self.find_next_without_wrap(query) {
                        ReplaceStep::Continue
                    } else {
                        ReplaceStep::Finished(text_of("No more matches"))
                    }
                } else if n == 8 {
                    let count = self.replace_all_from_selection_to_end(query, replacement);
                    let status = editor_replace_count_status(count);
                    assert(status@ == replace_count_text(count as nat));
                    ReplaceStep::Finished(status)
                } else {
                    ReplaceStep::Continue
                }
            },
            KeyInput::Esc => ReplaceStep::Finished(text_of("Replace stopped")),
            _ => ReplaceStep::Continue,
        }
    }
}

impl BasicEditor {
    /// Finds the next match of `query` (F7): remembers the query and
    /// selects the match after the selection or cursor, wrapping once to the
    /// top; the status to show.
    pub fn find_query(&mut self, query: &str) -> (status: String)
        requires
            old(self).wf(),
        ensures
            final(self).wf(),
            query@.len() == 0 ==> status@ == "Find text empty"@ && *final(self) == *old(self),
            query@.len() > 0 ==> {
                &&& final(self).last_find@ == query@
                &&& final(self).lines == old(self).lines
                &&& final(self).dirty == old(self).dirty
                &&& final(self).same_history(old(self))
                &&& if status@ == "Found"@ {
                    exists|m: EditorPosition|
                        first_match(old(self).docv(), query@, old(self).search_start(), m)
                            && final(self).selects_match(m, query@.len())
                } else if status@ == "Found (wrapped)"@ {
                    &&& no_match(old(self).docv(), query@, old(self).search_start())
                    &&& old(self).search_start() != origin()
                    &&& exists|m: EditorPosition|
                        first_match(old(self).docv(), query@, origin(), m) && final(self).selects_match(
                            m,
                            query@.len(),
                        )
                } else {
                    &&& status@ == "Not found"@
                    &&& no_match(old(self).docv(), query@, old(self).search_start())
                    &&& (old(self).search_start() == origin() || no_match(old(self).docv(), query@, origin()))
                    &&& *final(self) == (BasicEditor { last_find: final(self).last_find, ..*old(self) })
                }
            },
    {
        if crate::text::str_chars(query).len() == 0 {
            return text_of("Find text empty");
        }
        self.last_find = text_of(query);
        proof {
            reveal_strlit("Found");
            reveal_strlit("Found (wrapped)");
            reveal_strlit("Not found");
            assert("Found"@.len() == 5);
            assert("Found (wrapped)"@.len() == 15);
            assert("Not found"@.len() == 9);
        }
        let found = self.find_next(query);
        match found {
            Some(crate::editor::EditorFindResult::Found) => text_of("Found"),
            Some(crate::editor::EditorFindResult::Wrapped) => text_of("Found (wrapped)"),
            None => text_of("Not found"),
        }
    }
}

} // verus!
