//! The immediate-mode line input as a state machine: what each key does to
//! the line being typed, its cursor and the walk through the history. The
//! terminal loop around it reads the keys, redraws the line and remembers
//! entered lines.
use vstd::prelude::*;
use crate::line_input::{
    closing_quote_at, on_virtual_closing_quote, HistoryNavigation, KeyInput, KeyModifierState,
};
use crate::separators::{format_editing, marked, marker_pos, strip_markers};
use crate::text::{is_alnum, is_control};

verus! {

/// The line being typed, its cursor, the text it started from and the walk
/// through the history.
pub struct LineInput {
    pub buffer: Vec<char>,
    pub cursor: usize,
    pub prefill: Vec<char>,
    pub history: HistoryNavigation,
}

/// What a key ends with.
#[derive(Debug, Clone, PartialEq, Eq)]
pub enum LineInputStep {
    /// Keep reading keys.
    Continue,
    /// Enter: the entered line.
    Submit(String),
    /// Esc on a prefilled line: the prefill, unchanged.
    Cancel(String),
    /// Ctrl+C.
    Interrupted,
}

/// The line and cursor after typing `ch`: over a closing quote the cursor
/// just steps past it.
pub open spec fn typed(b: Seq<char>, c: int, ch: char) -> (Seq<char>, int) {
    if ch == '"' && closing_quote_at(b, c) {
        (b, c + 1)
    } else {
        (b.insert(c, ch), c + 1)
    }
}

/// The line and cursor once the separators are laid out again around the
/// cursor.
pub open spec fn laid_out(b: Seq<char>, c: int) -> (Seq<char>, int) {
    let f = format_editing(marked(b, c));
    if f == marked(b, c) || marker_pos(f) is None {
        (b, c)
    } else {
        let nb = strip_markers(f);
        let m = marker_pos(f)->0;
        (nb, if m < nb.len() { m } else { nb.len() as int })
    }
}

/// The entered line: the shown closing quote becomes real.
pub open spec fn finished(b: Seq<char>, c: int) -> Seq<char> {
    if on_virtual_closing_quote(b, c) {
        b.push('"')
    } else {
        b
    }
}

/// The history entry that Up shows, walking back from `index`.
pub open spec fn previous_index(index: Option<usize>, len: int) -> int {
    match index {
        Some(i) => if i > 0 { i - 1 } else { 0 },
        None => len - 1,
    }
}

fn copy_chars(v: &Vec<char>) -> (r: Vec<char>)
    ensures
        r@ == v@,
{
    crate::text::chars_range(v, 0, v.len())
}

impl LineInput {
    pub open spec fn wf(&self) -> bool {
        self.cursor <= self.buffer@.len()
    }

    /// A line that starts as `prefill`, with the cursor at its end.
    pub fn new(prefill: &str) -> (r: LineInput)
        ensures
            r.wf(),
            r.buffer@ == prefill@,
            r.prefill@ == prefill@,
            r.cursor == prefill@.len(),
            r.history.index is None,
    {
        let buffer = crate::text::str_chars(prefill);
        let prefill = copy_chars(&buffer);
        let cursor = buffer.len();
        LineInput { buffer, cursor, prefill, history: HistoryNavigation::new() }
    }

    /// The history walk is used only for a line without prefill.
    pub open spec fn uses_history(&self) -> bool {
        self.prefill@.len() == 0
    }
}

fn lay_out(input: &mut LineInput)
    requires
        old(input).wf(),
    ensures
        final(input).wf(),
        (final(input).buffer@, final(input).cursor as int) == laid_out(old(input).buffer@, old(input).cursor as int),
        final(input).prefill == old(input).prefill,
        final(input).history == old(input).history,
{
    crate::separators::format_editing_separators_with_cursor(&mut input.buffer, &mut input.cursor);
}

/// What one key does to the line being typed. Enter submits the line, with
/// a shown closing quote made real; Esc clears the line, or gives back the
/// prefill unchanged; Ctrl+C interrupts. Typed characters go in at the
/// cursor and the separators are laid out again; Backspace and Delete
/// remove one character; Left, Right, Home and End move; Right over a shown
/// closing quote makes it real. Up and Down walk through `history` when the
/// line started empty. Every edit ends the history walk.
pub fn line_input_key(input: &mut LineInput, code: KeyInput, modifiers: KeyModifierState, history: &[String]) -> (r:
    LineInputStep)
    requires
        old(input).wf(),
        old(input).buffer@.len() + 1 < usize::MAX,
        old(input).history.index matches Some(i) ==> i <= history@.len(),
    ensures
        final(input).wf(),
        final(input).prefill == old(input).prefill,
        ({
            let b = old(input).buffer@;
            let c = old(input).cursor as int;
            let fb = final(input).buffer@;
            let fc = final(input).cursor as int;
            let walk = old(input).uses_history();
            &&& code == KeyInput::Enter ==> (r matches LineInputStep::Submit(s) && s@ == finished(b, c))
            &&& code == KeyInput::Esc ==> if walk {
                r == LineInputStep::Continue && fb.len() == 0 && fc == 0 && final(input).history.index is None
            } else {
                r matches LineInputStep::Cancel(s) && s@ == old(input).prefill@ && fb == old(input).prefill@ && fc
                    == old(input).prefill@.len()
            }
            &&& code matches KeyInput::Char(ch) ==> if (ch == 'c' || ch == 'C') && modifiers.control {
                r == LineInputStep::Interrupted
            } else if !is_control(ch) && (!modifiers.control || (modifiers.alt && !is_alnum(ch))) {
                let t = typed(b, c, ch);
                r == LineInputStep::Continue && (fb, fc) == laid_out(t.0, t.1) && final(input).history.index is None
            } else {
                r == LineInputStep::Continue && *final(input) == *old(input)
            }
            &&& code == KeyInput::Backspace ==> r == LineInputStep::Continue && if c > 0 {
                fb == b.remove(c - 1) && fc == c - 1 && final(input).history.index is None
            } else {
                *final(input) == *old(input)
            }
            &&& code == KeyInput::Delete ==> r == LineInputStep::Continue && if c < b.len() {
                fb == b.remove(c) && fc == c && final(input).history.index is None
            } else {
                *final(input) == *old(input)
            }
            &&& code == KeyInput::Left ==> r == LineInputStep::Continue && fb == b && fc == (if c > 0 {
                c - 1
            } else {
                0
            }) && final(input).history == old(input).history
            &&& code == KeyInput::Right ==> r == LineInputStep::Continue && if on_virtual_closing_quote(b, c) {
                (fb, fc) == laid_out(b.push('"'), c + 1) && final(input).history.index is None
            } else {
                fb == b && fc == (if c + 1 < b.len() {
                    c + 1
                } else {
                    b.len() as int
                }) && final(input).history == old(input).history
            }
            &&& code == KeyInput::Home ==> r == LineInputStep::Continue && fb == b && fc == 0
            &&& code == KeyInput::End ==> r == LineInputStep::Continue && fb == b && fc == b.len()
            &&& code == KeyInput::Up ==> r == LineInputStep::Continue && if walk && history@.len() > 0 {
                let k = previous_index(old(input).history.index, history@.len() as int);
                &&& fb == history@[k]@
                &&& fc == fb.len()
                &&& final(input).history.index == Some(k as usize)
                &&& final(input).history.draft@ == (if old(input).history.index is None {
                    b
                } else {
                    old(input).history.draft@
                })
            } else {
                *final(input) == *old(input)
            }
            &&& code == KeyInput::Down ==> r == LineInputStep::Continue && if walk && old(input).history.index is Some {
                let i = old(input).history.index->0;
                &&& fb == (if i + 1 < history@.len() {
                    history@[i + 1]@
                } else {
                    old(input).history.draft@
                })
                &&& fc == fb.len()
                &&& final(input).history.index == (if i + 1 < history@.len() {
                    Some((i + 1) as usize)
                } else {
                    None
                })
            } else {
                *final(input) == *old(input)
            }
            &&& !(code == KeyInput::Enter || code == KeyInput::Esc || code is Char || code == KeyInput::Backspace
                || code == KeyInput::Delete || code == KeyInput::Left || code == KeyInput::Right || code
                == KeyInput::Home || code == KeyInput::End || code == KeyInput::Up || code == KeyInput::Down)
                ==> r == LineInputStep::Continue && *final(input) == *old(input)
        }),
{
    let walk = input.prefill.len() == 0;
    match code {
        KeyInput::Enter => {
            let line = crate::line_input::finish_editing_buffer(&mut input.buffer, &mut input.cursor);
            LineInputStep::Submit(line)
        },
        KeyInput::Esc => {
            if walk {
                input.buffer.clear();
                input.cursor = 0;
                input.history.reset();
                LineInputStep::Continue
            } else {
                input.buffer = copy_chars(&input.prefill);
                input.cursor = input.buffer.len();
                LineInputStep::Cancel(crate::text::string_from_chars(&input.prefill))
            }
        },
        KeyInput::Char(ch) => {
            if crate::line_input::is_ctrl_c_key(ch, modifiers) {
                LineInputStep::Interrupted
            } else if crate::line_input::should_insert_key_char(ch, modifiers) {
                crate::line_input::insert_editing_buffer_char(&mut input.buffer, &mut input.cursor, ch);
                lay_out(input);
                input.history.reset();
                LineInputStep::Continue
            } else {
                LineInputStep::Continue
            }
        },
        KeyInput::Backspace => {
            if input.cursor > 0 {
                input.cursor -= 1;
                input.buffer.remove(input.cursor);
                input.history.reset();
            }
            LineInputStep::Continue
        },
        KeyInput::Delete => {
            if input.cursor < input.buffer.len() {
                input.buffer.remove(input.cursor);
                input.history.reset();
            }
            LineInputStep::Continue
        },
        KeyInput::Left => {
            if input.cursor > 0 {
                input.cursor -= 1;
            }
            LineInputStep::Continue
        },
        KeyInput::Right => {
            if crate::line_input::accept_editing_buffer_virtual_quote(&mut input.buffer, &mut input.cursor) {
                lay_out(input);
                input.history.reset();
            } else if input.cursor < input.buffer.len() {
                input.cursor += 1;
            }
            LineInputStep::Continue
        },
        KeyInput::Home => {
            input.cursor = 0;
            LineInputStep::Continue
        },
        KeyInput::End => {
            input.cursor = input.buffer.len();
            LineInputStep::Continue
        },
        KeyInput::Up => {
            if walk {
                match input.history.previous(history, &input.buffer) {
                    Some(next) => {
                        input.buffer = next;
                        input.cursor = input.buffer.len();
                    },
                    None => {},
                }
            }
            LineInputStep::Continue
        },
        KeyInput::Down => {
            if walk {
                match input.history.next(history) {
                    Some(next) => {
                        input.buffer = next;
                        input.cursor = input.buffer.len();
                    },
                    None => {},
                }
            }
            LineInputStep::Continue
        },
        _ => LineInputStep::Continue,
    }
}

} // verus!
