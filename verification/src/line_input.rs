//! The one-line input buffer of the console: typed characters, closing
//! quotes, key filtering and the history of entered lines.
use vstd::prelude::*;
use crate::text::{is_alnum, is_control, char_is_alnum, char_is_control};

verus! {

/// The number of `"` in `s`.
pub open spec fn quote_count(s: Seq<char>) -> nat
    decreases s.len(),
{
    if s.len() == 0 {
        0
    } else {
        quote_count(s.drop_last()) + (if s.last() == '"' {
            1nat
        } else {
            0nat
        })
    }
}

fn count_quotes(s: &[char], end: usize) -> (r: usize)
    requires
        end <= s@.len(),
    ensures
        r == quote_count(s@.subrange(0, end as int)),
{
    let mut n: usize = 0;
    let mut i: usize = 0;
    assert(s@.subrange(0, 0) =~= Seq::<char>::empty());
    while i < end
        invariant
            0 <= i <= end <= s@.len(),
            n == quote_count(s@.subrange(0, i as int)),
            n <= i,
        decreases end - i,
    {
        assert(s@.subrange(0, i + 1).drop_last() =~= s@.subrange(0, i as int));
        if s[i] == '"' {
            n += 1;
        }
        i += 1;
    }
    n
}

/// The cursor stands at the end of a line whose last string is unclosed:
/// a closing quote is shown there without being in the buffer.
pub open spec fn on_virtual_closing_quote(line: Seq<char>, cursor: int) -> bool {
    cursor == line.len() && quote_count(line) % 2 == 1
}

/// The `"` under the cursor closes a string.
pub open spec fn closing_quote_at(line: Seq<char>, cursor: int) -> bool {
    &&& 0 <= cursor < line.len()
    &&& line[cursor] == '"'
    &&& quote_count(line.subrange(0, cursor)) % 2 == 1
}

pub fn cursor_on_virtual_closing_quote(line: &[char], cursor: usize) -> (r: bool)
    ensures
        r == on_virtual_closing_quote(line@, cursor as int),
{
    if cursor != line.len() {
        return false;
    }
    let n = count_quotes(line, line.len());
    assert(line@.subrange(0, line@.len() as int) =~= line@);
    n % 2 == 1
}

pub fn quote_at_cursor_is_closing(line: &[char], cursor: usize) -> (r: bool)
    ensures
        r == closing_quote_at(line@, cursor as int),
{
    if cursor >= line.len() || line[cursor] != '"' {
        return false;
    }
    count_quotes(line, cursor) % 2 == 1
}

/// Types `ch` at the cursor; typing `"` over a closing quote only moves past it.
pub fn insert_editing_buffer_char(buffer: &mut Vec<char>, cursor: &mut usize, ch: char)
    requires
        *old(cursor) <= old(buffer)@.len(),
        old(buffer)@.len() < usize::MAX,
    ensures
        if ch == '"' && closing_quote_at(old(buffer)@, *old(cursor) as int) {
            final(buffer)@ == old(buffer)@
        } else {
            final(buffer)@ == old(buffer)@.insert(*old(cursor) as int, ch)
        },
        *final(cursor) == *old(cursor) + 1,
{
    if ch == '"' && quote_at_cursor_is_closing(buffer, *cursor) {
        *cursor += 1;
        return;
    }
    buffer.insert(*cursor, ch);
    *cursor += 1;
}

/// Puts the shown closing quote into the buffer; `false` when none is shown.
pub fn accept_editing_buffer_virtual_quote(buffer: &mut Vec<char>, cursor: &mut usize) -> (r: bool)
    requires
        old(buffer)@.len() < usize::MAX,
    ensures
        r == on_virtual_closing_quote(old(buffer)@, *old(cursor) as int),
        r ==> final(buffer)@ == old(buffer)@.push('"') && *final(cursor) == *old(cursor) + 1,
        !r ==> final(buffer)@ == old(buffer)@ && *final(cursor) == *old(cursor),
{
    if !cursor_on_virtual_closing_quote(buffer, *cursor) {
        return false;
    }
    buffer.insert(*cursor, '"');
    *cursor += 1;
    true
}

/// The entered line, with the shown closing quote made real.
pub fn finish_editing_buffer(buffer: &mut Vec<char>, cursor: &mut usize) -> (r: String)
    requires
        old(buffer)@.len() < usize::MAX,
    ensures
        on_virtual_closing_quote(old(buffer)@, *old(cursor) as int) ==> final(buffer)@ == old(
            buffer,
        )@.push('"') && *final(cursor) == *old(cursor) + 1,
        !on_virtual_closing_quote(old(buffer)@, *old(cursor) as int) ==> final(buffer)@ == old(
            buffer,
        )@ && *final(cursor) == *old(cursor),
        r@ == final(buffer)@,
{
    accept_editing_buffer_virtual_quote(buffer, cursor);
    crate::text::string_from_chars(buffer)
}

/// A key press as the console sees it.
#[derive(Debug, Clone, Copy, PartialEq, Eq, Structural)]
pub enum KeyInput {
    Char(char),
    F(u8),
    Esc,
    Enter,
    Tab,
    BackTab,
    Backspace,
    Delete,
    Left,
    Right,
    Up,
    Down,
    Home,
    End,
    PageUp,
    PageDown,
    Insert,
    Other,
}

/// The modifier keys held with a key press.
#[derive(Debug, Clone, Copy, PartialEq, Eq, Structural)]
pub struct KeyModifierState {
    pub shift: bool,
    pub control: bool,
    pub alt: bool,
}

/// Ctrl+C, whatever the case of the letter.
pub fn is_ctrl_c_key(ch: char, modifiers: KeyModifierState) -> (r: bool)
    ensures
        r == ((ch == 'c' || ch == 'C') && modifiers.control),
{
    (ch == 'c' || ch == 'C') && modifiers.control
}

/// Whether a character key types text: not a control character, and either
/// without Ctrl, or with Ctrl+Alt (AltGr) on a character other than an
/// ASCII letter or digit.
pub fn should_insert_key_char(ch: char, modifiers: KeyModifierState) -> (r: bool)
    ensures
        r == (!is_control(ch) && (!modifiers.control || (modifiers.alt && !is_alnum(ch)))),
{
    if char_is_control(ch) {
        return false;
    }
    if !modifiers.control {
        return true;
    }
    modifiers.alt && !char_is_alnum(ch)
}

/// Walking through the history of entered lines, keeping the line being
/// typed to come back to.
pub struct HistoryNavigation {
    pub index: Option<usize>,
    pub draft: Vec<char>,
}

impl HistoryNavigation {
    pub fn new() -> (r: HistoryNavigation)
        ensures
            r.index is None,
            r.draft@.len() == 0,
    {
        HistoryNavigation { index: None, draft: Vec::new() }
    }

    /// The previous entry (from the newest on, stopping at the oldest),
    /// remembering `buffer` when the walk starts.
    pub fn previous(&mut self, entries: &[String], buffer: &[char]) -> (r: Option<Vec<char>>)
        requires
            old(self).index matches Some(i) ==> i <= entries@.len(),
        ensures
            r is None ==> *final(self) == *old(self),
            entries@.len() == 0 ==> r is None && final(self).index == old(self).index
                && final(self).draft@ == old(self).draft@,
            entries@.len() > 0 ==> {
                let k: int = match old(self).index {
                    Some(i) => if i > 0 {
                        i - 1
                    } else {
                        0
                    },
                    None => entries@.len() - 1,
                };
                &&& final(self).index == Some(k as usize)
                &&& r matches Some(v) && v@ == entries@[k]@
                &&& final(self).draft@ == (if old(self).index is None {
                    buffer@
                } else {
                    old(self).draft@
                })
            },
    {
        if entries.len() == 0 {
            return None;
        }
        let next_index = match self.index {
            Some(index) => if index > 0 {
                index - 1
            } else {
                0
            },
            None => {
                self.draft = crate::text::chars_range(buffer, 0, buffer.len());
                assert(self.draft@ =~= buffer@);
                entries.len() - 1
            },
        };
        self.index = Some(next_index);
        Some(crate::text::str_chars(entries[next_index].as_str()))
    }

    /// The next (newer) entry, or the remembered line after the newest.
    pub fn next(&mut self, entries: &[String]) -> (r: Option<Vec<char>>)
        ensures
            r is None ==> *final(self) == *old(self),
            old(self).index is None ==> r is None && final(self).index is None && final(self).draft@
                == old(self).draft@,
            old(self).index matches Some(i) ==> if i + 1 < entries@.len() {
                &&& final(self).index == Some((i + 1) as usize)
                &&& r matches Some(v) && v@ == entries@[i + 1]@
                &&& final(self).draft@ == old(self).draft@
            } else {
                &&& final(self).index is None
                &&& r matches Some(v) && v@ == old(self).draft@
                &&& final(self).draft@ == old(self).draft@
            },
    {
        let index = match self.index {
            Some(i) => i,
            None => return None,
        };
        if index < entries.len() && index + 1 < entries.len() {
            let next_index = index + 1;
            self.index = Some(next_index);
            Some(crate::text::str_chars(entries[next_index].as_str()))
        } else {
            self.index = None;
            let d = crate::text::chars_range(&self.draft, 0, self.draft.len());
            assert(d@ =~= self.draft@);
            Some(d)
        }
    }

    /// Forgets the walk and the remembered line.
    pub fn reset(&mut self)
        ensures
            final(self).index is None,
            final(self).draft@.len() == 0,
    {
        self.index = None;
        self.draft.clear();
    }
}

/// The lines of a history as character sequences.
pub open spec fn history_view(entries: Seq<String>) -> Seq<Seq<char>> {
    entries.map_values(|e: String| e@)
}

/// The lines entered at the prompt, oldest first.
pub struct InputHistory {
    pub entries: Vec<String>,
}

fn copy_string(s: &String) -> (r: String)
    ensures
        r@ == s@,
{
    crate::text::string_from_chars(&crate::text::str_chars(s.as_str()))
}

impl InputHistory {
    pub fn new() -> (r: InputHistory)
        ensures
            r.entries@.len() == 0,
    {
        InputHistory { entries: Vec::new() }
    }

    /// Adds an entered line, unless it is blank or repeats the newest entry.
    pub fn remember(&mut self, line: &str)
        ensures
            history_view(final(self).entries@) == (if crate::separators::trim(line@).len() == 0 || (old(
                self,
            ).entries@.len() > 0 && old(self).entries@.last()@ == line@) {
                history_view(old(self).entries@)
            } else {
                history_view(old(self).entries@).push(line@)
            }),
    {
        let chars = crate::text::str_chars(line);
        let trimmed = crate::separators::trim_chars(&chars);
        if trimmed.len() == 0 {
            return;
        }
        let n = self.entries.len();
        if n > 0 {
            let last = crate::text::str_chars(self.entries[n - 1].as_str());
            if crate::text::chars_eq(&last, &chars) {
                return;
            }
        }
        let ghost before = self.entries@;
        self.entries.push(crate::text::string_from_chars(&chars));
        assert(history_view(self.entries@) =~= history_view(before).push(line@));
    }

    /// A copy of the entries.
    pub fn snapshot(&self) -> (r: Vec<String>)
        ensures
            history_view(r@) == history_view(self.entries@),
    {
        let mut r: Vec<String> = Vec::new();
        let mut i: usize = 0;
        while i < self.entries.len()
            invariant
                i <= self.entries@.len(),
                history_view(r@) == history_view(self.entries@.subrange(0, i as int)),
            decreases self.entries@.len() - i,
        {
            let ghost prev = r@;
            let copy = copy_string(&self.entries[i]);
            r.push(copy);
            proof {
                let sub = self.entries@.subrange(0, i as int);
                let next = self.entries@.subrange(0, i + 1);
                assert(next =~= sub.push(self.entries@[i as int]));
                assert(history_view(r@) =~= history_view(prev).push(copy@));
                assert(history_view(next) =~= history_view(sub).push(self.entries@[i as int]@));
            }
            i += 1;
        }
        assert(self.entries@.subrange(0, i as int) =~= self.entries@);
        r
    }
}

} // verus!
