//! Immediate-mode lines that the console treats by context: `HELP` with a
//! topic is a command only where it cannot be an assignment, a statement
//! list or a comment, so that `HELP` stays an ordinary identifier.
use vstd::prelude::*;
use crate::separators::{strip_markers, trim, trim_chars, ws_run, CURSOR_MARKER};
use crate::text::{eq_ic, is_ws, str_chars, string_from_chars, upper};

verus! {

/// A command recognised from its context.
#[derive(Debug, Clone, Copy, PartialEq, Eq)]
pub enum ContextualImmediateCommand {
    Help,
}

/// The topic after `HELP` keeps it a help request: a lone `'`, or nothing
/// that would make the line an assignment, a statement list or a comment.
pub open spec fn help_topic_ok(topic: Seq<char>) -> bool {
    topic == seq!['\''] || !(topic.contains('=') || topic.contains(':') || topic.contains('\''))
}

/// The line, trimmed, is `HELP` in any case, alone or followed by
/// whitespace and a topic.
pub open spec fn help_immediate(line: Seq<char>) -> bool {
    let command = trim(line);
    &&& command.len() >= 4
    &&& eq_ic(command[0], 'H') && eq_ic(command[1], 'E') && eq_ic(command[2], 'L') && eq_ic(command[3], 'P')
    &&& (command.len() == 4 || (is_ws(command[4]) && help_topic_ok(trim(command.subrange(4, command.len() as int)))))
}

fn chars_contain_char(s: &[char], c: char) -> (r: bool)
    ensures
        r == s@.contains(c),
{
    let mut i: usize = 0;
    while i < s.len()
        invariant
            i <= s@.len(),
            forall|j: int| 0 <= j < i ==> s@[j] != c,
        decreases s@.len() - i,
    {
        if s[i] == c {
            assert(s@[i as int] == c);
            return true;
        }
        i += 1;
    }
    false
}

fn help_immediate_chars(line: &[char]) -> (r: bool)
    ensures
        r == help_immediate(line@),
{
    let command = trim_chars(line);
    if command.len() < 4 {
        return false;
    }
    let eq = crate::text::chars_equal_ignore_ascii_case;
    if !(eq(command[0], 'H') && eq(command[1], 'E') && eq(command[2], 'L') && eq(command[3], 'P')) {
        return false;
    }
    if command.len() == 4 {
        return true;
    }
    if !crate::text::char_is_whitespace(command[4]) {
        return false;
    }
    let rest = crate::text::chars_range(&command, 4, command.len());
    let topic = trim_chars(&rest);
    if topic.len() == 1 && topic[0] == '\'' {
        assert(topic@ =~= seq!['\'']);
        return true;
    }
    assert(topic@ != seq!['\'']) by {
        if topic@ == seq!['\''] {
            assert(topic@.len() == 1 && topic@[0] == '\'');
        }
    }
    !(chars_contain_char(&topic, '=') || chars_contain_char(&topic, ':') || chars_contain_char(&topic, '\''))
}

/// The line asks for help: `HELP`, or `HELP` and a topic.
pub fn is_help_immediate_line(line: &str) -> (r: bool)
    ensures
        r == help_immediate(line@),
{
    help_immediate_chars(&str_chars(line))
}

/// The contextual command that the line is, if any.
pub fn contextual_immediate_command(line: &str) -> (r: Option<ContextualImmediateCommand>)
    ensures
        r == (if help_immediate(line@) {
            Some(ContextualImmediateCommand::Help)
        } else {
            None
        }),
{
    if is_help_immediate_line(line) {
        Some(ContextualImmediateCommand::Help)
    } else {
        None
    }
}

/// The contextual command of a line that may hold the cursor marker.
pub fn contextual_immediate_command_marked(line: &str) -> (r: Option<ContextualImmediateCommand>)
    ensures
        r == (if help_immediate(strip_markers(line@)) {
            Some(ContextualImmediateCommand::Help)
        } else {
            None
        }),
{
    let (unmarked, _) = crate::separators::take_markers(&str_chars(line));
    if help_immediate_chars(&unmarked) {
        Some(ContextualImmediateCommand::Help)
    } else {
        None
    }
}

/// The number of characters other than the cursor marker in `s[from..i]`.
pub open spec fn unmarked_count(s: Seq<char>, from: int, i: int) -> nat
    decreases i - from,
{
    if i <= from {
        0
    } else {
        unmarked_count(s, from, i - 1) + (if s[i - 1] != CURSOR_MARKER {
            1nat
        } else {
            0nat
        })
    }
}

/// `line` with the first four characters of its command upper-cased: the
/// leading whitespace and the cursor marker stay as they are.
pub open spec fn help_uppercased(line: Seq<char>) -> Seq<char> {
    let start = ws_run(line, 0) as int;
    Seq::new(
        line.len(),
        |i: int|
            if i < start || line[i] == CURSOR_MARKER || unmarked_count(line, start, i) >= 4 {
                line[i]
            } else {
                upper(line[i])
            },
    )
}

/// Upper-cases the `HELP` that starts `line`.
pub fn uppercase_leading_help(line: &mut String)
    ensures
        final(line)@ == help_uppercased(old(line)@),
{
    let chars = str_chars(line.as_str());
    let ghost s = chars@;
    let ghost start = ws_run(s, 0) as int;
    proof {
        lemma_ws_run_bound(s, 0);
    }
    let mut out: Vec<char> = Vec::new();
    let mut command_chars: usize = 0;
    let mut started = false;
    let mut i: usize = 0;
    while i < chars.len()
        invariant
            s == chars@,
            start == ws_run(s, 0) as int,
            0 <= start <= s.len(),
            i <= s.len(),
            out@.len() == i,
            forall|j: int| 0 <= j < i ==> out@[j] == #[trigger] help_uppercased(s)[j],
            started <==> i > start,
            !started ==> forall|j: int| 0 <= j < i ==> is_ws(#[trigger] s[j]),
            !started ==> command_chars == 0,
            started ==> command_chars == (if unmarked_count(s, start, i as int) < 4 {
                unmarked_count(s, start, i as int)
            } else {
                4
            }),
        decreases s.len() - i,
    {
        let ch = chars[i];
        proof {
            if !started {
                lemma_ws_run_prefix(s, i as int);
            }
            if i >= start {
                assert(unmarked_count(s, start, i + 1) == unmarked_count(s, start, i as int) + (if s[i as int]
                    != CURSOR_MARKER {
                    1nat
                } else {
                    0nat
                }));
            }
            if i == start {
                assert(unmarked_count(s, start, i as int) == 0);
            }
        }
        if !started && crate::text::char_is_whitespace(ch) {
            out.push(ch);
        } else {
            started = true;
            if ch == CURSOR_MARKER {
                out.push(ch);
            } else if command_chars < 4 {
                command_chars += 1;
                out.push(crate::text::char_upper(ch));
            } else {
                out.push(ch);
            }
        }
        i += 1;
    }
    assert(out@ =~= help_uppercased(s));
    *line = string_from_chars(&out);
}

proof fn lemma_ws_run_bound(s: Seq<char>, from: int)
    requires
        0 <= from <= s.len(),
    ensures
        from + ws_run(s, from) <= s.len(),
    decreases s.len() - from,
{
    if from < s.len() && is_ws(s[from]) {
        lemma_ws_run_bound(s, from + 1);
    }
}

/// When the first `i` characters are whitespace, the leading whitespace run
/// reaches past `i` exactly when character `i` is whitespace too.
proof fn lemma_ws_run_prefix(s: Seq<char>, i: int)
    requires
        0 <= i < s.len(),
        forall|j: int| 0 <= j < i ==> is_ws(#[trigger] s[j]),
    ensures
        is_ws(s[i]) ==> ws_run(s, 0) > i,
        !is_ws(s[i]) ==> ws_run(s, 0) == i,
    decreases i,
{
    lemma_ws_run_from(s, 0, i);
}

proof fn lemma_ws_run_from(s: Seq<char>, from: int, i: int)
    requires
        0 <= from <= i < s.len(),
        forall|j: int| from <= j < i ==> is_ws(#[trigger] s[j]),
    ensures
        is_ws(s[i]) ==> ws_run(s, from) > i - from,
        !is_ws(s[i]) ==> ws_run(s, from) == i - from,
    decreases i - from,
{
    if from < i {
        lemma_ws_run_from(s, from + 1, i);
    }
}

} // verus!
