//! The `.bas` completion of file commands: `LOAD "demo"` loads `demo.bas`
//! when the name has no extension of its own.
use vstd::prelude::*;
use crate::separators::{strip_markers, ws_run, CURSOR_MARKER};
use crate::text::{is_ws, repeat_char, str_chars, string_from_chars};

verus! {

/// Whether `std::path::Path::extension` finds an extension in `path`.
pub uninterp spec fn path_has_extension(path: Seq<char>) -> bool;

/// `Path::new(path).extension().is_some()`: the file name of the path has
/// an extension. Which file name and extension the path has is left to the
/// standard library's path rules and is not stated here.
#[verifier::external_body]
fn has_extension(path: &str) -> (r: bool)
    ensures
        r == path_has_extension(path@),
{
    std::path::Path::new(path).extension().is_some()
}

/// The file commands that take a program name, longest first.
pub open spec fn file_command(k: int) -> Seq<char> {
    if k == 0 {
        "CHAIN MERGE"@
    } else if k == 1 {
        "CHAIN"@
    } else if k == 2 {
        "MERGE"@
    } else if k == 3 {
        "LOAD"@
    } else if k == 4 {
        "SAVE"@
    } else {
        "RUN"@
    }
}

/// The end of the run of cursor markers and whitespace that starts at `i`.
pub open spec fn gap_end(s: Seq<char>, i: int) -> int
    decreases s.len() - i,
{
    if 0 <= i < s.len() && (s[i] == CURSOR_MARKER || is_ws(s[i])) {
        gap_end(s, i + 1)
    } else {
        i
    }
}

/// The number of cursor markers in `s[a..b]`.
pub open spec fn marker_count(s: Seq<char>, a: int, b: int) -> nat
    decreases b - a,
{
    if b <= a {
        0
    } else {
        marker_count(s, a, b - 1) + (if s[b - 1] == CURSOR_MARKER {
            1nat
        } else {
            0nat
        })
    }
}

/// The first `"` at or after `from`.
pub open spec fn quote_from(s: Seq<char>, from: int) -> Option<int>
    decreases s.len() - from,
{
    if from < 0 || from >= s.len() {
        None
    } else if s[from] == '"' {
        Some(from)
    } else {
        quote_from(s, from + 1)
    }
}

/// What file command `k` makes of `code`, when `code` starts with it and a
/// quoted name follows: the line unchanged when the name has an extension,
/// else the line with `.bas` after the name, one space after the command
/// and the cursor markers of the gap kept before the quote.
pub open spec fn completion_with(code: Seq<char>, k: int) -> Option<Seq<char>> {
    let lead = ws_run(code, 0) as int;
    let command = file_command(k);
    let after = lead + command.len();
    if !(after <= code.len() && code.subrange(lead, after) == command) {
        None
    } else {
        let quote = gap_end(code, after);
        if !(quote < code.len() && code[quote] == '"') {
            None
        } else {
            match quote_from(code, quote + 1) {
                None => None,
                Some(end) => {
                    let path = code.subrange(quote + 1, end);
                    if path_has_extension(strip_markers(path)) {
                        Some(code)
                    } else {
                        Some(
                            code.subrange(0, lead) + command + seq![' '] + repeat_char(
                                CURSOR_MARKER,
                                marker_count(code, after, quote),
                            ) + seq!['"'] + path + ".bas\""@ + code.subrange(end + 1, code.len() as int),
                        )
                    }
                },
            }
        }
    }
}

/// `code` after the first file command, from the `k`th on, that applies.
pub open spec fn completed_from(code: Seq<char>, k: int) -> Seq<char>
    decreases 6 - k,
{
    if k >= 6 || k < 0 {
        code
    } else {
        match completion_with(code, k) {
            Some(r) => r,
            None => completed_from(code, k + 1),
        }
    }
}

fn command_text(k: usize) -> (r: &'static str)
    requires
        k < 6,
    ensures
        r@ == file_command(k as int),
{
    if k == 0 {
        "CHAIN MERGE"
    } else if k == 1 {
        "CHAIN"
    } else if k == 2 {
        "MERGE"
    } else if k == 3 {
        "LOAD"
    } else if k == 4 {
        "SAVE"
    } else {
        "RUN"
    }
}

fn skip_gap(s: &[char], from: usize) -> (r: (usize, usize))
    requires
        from <= s@.len(),
    ensures
        r.0 == gap_end(s@, from as int),
        from <= r.0 <= s@.len(),
        r.1 == marker_count(s@, from as int, r.0 as int),
{
    let mut i = from;
    let mut markers: usize = 0;
    while i < s.len() && (s[i] == CURSOR_MARKER || crate::text::char_is_whitespace(s[i]))
        invariant
            from <= i <= s@.len(),
            gap_end(s@, from as int) == gap_end(s@, i as int),
            markers == marker_count(s@, from as int, i as int),
            markers <= i - from,
        decreases s@.len() - i,
    {
        if s[i] == CURSOR_MARKER {
            markers += 1;
        }
        i += 1;
    }
    (i, markers)
}

fn find_quote(s: &[char], from: usize) -> (r: Option<usize>)
    requires
        from <= s@.len(),
    ensures
        match r {
            Some(i) => quote_from(s@, from as int) == Some(i as int) && from <= i < s@.len(),
            None => quote_from(s@, from as int) is None,
        },
{
    let mut i = from;
    while i < s.len()
        invariant
            from <= i <= s@.len(),
            quote_from(s@, from as int) == quote_from(s@, i as int),
        decreases s@.len() - i,
    {
        if s[i] == '"' {
            return Some(i);
        }
        i += 1;
    }
    None
}

fn completion_chars(code: &Vec<char>, lead: usize, k: usize) -> (r: Option<Vec<char>>)
    requires
        k < 6,
        lead == ws_run(code@, 0),
        lead <= code@.len(),
    ensures
        match (r, completion_with(code@, k as int)) {
            (Some(v), Some(w)) => v@ == w,
            (None, None) => true,
            _ => false,
        },
{
    let command = str_chars(command_text(k));
    if command.len() > code.len() - lead {
        return None;
    }
    let after = lead + command.len();
    let mut j: usize = 0;
    while j < command.len()
        invariant
            j <= command@.len(),
            k < 6,
            lead == ws_run(code@, 0),
            command@ == file_command(k as int),
            after == lead + command@.len(),
            lead + command@.len() <= code@.len(),
            forall|m: int| 0 <= m < j ==> code@[lead + m] == command@[m],
        decreases command@.len() - j,
    {
        if code[lead + j] != command[j] {
            assert(code@.subrange(lead as int, after as int)[j as int] != command@[j as int]);
            assert(code@.subrange(lead as int, after as int) != command@);
            assert(command@ == file_command(k as int));
            return None;
        }
        j += 1;
    }
    assert(code@.subrange(lead as int, after as int) =~= command@);
    let (quote, markers) = skip_gap(code, after);
    if !(quote < code.len() && code[quote] == '"') {
        return None;
    }
    let end = match find_quote(code, quote + 1) {
        Some(e) => e,
        None => return None,
    };
    let path = crate::text::chars_range(code, quote + 1, end);
    let (bare, _) = crate::separators::take_markers(&path);
    let bare_text = string_from_chars(&bare);
    if has_extension(bare_text.as_str()) {
        return Some(code.clone());
    }
    let mut out = crate::text::chars_range(code, 0, lead);
    crate::text::extend_with_chars(&mut out, &command);
    out.push(' ');
    crate::text::push_repeated(&mut out, CURSOR_MARKER, markers);
    out.push('"');
    crate::text::extend_with_chars(&mut out, &path);
    crate::text::extend_with_str(&mut out, ".bas\"");
    crate::text::extend_with_range(&mut out, code, end + 1, code.len());
    Some(out)
}

/// Adds `.bas` to the program name of a leading `CHAIN MERGE`, `CHAIN`,
/// `MERGE`, `LOAD`, `SAVE` or `RUN` whose quoted name has no extension.
pub fn add_bas_extension_to_leading_file_command(code: &str) -> (r: String)
    ensures
        r@ == completed_from(code@, 0),
{
    let chars = str_chars(code);
    let lead = crate::separators::leading_ws_len(&chars, 0);
    let mut k: usize = 0;
    while k < 6
        invariant
            k <= 6,
            chars@ == code@,
            lead == ws_run(code@, 0),
            lead <= code@.len(),
            completed_from(code@, 0) == completed_from(code@, k as int),
        decreases 6 - k,
    {
        match completion_chars(&chars, lead, k) {
            Some(v) => {
                return string_from_chars(&v);
            },
            None => {},
        }
        k += 1;
    }
    string_from_chars(&chars)
}

/// The line `cmd "name"` as typed.
pub open spec fn quoted_command(cmd: Seq<char>, name: Seq<char>) -> Seq<char> {
    cmd + seq![' ', '"'] + name + seq!['"']
}

proof fn lemma_quote_found(s: Seq<char>, from: int, at: int)
    requires
        0 <= from <= at < s.len(),
        s[at] == '"',
        forall|k: int| from <= k < at ==> s[k] != '"',
    ensures
        quote_from(s, from) == Some(at),
    decreases at - from,
{
    if from < at {
        lemma_quote_found(s, from + 1, at);
    }
}

proof fn lemma_command_absent(code: Seq<char>, j: int, at: int)
    requires
        0 <= j < 6,
        0 <= at < file_command(j).len(),
        code.len() > 0,
        !is_ws(code[0]),
        at >= code.len() || code[at] != file_command(j)[at],
    ensures
        completion_with(code, j) is None,
{
    assert(ws_run(code, 0) == 0);
    let after = file_command(j).len() as int;
    if after <= code.len() {
        assert(code.subrange(0, after)[at] == code[at]);
    }
}

proof fn lemma_command_completes(cmd: Seq<char>, name: Seq<char>, k: int)
    requires
        0 <= k < 6,
        file_command(k) == cmd,
        cmd.len() > 0,
        !is_ws(cmd[0]),
        !name.contains('"'),
        !path_has_extension(strip_markers(name)),
    ensures
        completion_with(quoted_command(cmd, name), k) == Some(cmd + seq![' ', '"'] + name + ".bas\""@),
{
    let code = quoted_command(cmd, name);
    let c = cmd.len() as int;
    assert(code[0] == cmd[0]);
    assert(ws_run(code, 0) == 0);
    assert(code.subrange(0, c) =~= cmd);
    assert(code[c] == ' ');
    assert(code[c + 1] == '"');
    assert(!is_ws('"'));
    assert(gap_end(code, c + 1) == c + 1);
    assert(gap_end(code, c) == c + 1);
    let end = c + 2 + name.len();
    assert(code[end] == '"');
    assert forall|k: int| c + 2 <= k < end implies code[k] != '"' by {
        assert(code[k] == name[k - c - 2]);
        if name[k - c - 2] == '"' {
            assert(name.contains('"'));
        }
    }
    lemma_quote_found(code, c + 2, end);
    assert(code.subrange(c + 2, end) =~= name);
    assert(marker_count(code, c, c) == 0);
    assert(code[c] != CURSOR_MARKER);
    assert(marker_count(code, c, c + 1) == 0);
    assert(repeat_char(CURSOR_MARKER, 0) =~= Seq::<char>::empty());
    assert(code.subrange(end + 1, code.len() as int) =~= Seq::<char>::empty());
    reveal_strlit(".bas\"");
    assert(code.subrange(0, 0) + cmd + seq![' '] + repeat_char(CURSOR_MARKER, 0) + seq!['"'] + name + ".bas\""@
        + code.subrange(end + 1, code.len() as int) =~= cmd + seq![' ', '"'] + name + ".bas\""@);
}

/// Each of the six file commands — CHAIN MERGE, CHAIN, MERGE, LOAD, SAVE
/// and RUN — completes a quoted program name that has no extension:
/// `CMD "name"` becomes `CMD "name.bas"`.
pub proof fn file_commands_complete_names_with_bas(cmd: Seq<char>, name: Seq<char>)
    requires
        cmd == "CHAIN MERGE"@ || cmd == "CHAIN"@ || cmd == "MERGE"@ || cmd == "LOAD"@ || cmd == "SAVE"@ || cmd
            == "RUN"@,
        !name.contains('"'),
        !path_has_extension(strip_markers(name)),
    ensures
        completed_from(quoted_command(cmd, name), 0) == cmd + seq![' ', '"'] + name + ".bas\""@,
{
    reveal_strlit("CHAIN MERGE");
    reveal_strlit("CHAIN");
    reveal_strlit("MERGE");
    reveal_strlit("LOAD");
    reveal_strlit("SAVE");
    reveal_strlit("RUN");
    let code = quoted_command(cmd, name);
    assert(code[0] == cmd[0]);
    let want = cmd + seq![' ', '"'] + name + ".bas\""@;
    if cmd == "CHAIN MERGE"@ {
        lemma_command_completes(cmd, name, 0);
    } else if cmd == "CHAIN"@ {
        assert(code[6] == '"');
        lemma_command_absent(code, 0, 6);
        lemma_command_completes(cmd, name, 1);
        assert(completed_from(code, 1) == want);
    } else if cmd == "MERGE"@ {
        lemma_command_absent(code, 0, 0);
        lemma_command_absent(code, 1, 0);
        lemma_command_completes(cmd, name, 2);
        assert(completed_from(code, 2) == want);
        assert(completed_from(code, 1) == want);
    } else if cmd == "LOAD"@ {
        lemma_command_absent(code, 0, 0);
        lemma_command_absent(code, 1, 0);
        lemma_command_absent(code, 2, 0);
        lemma_command_completes(cmd, name, 3);
        assert(completed_from(code, 3) == want);
        assert(completed_from(code, 2) == want);
        assert(completed_from(code, 1) == want);
    } else if cmd == "SAVE"@ {
        lemma_command_absent(code, 0, 0);
        lemma_command_absent(code, 1, 0);
        lemma_command_absent(code, 2, 0);
        lemma_command_absent(code, 3, 0);
        lemma_command_completes(cmd, name, 4);
        assert(completed_from(code, 4) == want);
        assert(completed_from(code, 3) == want);
        assert(completed_from(code, 2) == want);
        assert(completed_from(code, 1) == want);
    } else {
        lemma_command_absent(code, 0, 0);
        lemma_command_absent(code, 1, 0);
        lemma_command_absent(code, 2, 0);
        lemma_command_absent(code, 3, 0);
        lemma_command_absent(code, 4, 0);
        lemma_command_completes(cmd, name, 5);
        assert(completed_from(code, 5) == want);
        assert(completed_from(code, 4) == want);
        assert(completed_from(code, 3) == want);
        assert(completed_from(code, 2) == want);
        assert(completed_from(code, 1) == want);
    }
}

} // verus!
