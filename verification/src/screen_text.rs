//! Plain and styled text of the full-screen views: fitting text to a width,
//! the status bar, escape sequences, and the debugger's labels.
use vstd::prelude::*;
use crate::text::{is_digit, is_alpha, is_control, repeat_char, decimal, int_decimal, str_chars, string_from_chars, extend_with_str, extend_with_chars, push_repeated, nat_to_decimal, i32_to_decimal, char_is_digit, char_is_alpha, char_is_control};
use crate::debug_view::{RESET, STATUS_BAR_STYLE, STATUS_KEY_STYLE, SELECTION_STYLE, SELECTION_END_STYLE, sat_sub};
use crate::debugger::{DebugAction, DebugArrayKind, DebugFrameKind, DebugPauseReason, DebugLocation};
use crate::line_input::{KeyInput, KeyModifierState};

verus! {

// ---------------------------------------------------------------------------
// Fitting text
// ---------------------------------------------------------------------------

/// The first `width` characters of `s`, padded with spaces to `width`.
pub open spec fn fit(s: Seq<char>, width: int) -> Seq<char> {
    if s.len() >= width {
        s.subrange(0, width)
    } else {
        s + repeat_char(' ', (width - s.len()) as nat)
    }
}

/// The first `width` characters of `s`.
pub open spec fn truncate(s: Seq<char>, width: int) -> Seq<char> {
    if s.len() >= width {
        s.subrange(0, width)
    } else {
        s
    }
}

fn fit_chars(s: &[char], width: usize) -> (r: Vec<char>)
    ensures
        r@ == fit(s@, width as int),
{
    if s.len() >= width {
        crate::text::chars_range(s, 0, width)
    } else {
        let mut r = crate::text::chars_range(s, 0, s.len());
        assert(r@ =~= s@);
        push_repeated(&mut r, ' ', width - s.len());
        r
    }
}

fn truncate_chars(s: &[char], width: usize) -> (r: Vec<char>)
    ensures
        r@ == truncate(s@, width as int),
{
    if s.len() >= width {
        crate::text::chars_range(s, 0, width)
    } else {
        let r = crate::text::chars_range(s, 0, s.len());
        assert(r@ =~= s@);
        r
    }
}

/// `text` cut or padded to exactly `width` characters.
pub fn fit_plain_text(text: &str, width: usize) -> (r: String)
    ensures
        r@ == fit(text@, width as int),
{
    let chars = str_chars(text);
    string_from_chars(&fit_chars(&chars, width))
}

/// The first `width` characters of `text`.
pub fn truncate_plain_text(text: &str, width: usize) -> (r: String)
    ensures
        r@ == truncate(text@, width as int),
{
    let chars = str_chars(text);
    string_from_chars(&truncate_chars(&chars, width))
}

// ---------------------------------------------------------------------------
// The editor status bar
// ---------------------------------------------------------------------------

/// The status bar: the dirty mark and the status on the left, the cursor
/// position on the right, both fitted to `width`.
pub open spec fn status_line(status: Seq<char>, dirty: bool, line: nat, col: nat, width: int) -> Seq<char> {
    let left = seq![if dirty { '*' } else { ' ' }, ' '] + status;
    let right = seq!['L', 'n', ' '] + decimal(line) + seq![' ', 'C', 'o', 'l', ' '] + decimal(col);
    if width == 0 {
        Seq::<char>::empty()
    } else if right.len() >= width {
        fit(right, width)
    } else {
        let l = truncate(left, sat_sub(width, right.len() + 1 as int));
        l + repeat_char(' ', sat_sub(width, l.len() + right.len() as int) as nat) + right
    }
}

pub fn editor_status_line(status: &str, dirty: bool, line: usize, col: usize, width: usize) -> (r: String)
    ensures
        r@ == status_line(status@, dirty, line as nat, col as nat, width as int),
{
    if width == 0 {
        return String::new();
    }
    let mut left: Vec<char> = Vec::new();
    left.push(if dirty { '*' } else { ' ' });
    left.push(' ');
    extend_with_str(&mut left, status);
    let mut right: Vec<char> = Vec::new();
    right.push('L');
    right.push('n');
    right.push(' ');
    let line_digits = nat_to_decimal(line as u64);
    extend_with_chars(&mut right, &line_digits);
    right.push(' ');
    right.push('C');
    right.push('o');
    right.push('l');
    right.push(' ');
    let col_digits = nat_to_decimal(col as u64);
    extend_with_chars(&mut right, &col_digits);
    let ghost l0 = seq![if dirty { '*' } else { ' ' }, ' '] + status@;
    let ghost r0 = seq!['L', 'n', ' '] + decimal(line as nat) + seq![' ', 'C', 'o', 'l', ' '] + decimal(col as nat);
    assert(left@ =~= l0);
    assert(right@ =~= r0);
    if right.len() >= width {
        return string_from_chars(&fit_chars(&right, width));
    }
    let max_left = if width > right.len() + 1 { width - (right.len() + 1) } else { 0 };
    let l = truncate_chars(&left, max_left);
    let spaces = if width > l.len() + right.len() { width - (l.len() + right.len()) } else { 0 };
    let mut out = l;
    push_repeated(&mut out, ' ', spaces);
    extend_with_chars(&mut out, &right);
    string_from_chars(&out)
}

pub open spec fn seq_at(s: Seq<char>, start: int, t: Seq<char>) -> bool {
    0 <= start && start + t.len() <= s.len() && s.subrange(start, start + t.len()) == t
}

/// Where a run of function keys such as `F3/F4` that starts at `i` ends.
pub open spec fn fkey_end(s: Seq<char>, i: int) -> Option<int>
    decreases s.len() - i,
{
    if !(0 <= i < s.len() && s[i] == 'F') {
        None
    } else {
        let d = crate::separators::digit_run(s, i + 1);
        let j = i + 1 + d;
        if d == 0 {
            None
        } else if j + 2 < s.len() && s[j] == '/' && s[j + 1] == 'F' && is_digit(s[j + 2]) {
            proof {
                crate::renumber::lemma_digit_run_le(s, i + 1);
            }
            fkey_end(s, j + 1)
        } else {
            Some(j)
        }
    }
}

/// The length of the key name (`Tab/Shift+Tab`, `Tab`, `Esc`, or function
/// keys) at `start`.
pub open spec fn key_token_len(s: Seq<char>, start: int) -> Option<int> {
    if seq_at(s, start, seq!['T', 'a', 'b', '/', 'S', 'h', 'i', 'f', 't', '+', 'T', 'a', 'b']) {
        Some(13)
    } else if seq_at(s, start, seq!['T', 'a', 'b']) {
        Some(3)
    } else if seq_at(s, start, seq!['E', 's', 'c']) {
        Some(3)
    } else {
        match fkey_end(s, start) {
            Some(e) => Some(e - start),
            None => None,
        }
    }
}

fn chars_at(s: &[char], start: usize, t: &[char]) -> (r: bool)
    ensures
        r == seq_at(s@, start as int, t@),
{
    if start > s.len() || t.len() > s.len() - start {
        return false;
    }
    let n = s.len();
    let mut k: usize = 0;
    while k < t.len()
        invariant
            n == s@.len(),
            start + t@.len() <= s@.len(),
            0 <= k <= t@.len(),
            forall|j: int| 0 <= j < k ==> s@[start + j] == t@[j],
        decreases t@.len() - k,
    {
        if s[start + k] != t[k] {
            assert(s@.subrange(start as int, start + t@.len())[k as int] != t@[k as int]);
            return false;
        }
        k += 1;
    }
    assert(s@.subrange(start as int, start + t@.len()) =~= t@);
    true
}

pub fn status_function_key_token_len(chars: &[char], start: usize) -> (r: Option<usize>)
    ensures
        match r {
            None => fkey_end(chars@, start as int) is None,
            Some(n) => fkey_end(chars@, start as int) == Some(start + n),
        },
{
    let ghost s = chars@;
    let mut index = start;
    loop
        invariant
            s == chars@,
            start <= index,
            fkey_end(s, start as int) == fkey_end(s, index as int),
        decreases s.len() - index,
    {
        if !(index < chars.len() && chars[index] == 'F') {
            return None;
        }
        index += 1;
        let digit_start = index;
        while index < chars.len() && char_is_digit(chars[index])
            invariant
                s == chars@,
                digit_start <= index <= s.len(),
                crate::separators::digit_run(s, digit_start as int) == (index - digit_start)
                    + crate::separators::digit_run(s, index as int),
            decreases s.len() - index,
        {
            index += 1;
        }
        if index == digit_start {
            return None;
        }
        if index < chars.len() && chars.len() - index > 2 && chars[index] == '/' && chars[index + 1] == 'F' && char_is_digit(
            chars[index + 2],
        ) {
            index += 1;
            continue;
        }
        return Some(index - start);
    }
}

pub fn status_key_token_len(chars: &[char], start: usize) -> (r: Option<usize>)
    ensures
        match r {
            None => key_token_len(chars@, start as int) is None,
            Some(n) => key_token_len(chars@, start as int) == Some(n as int),
        },
{
    let both = str_chars("Tab/Shift+Tab");
    let tab = str_chars("Tab");
    let esc = str_chars("Esc");
    proof {
        reveal_strlit("Tab/Shift+Tab");
        reveal_strlit("Tab");
        reveal_strlit("Esc");
        assert(both@ =~= seq!['T', 'a', 'b', '/', 'S', 'h', 'i', 'f', 't', '+', 'T', 'a', 'b']);
        assert(tab@ =~= seq!['T', 'a', 'b']);
        assert(esc@ =~= seq!['E', 's', 'c']);
    }
    if chars_at(chars, start, &both) {
        return Some(13);
    }
    if chars_at(chars, start, &tab) {
        return Some(3);
    }
    if chars_at(chars, start, &esc) {
        return Some(3);
    }
    status_function_key_token_len(chars, start)
}

/// The status text with every key name in the key colour.
pub open spec fn keys_styled(s: Seq<char>, i: int) -> Seq<char>
    decreases s.len() - i,
{
    if i < 0 || i >= s.len() {
        Seq::<char>::empty()
    } else {
        match key_token_len(s, i) {
            Some(n) => if n > 0 && i + n <= s.len() {
                STATUS_KEY_STYLE@ + s.subrange(i, i + n) + STATUS_BAR_STYLE@ + keys_styled(s, i + n)
            } else {
                seq![s[i]] + keys_styled(s, i + 1)
            },
            None => seq![s[i]] + keys_styled(s, i + 1),
        }
    }
}

pub proof fn lemma_fkey_end_after(s: Seq<char>, i: int)
    ensures
        fkey_end(s, i) matches Some(e) ==> i < e <= s.len(),
    decreases s.len() - i,
{
    if 0 <= i < s.len() && s[i] == 'F' {
        crate::renumber::lemma_digit_run_le(s, i + 1);
        let d = crate::separators::digit_run(s, i + 1);
        let j = i + 1 + d;
        if d > 0 && j + 2 < s.len() && s[j] == '/' && s[j + 1] == 'F' && is_digit(s[j + 2]) {
            lemma_fkey_end_after(s, j + 1);
        }
    }
}

#[verifier::rlimit(30)]
pub fn style_editor_status_keys(text: &str) -> (r: String)
    ensures
        r@ == keys_styled(text@, 0),
{
    let chars = str_chars(text);
    let ghost s = chars@;
    let mut out: Vec<char> = Vec::new();
    let mut index: usize = 0;
    while index < chars.len()
        invariant
            s == chars@,
            0 <= index <= s.len(),
            out@ + keys_styled(s, index as int) == keys_styled(s, 0),
        decreases s.len() - index,
    {
        let ghost o = out@;
        let ghost i0 = index as int;
        let token = status_key_token_len(&chars, index);
        let take = match token {
            Some(n) => n > 0 && n <= chars.len() - index,
            None => false,
        };
        if take {
            let n = match token {
                Some(n) => n,
                None => 0,
            };
            assert(keys_styled(s, i0) == STATUS_KEY_STYLE@ + s.subrange(i0, i0 + n) + STATUS_BAR_STYLE@
                + keys_styled(s, i0 + n));
            extend_with_str(&mut out, STATUS_KEY_STYLE);
            crate::text::extend_with_range(&mut out, &chars, index, index + n);
            extend_with_str(&mut out, STATUS_BAR_STYLE);
            index += n;
            assert(out@ + keys_styled(s, index as int) =~= o + keys_styled(s, i0));
        } else {
            assert(keys_styled(s, i0) == seq![s[i0]] + keys_styled(s, i0 + 1));
            out.push(chars[index]);
            index += 1;
            assert(out@ + keys_styled(s, index as int) =~= o + keys_styled(s, i0));
        }
    }
    assert(out@ + keys_styled(s, index as int) =~= out@);
    string_from_chars(&out)
}

// ---------------------------------------------------------------------------
// Escape sequences
// ---------------------------------------------------------------------------

/// Where an escape sequence `ESC [ ...` whose parameters start at `j`
/// ends: after its first ASCII letter, or at the end of `s`.
pub open spec fn csi_end(s: Seq<char>, j: int) -> int
    decreases s.len() - j,
{
    if j < 0 || j >= s.len() {
        s.len() as int
    } else if is_alpha(s[j]) {
        j + 1
    } else {
        csi_end(s, j + 1)
    }
}

/// An escape sequence starts at `i`.
pub open spec fn csi_at(s: Seq<char>, i: int) -> bool {
    0 <= i && i + 1 < s.len() && s[i] == '\x1b' && s[i + 1] == '['
}

pub proof fn lemma_csi_end(s: Seq<char>, j: int)
    requires
        0 <= j <= s.len(),
    ensures
        j <= csi_end(s, j) <= s.len(),
        csi_end(s, j) > j || j == s.len(),
    decreases s.len() - j,
{
    if j < s.len() && !is_alpha(s[j]) {
        lemma_csi_end(s, j + 1);
    }
}

/// The number of characters from `i` on that are not part of escape sequences.
pub open spec fn width_from(s: Seq<char>, i: int) -> int
    decreases s.len() - i,
{
    if i < 0 || i >= s.len() {
        0
    } else if csi_at(s, i) {
        proof {
            lemma_csi_end(s, i + 2);
        }
        width_from(s, csi_end(s, i + 2))
    } else {
        1 + width_from(s, i + 1)
    }
}

/// Skips an escape sequence whose parameters start at `j`.
fn skip_csi(chars: &[char], j: usize) -> (r: usize)
    requires
        j <= chars@.len(),
    ensures
        r == csi_end(chars@, j as int),
{
    let mut k = j;
    while k < chars.len()
        invariant
            j <= k <= chars@.len(),
            csi_end(chars@, j as int) == csi_end(chars@, k as int),
        decreases chars@.len() - k,
    {
        if char_is_alpha(chars[k]) {
            return k + 1;
        }
        k += 1;
    }
    k
}

/// The number of characters of `text` that show on screen.
pub fn visible_width(text: &str) -> (r: usize)
    ensures
        r == width_from(text@, 0),
{
    let chars = str_chars(text);
    let ghost s = chars@;
    let mut width: usize = 0;
    let mut i: usize = 0;
    while i < chars.len()
        invariant
            s == chars@,
            0 <= i <= s.len(),
            width <= i,
            width + width_from(s, i as int) == width_from(s, 0),
        decreases s.len() - i,
    {
        if i + 1 < chars.len() && chars[i] == '\x1b' && chars[i + 1] == '[' {
            proof {
                lemma_csi_end(s, i + 2);
            }
            i = skip_csi(&chars, i + 2);
        } else {
            width += 1;
            i += 1;
        }
    }
    width
}

/// The rendered line with the statement placeholder at plain column `mc`
/// replaced by `marker`.
pub open spec fn marker_from(s: Seq<char>, i: int, col: int, mc: int, marker: Seq<char>) -> Seq<char>
    decreases s.len() - i,
{
    if i < 0 || i >= s.len() {
        Seq::<char>::empty()
    } else if csi_at(s, i) {
        proof {
            lemma_csi_end(s, i + 2);
        }
        s.subrange(i, csi_end(s, i + 2)) + marker_from(s, csi_end(s, i + 2), col, mc, marker)
    } else {
        (if col == mc && s[i] == DEBUG_STATEMENT_PLACEHOLDER {
            marker
        } else {
            seq![s[i]]
        }) + marker_from(s, i + 1, col + 1, mc, marker)
    }
}

/// Stands in the source window where the execution arrow goes.
pub const DEBUG_STATEMENT_PLACEHOLDER: char = '\u{E001}';

pub fn finish_debug_statement_marker_for_theme(
    rendered: &str,
    ansi: bool,
    marker_col: usize,
    theme: crate::debug_view::SyntaxTheme,
) -> (r: String)
    ensures
        r@ == marker_from(
            rendered@,
            0,
            0,
            marker_col as int,
            if ansi {
                crate::debug_view::styled(
                    (if theme == crate::debug_view::SyntaxTheme::Dark {
                        crate::debug_view::DEBUG_EXECUTION_ARROW_DARK_STYLE@
                    } else {
                        crate::debug_view::DEBUG_EXECUTION_ARROW_LIGHT_STYLE@
                    }),
                    seq![crate::debug_view::ARROW],
                )
            } else {
                seq![crate::debug_view::ARROW]
            },
        ),
{
    let mut marker: Vec<char> = Vec::new();
    if ansi {
        let style = crate::debug_view::debug_execution_arrow_style(theme);
        extend_with_str(&mut marker, style);
        marker.push(crate::debug_view::ARROW);
        extend_with_str(&mut marker, RESET);
        assert(marker@ =~= crate::debug_view::styled(style@, seq![crate::debug_view::ARROW]));
    } else {
        marker.push(crate::debug_view::ARROW);
        assert(marker@ =~= seq![crate::debug_view::ARROW]);
    }
    let chars = str_chars(rendered);
    let ghost s = chars@;
    let ghost m = marker@;
    let mut out: Vec<char> = Vec::new();
    let mut plain_col: usize = 0;
    let mut i: usize = 0;
    while i < chars.len()
        invariant
            s == chars@,
            m == marker@,
            0 <= i <= s.len(),
            plain_col <= i,
            out@ + marker_from(s, i as int, plain_col as int, marker_col as int, m) == marker_from(
                s,
                0,
                0,
                marker_col as int,
                m,
            ),
        decreases s.len() - i,
    {
        let ghost o = out@;
        if i + 1 < chars.len() && chars[i] == '\x1b' && chars[i + 1] == '[' {
            proof {
                lemma_csi_end(s, i + 2);
            }
            let e = skip_csi(&chars, i + 2);
            crate::text::extend_with_range(&mut out, &chars, i, e);
            let ghost i0 = i as int;
            i = e;
            assert(out@ + marker_from(s, i as int, plain_col as int, marker_col as int, m) =~= o
                + marker_from(s, i0, plain_col as int, marker_col as int, m));
        } else {
            if plain_col == marker_col && chars[i] == DEBUG_STATEMENT_PLACEHOLDER {
                extend_with_chars(&mut out, &marker);
            } else {
                out.push(chars[i]);
            }
            let ghost c0 = plain_col as int;
            plain_col += 1;
            i += 1;
            assert(out@ + marker_from(s, i as int, plain_col as int, marker_col as int, m) =~= o
                + marker_from(s, i - 1, c0, marker_col as int, m));
        }
    }
    assert(out@ + marker_from(s, i as int, plain_col as int, marker_col as int, m) =~= out@);
    string_from_chars(&out)
}

// ---------------------------------------------------------------------------
// Labels and status texts of the debugger
// ---------------------------------------------------------------------------

pub fn debug_array_kind_label(kind: DebugArrayKind) -> (r: &'static str)
    ensures
        kind == DebugArrayKind::Number ==> r@ == "NUM"@,
        kind == DebugArrayKind::String ==> r@ == "STR"@,
{
    match kind {
        DebugArrayKind::Number => "NUM",
        DebugArrayKind::String => "STR",
    }
}

pub fn debug_frame_kind_label(kind: DebugFrameKind) -> (r: &'static str)
    ensures
        kind == DebugFrameKind::Program ==> r@ == "MAIN"@,
        kind == DebugFrameKind::Gosub ==> r@ == "GOSUB"@,
        kind == DebugFrameKind::Sub ==> r@ == "SUB"@,
        kind == DebugFrameKind::Function ==> r@ == "FUNCTION"@,
        kind == DebugFrameKind::Timer ==> r@ == "TIMER"@,
        kind == DebugFrameKind::Mouse ==> r@ == "MOUSE"@,
{
    match kind {
        DebugFrameKind::Program => "MAIN",
        DebugFrameKind::Gosub => "GOSUB",
        DebugFrameKind::Sub => "SUB",
        DebugFrameKind::Function => "FUNCTION",
        DebugFrameKind::Timer => "TIMER",
        DebugFrameKind::Mouse => "MOUSE",
    }
}

pub open spec fn reason_label(reason: DebugPauseReason) -> Seq<char> {
    match reason {
        DebugPauseReason::Breakpoint => "BREAKPOINT"@,
        DebugPauseReason::Step => "STEP"@,
        DebugPauseReason::PauseRequested => "PAUSE"@,
    }
}

pub fn debug_pause_reason_label(reason: DebugPauseReason) -> (r: &'static str)
    ensures
        r@ == reason_label(reason),
{
    match reason {
        DebugPauseReason::Breakpoint => "BREAKPOINT",
        DebugPauseReason::Step => "STEP",
        DebugPauseReason::PauseRequested => "PAUSE",
    }
}

/// `Ln <line> Stmt <statement + 1>`, and ` View <line>` when another line
/// is viewed.
pub open spec fn location_status(line: i32, statement: nat, viewed_line: Option<i32>) -> Seq<char> {
    seq!['L', 'n', ' '] + int_decimal(line as int) + seq![' ', 'S', 't', 'm', 't', ' '] + decimal(
        statement + 1,
    ) + match viewed_line {
        Some(v) => if v != line {
            seq![' ', 'V', 'i', 'e', 'w', ' '] + int_decimal(v as int)
        } else {
            Seq::<char>::empty()
        },
        None => Seq::<char>::empty(),
    }
}

fn location_status_chars(location: &DebugLocation, viewed_line: Option<i32>) -> (r: Vec<char>)
    requires
        location.statement < u64::MAX,
    ensures
        r@ == location_status(location.line, location.statement as nat, viewed_line),
{
    let mut v: Vec<char> = Vec::new();
    extend_with_str(&mut v, "Ln ");
    extend_with_chars(&mut v, &i32_to_decimal(location.line));
    extend_with_str(&mut v, " Stmt ");
    extend_with_chars(&mut v, &nat_to_decimal(location.statement as u64 + 1));
    let ghost base = v@;
    match viewed_line {
        Some(line) => if line != location.line {
            extend_with_str(&mut v, " View ");
            extend_with_chars(&mut v, &i32_to_decimal(line));
        },
        None => {},
    }
    proof {
        reveal_strlit("Ln ");
        reveal_strlit(" Stmt ");
        reveal_strlit(" View ");
    }
    assert(v@ =~= location_status(location.line, location.statement as nat, viewed_line));
    v
}

pub fn debug_location_status(location: &DebugLocation, viewed_line: Option<i32>) -> (r: String)
    requires
        location.statement < u64::MAX,
    ensures
        r@ == location_status(location.line, location.statement as nat, viewed_line),
{
    string_from_chars(&location_status_chars(location, viewed_line))
}

/// The debugger's status bar: the pause reason, the location and the keys.
pub fn debug_status(
    snapshot: &crate::panel::DebugSnapshot,
    viewed_line: Option<i32>,
    has_inspector: bool,
) -> (r: String)
    requires
        snapshot.location.statement < u64::MAX,
    ensures
        ({
            let reason = snapshot.reason;
            let location = snapshot.location;
            r@ == reason_label(reason) + " | "@ + location_status(location.line, location.statement as nat, viewed_line)
            + " | F5 Go F6 Into F7 Over F8 Out Esc Abort F2 Break"@ + (if has_inspector {
            " Tab/Shift+Tab Inspect"@
        } else {
            Seq::<char>::empty()
        })
        }),
{
    let reason = snapshot.reason;
    let location = &snapshot.location;
    let mut v: Vec<char> = Vec::new();
    extend_with_str(&mut v, debug_pause_reason_label(reason));
    extend_with_str(&mut v, " | ");
    extend_with_chars(&mut v, &location_status_chars(location, viewed_line));
    extend_with_str(&mut v, " | F5 Go F6 Into F7 Over F8 Out Esc Abort F2 Break");
    if has_inspector {
        extend_with_str(&mut v, " Tab/Shift+Tab Inspect");
    }
    string_from_chars(&v)
}

/// The pause reason and location, followed by `message`.
pub fn debug_status_message(
    snapshot: &crate::panel::DebugSnapshot,
    viewed_line: Option<i32>,
    message: &str,
) -> (r: String)
    requires
        snapshot.location.statement < u64::MAX,
    ensures
        r@ == reason_label(snapshot.reason) + " | "@ + location_status(snapshot.location.line, snapshot.location.statement as nat, viewed_line)
            + " | "@ + message@,
{
    let reason = snapshot.reason;
    let location = &snapshot.location;
    let mut v: Vec<char> = Vec::new();
    extend_with_str(&mut v, debug_pause_reason_label(reason));
    extend_with_str(&mut v, " | ");
    extend_with_chars(&mut v, &location_status_chars(location, viewed_line));
    extend_with_str(&mut v, " | ");
    extend_with_str(&mut v, message);
    string_from_chars(&v)
}

/// The debugger action of a key: F1/F5 continue, F6 step into, F7 step
/// over, F8 step out, Ctrl+C and Esc abort.
pub fn debug_action_for_key(code: KeyInput, modifiers: KeyModifierState) -> (r: Option<DebugAction>)
    ensures
        r == (match code {
            KeyInput::F(n) => if n == 1 || n == 5 {
                Some(DebugAction::Continue)
            } else if n == 6 {
                Some(DebugAction::StepInto)
            } else if n == 7 {
                Some(DebugAction::StepOver)
            } else if n == 8 {
                Some(DebugAction::StepOut)
            } else {
                None
            },
            KeyInput::Char(c) => if (c == 'c' || c == 'C') && modifiers.control {
                Some(DebugAction::Abort)
            } else {
                None
            },
            KeyInput::Esc => Some(DebugAction::Abort),
            _ => None,
        }),
{
    match code {
        KeyInput::F(n) => if n == 1 || n == 5 {
            Some(DebugAction::Continue)
        } else if n == 6 {
            Some(DebugAction::StepInto)
        } else if n == 7 {
            Some(DebugAction::StepOver)
        } else if n == 8 {
            Some(DebugAction::StepOut)
        } else {
            None
        },
        KeyInput::Char(c) => if (c == 'c' || c == 'C') && modifiers.control {
            Some(DebugAction::Abort)
        } else {
            None
        },
        KeyInput::Esc => Some(DebugAction::Abort),
        _ => None,
    }
}

pub fn is_debugger_ctrl_c(code: KeyInput, modifiers: KeyModifierState) -> (r: bool)
    ensures
        r == (code matches KeyInput::Char(c) && (c == 'c' || c == 'C') && modifiers.control),
{
    match code {
        KeyInput::Char(c) => (c == 'c' || c == 'C') && modifiers.control,
        _ => false,
    }
}

/// Stepping keeps the debugger's alternate screen between pauses.
pub fn debug_action_keeps_alternate_screen(action: DebugAction) -> (r: bool)
    ensures
        r == (action == DebugAction::StepInto || action == DebugAction::StepOver || action
            == DebugAction::StepOut),
{
    match action {
        DebugAction::StepInto | DebugAction::StepOver | DebugAction::StepOut => true,
        _ => false,
    }
}


// ---------------------------------------------------------------------------
// Debugger values and panel
// ---------------------------------------------------------------------------

pub open spec fn hex_digit(d: int) -> char {
    if d < 10 {
        (('0' as int) + d) as char
    } else {
        (('A' as int) + d - 10) as char
    }
}

/// How a string value shows in the debugger: quotes doubled, backslash,
/// NUL, tab, newline and carriage return written as escapes, and other
/// control characters as `\xHH`.
pub open spec fn escape_char(c: char) -> Seq<char> {
    if c == '"' {
        seq!['"', '"']
    } else if c == '\\' {
        seq!['\\', '\\']
    } else if c == '\0' {
        seq!['\\', '0']
    } else if c == '\t' {
        seq!['\\', 't']
    } else if c == '\n' {
        seq!['\\', 'n']
    } else if c == '\r' {
        seq!['\\', 'r']
    } else if is_control(c) {
        seq!['\\', 'x', hex_digit((c as u32) as int / 16), hex_digit((c as u32) as int % 16)]
    } else {
        seq![c]
    }
}

pub open spec fn escaped(s: Seq<char>) -> Seq<char>
    decreases s.len(),
{
    if s.len() == 0 {
        Seq::<char>::empty()
    } else {
        escaped(s.drop_last()) + escape_char(s.last())
    }
}

fn hex_digit_exec(d: u32) -> (r: char)
    requires
        d < 16,
    ensures
        r == hex_digit(d as int),
{
    if d < 10 {
        crate::text::char_from_ascii_code('0' as u32 + d)
    } else {
        crate::text::char_from_ascii_code('A' as u32 + (d - 10))
    }
}

pub fn escape_debug_string(value: &str) -> (r: String)
    ensures
        r@ == escaped(value@),
{
    let chars = str_chars(value);
    let mut out: Vec<char> = Vec::new();
    let mut i: usize = 0;
    while i < chars.len()
        invariant
            0 <= i <= chars@.len(),
            chars@ == value@,
            out@ == escaped(chars@.subrange(0, i as int)),
        decreases chars@.len() - i,
    {
        let ch = chars[i];
        let ghost o = out@;
        if ch == '"' {
            out.push('"');
            out.push('"');
        } else if ch == '\\' {
            out.push('\\');
            out.push('\\');
        } else if ch == '\0' {
            out.push('\\');
            out.push('0');
        } else if ch == '\t' {
            out.push('\\');
            out.push('t');
        } else if ch == '\n' {
            out.push('\\');
            out.push('n');
        } else if ch == '\r' {
            out.push('\\');
            out.push('r');
        } else if char_is_control(ch) {
            let code = ch as u32;
            proof {
                crate::text::lemma_control_is_latin1(ch);
            }
            out.push('\\');
            out.push('x');
            let hi = hex_digit_exec(code / 16);
            let lo = hex_digit_exec(code % 16);
            out.push(hi);
            out.push(lo);
        } else {
            out.push(ch);
        }
        proof {
            assert(chars@.subrange(0, i + 1).drop_last() =~= chars@.subrange(0, i as int));
            assert(out@ =~= o + escape_char(ch));
        }
        i += 1;
    }
    assert(chars@.subrange(0, chars@.len() as int) =~= chars@);
    string_from_chars(&out)
}

/// A panel cell that is one of the section headings.
pub open spec fn is_heading(cell: Seq<char>) -> bool {
    let t = crate::separators::trim(cell);
    ||| t == "VARIABLES"@
    ||| t == "ARRAYS"@
    ||| t == "STACK"@
    ||| t == "STATE"@
    ||| t == "TIMERS"@
    ||| t == "DATA"@
}

pub fn debug_panel_cell_is_heading(cell: &[char]) -> (r: bool)
    ensures
        r == is_heading(cell@),
{
    let t = crate::separators::trim_chars(cell);
    crate::text::chars_eq(&t, &str_chars("VARIABLES")) || crate::text::chars_eq(&t, &str_chars("ARRAYS"))
        || crate::text::chars_eq(&t, &str_chars("STACK")) || crate::text::chars_eq(&t, &str_chars("STATE"))
        || crate::text::chars_eq(&t, &str_chars("TIMERS")) || crate::text::chars_eq(&t, &str_chars("DATA"))
}

/// The number of panel columns that fit in `width`.
pub open spec fn column_count(width: int) -> int {
    if width >= 96 {
        3
    } else if width >= 60 {
        2
    } else {
        1
    }
}

pub fn debug_panel_column_count(width: usize) -> (r: usize)
    ensures
        r == column_count(width as int),
{
    if width >= 96 {
        3
    } else if width >= 60 {
        2
    } else {
        1
    }
}

/// The width of each of `count` panel columns separated by ` | `.
pub open spec fn column_width(width: int, count: int) -> int {
    let c = if count > 1 {
        count
    } else {
        1
    };
    let w = sat_sub(width, 3 * (c - 1)) / c;
    if w > 1 {
        w
    } else {
        1
    }
}

pub fn debug_panel_column_width(width: usize, count: usize) -> (r: usize)
    ensures
        r == column_width(width as int, count as int),
{
    let c = if count > 1 {
        count
    } else {
        1
    };
    let gaps = if c - 1 <= usize::MAX / 3 {
        3 * (c - 1)
    } else {
        usize::MAX
    };
    let rest = if width > gaps {
        width - gaps
    } else {
        0
    };
    proof {
        if c - 1 > usize::MAX / 3 {
            assert(3 * (c - 1) >= width) by (nonlinear_arith)
                requires
                    c - 1 > usize::MAX / 3,
                    width <= usize::MAX,
            ;
        }
    }
    let w = rest / c;
    if w > 1 {
        w
    } else {
        1
    }
}

/// A panel cell in the changed colour (when it starts with `*`) or the
/// heading colour (when it is a heading).
pub open spec fn styled_cell(cell: Seq<char>, theme: crate::debug_view::SyntaxTheme) -> Seq<char> {
    if cell.len() > 0 && cell[0] == '*' {
        crate::debug_view::styled(
            (if theme == crate::debug_view::SyntaxTheme::Dark {
                crate::debug_view::DEBUG_PANEL_CHANGED_DARK_STYLE@
            } else {
                crate::debug_view::DEBUG_PANEL_CHANGED_LIGHT_STYLE@
            }),
            cell,
        )
    } else if is_heading(cell) {
        crate::debug_view::styled(crate::debug_view::DEBUG_PANEL_HEADER_STYLE@, cell)
    } else {
        cell
    }
}

/// The columns of a fitted panel line from column `col` on, each cell styled.
pub open spec fn panel_columns(
    l: Seq<char>,
    col: int,
    count: int,
    cw: int,
    copied: int,
    theme: crate::debug_view::SyntaxTheme,
) -> Seq<char>
    decreases count - col,
{
    let start = col * (cw + 3);
    if col >= count || col < 0 || start >= l.len() || copied > start || copied < 0 {
        l.subrange(copied, l.len() as int)
    } else {
        let end = if start + cw < l.len() {
            start + cw
        } else {
            l.len() as int
        };
        l.subrange(copied, start) + styled_cell(l.subrange(start, end), theme) + panel_columns(
            l,
            col + 1,
            count,
            cw,
            end,
            theme,
        )
    }
}

/// A panel line fitted to `width`, with the changed values and headings of
/// each column in colour.
pub open spec fn styled_panel_line(line: Seq<char>, width: int, ansi: bool, theme: crate::debug_view::SyntaxTheme) -> Seq<char> {
    let l = fit(line, width);
    if !ansi || width == 0 {
        l
    } else {
        let count = column_count(width);
        panel_columns(l, 0, count, column_width(width, count), 0, theme)
    }
}

proof fn lemma_panel_columns_fit(width: int, count: int, cw: int)
    requires
        width >= 1,
        count == column_count(width),
        cw == column_width(width, count),
    ensures
        1 <= cw <= width,
        (count - 1) * (cw + 3) <= width,
{
    if count == 1 {
        assert(cw == (if width > 1 { width } else { 1 }));
        assert((count - 1) * (cw + 3) == 0) by (nonlinear_arith)
            requires
                count == 1,
        ;
    } else if count == 2 {
        assert(sat_sub(width, 3) == width - 3);
        assert((width - 3) / 2 <= width - 3) by (nonlinear_arith)
            requires
                width >= 60,
        ;
        assert((count - 1) * (cw + 3) == cw + 3) by (nonlinear_arith)
            requires
                count == 2,
        ;
    } else {
        assert(sat_sub(width, 6) == width - 6);
        assert((width - 6) / 3 * 3 <= width - 6) by (nonlinear_arith);
        assert((width - 6) / 3 >= 1) by (nonlinear_arith)
            requires
                width >= 96,
        ;
        assert((count - 1) * (cw + 3) == 2 * cw + 6) by (nonlinear_arith)
            requires
                count == 3,
        ;
    }
}

fn push_styled_cell(out: &mut Vec<char>, cell: &[char], theme: crate::debug_view::SyntaxTheme)
    ensures
        final(out)@ == old(out)@ + styled_cell(cell@, theme),
{
    if cell.len() > 0 && cell[0] == '*' {
        extend_with_str(out, crate::debug_view::debug_panel_changed_style(theme));
        extend_with_chars(out, cell);
        extend_with_str(out, RESET);
    } else if debug_panel_cell_is_heading(cell) {
        extend_with_str(out, crate::debug_view::DEBUG_PANEL_HEADER_STYLE);
        extend_with_chars(out, cell);
        extend_with_str(out, RESET);
    } else {
        extend_with_chars(out, cell);
    }
}

pub fn style_debug_panel_line_for_theme(
    line: &str,
    width: usize,
    ansi: bool,
    theme: crate::debug_view::SyntaxTheme,
) -> (r: String)
    ensures
        r@ == styled_panel_line(line@, width as int, ansi, theme),
{
    let src = str_chars(line);
    let chars = fit_chars(&src, width);
    if !ansi || width == 0 {
        return string_from_chars(&chars);
    }
    let count = debug_panel_column_count(width);
    let cw = debug_panel_column_width(width, count);
    let ghost l = chars@;
    let mut rendered: Vec<char> = Vec::new();
    let mut copied: usize = 0;
    let mut column: usize = 0;
    let mut start: usize = 0;
    proof {
        lemma_panel_columns_fit(width as int, count as int, cw as int);
    }
    while column < count && start < chars.len()
        invariant
            l == chars@,
            l == fit(line@, width as int),
            ansi && width > 0,
            l.len() == width,
            1 <= count <= 3,
            count == column_count(width as int),
            1 <= cw <= width,
            (count - 1) * (cw + 3) <= width,
            cw == column_width(width as int, count as int),
            0 <= column <= count,
            start == column * (cw + 3),
            column < count ==> start <= width,
            copied <= start,
            copied <= l.len(),
            rendered@ + panel_columns(l, column as int, count as int, cw as int, copied as int, theme)
                == panel_columns(l, 0, count as int, cw as int, 0, theme),
        decreases count - column,
    {
        let ghost r0 = rendered@;
        crate::text::extend_with_range(&mut rendered, &chars, copied, start);
        let end = if cw < chars.len() - start {
            start + cw
        } else {
            chars.len()
        };
        let cell = crate::text::chars_range(&chars, start, end);
        push_styled_cell(&mut rendered, &cell, theme);
        assert(rendered@ + panel_columns(l, column + 1, count as int, cw as int, end as int, theme)
            =~= r0 + panel_columns(l, column as int, count as int, cw as int, copied as int, theme));
        copied = end;
        proof {
            assert((column + 1) * (cw + 3) == column * (cw + 3) + cw + 3) by (nonlinear_arith);
            if column + 1 < count {
                assert((column + 1) * (cw + 3) <= (count - 1) * (cw + 3)) by (nonlinear_arith)
                    requires
                        column + 1 <= count - 1,
                        cw + 3 >= 0,
                ;
            }
        }
        column += 1;
        if column < count {
            start = start + cw + 3;
        } else {
            proof {
                assert(panel_columns(l, column as int, count as int, cw as int, copied as int, theme)
                    == l.subrange(copied as int, l.len() as int));
            }
            crate::text::extend_with_range(&mut rendered, &chars, copied, chars.len());
            return string_from_chars(&rendered);
        }
    }
    proof {
        assert(panel_columns(l, column as int, count as int, cw as int, copied as int, theme)
            == l.subrange(copied as int, l.len() as int));
    }
    crate::text::extend_with_range(&mut rendered, &chars, copied, chars.len());
    string_from_chars(&rendered)
}


/// Where an escape sequence that starts at `i` ends: after its first `m`,
/// or at the end of `s`.
pub open spec fn m_end(s: Seq<char>, j: int) -> int
    decreases s.len() - j,
{
    if j < 0 || j >= s.len() {
        s.len() as int
    } else if s[j] == 'm' {
        j + 1
    } else {
        m_end(s, j + 1)
    }
}

pub proof fn lemma_m_end(s: Seq<char>, j: int)
    requires
        0 <= j <= s.len(),
    ensures
        j <= m_end(s, j) <= s.len(),
    decreases s.len() - j,
{
    if j < s.len() && s[j] != 'm' {
        lemma_m_end(s, j + 1);
    }
}

/// The rendered text from `i` on with the plain columns `a..b` shown in
/// reverse video; `plain` counts the plain columns before `i`.
pub open spec fn selection_from(s: Seq<char>, i: int, plain: int, selecting: bool, a: int, b: int) -> Seq<char>
    decreases s.len() - i,
{
    if i < 0 || i >= s.len() {
        if selecting {
            SELECTION_END_STYLE@
        } else {
            Seq::<char>::empty()
        }
    } else if s[i] == '\x1b' {
        proof {
            lemma_m_end(s, i + 1);
        }
        let e = m_end(s, i + 1);
        let esc = s.subrange(i, e);
        esc + (if selecting && esc == RESET@ {
            SELECTION_STYLE@
        } else {
            Seq::<char>::empty()
        }) + selection_from(s, e, plain, selecting, a, b)
    } else {
        let sel1 = if plain == a {
            true
        } else {
            selecting
        };
        let sel2 = if plain == b {
            false
        } else {
            sel1
        };
        (if plain == a {
            SELECTION_STYLE@
        } else {
            Seq::<char>::empty()
        }) + (if plain == b {
            SELECTION_END_STYLE@
        } else {
            Seq::<char>::empty()
        }) + seq![s[i]] + selection_from(s, i + 1, plain + 1, sel2, a, b)
    }
}

/// The rendered line with the selected columns in reverse video (colours
/// on, non-empty selection only).
pub open spec fn with_selection(s: Seq<char>, ansi: bool, selection: Option<(usize, usize)>) -> Seq<char> {
    match selection {
        None => s,
        Some((a, b)) => if !ansi || a >= b {
            s
        } else {
            selection_from(s, 0, 0, false, a as int, b as int)
        },
    }
}

pub fn apply_selection_to_rendered(rendered: &str, ansi: bool, selection: Option<(usize, usize)>) -> (r: String)
    ensures
        r@ == with_selection(rendered@, ansi, selection),
{
    let chars = str_chars(rendered);
    let (a, b) = match selection {
        Some((a, b)) => (a, b),
        None => return string_from_chars(&chars),
    };
    if !ansi || a >= b {
        return string_from_chars(&chars);
    }
    let ghost s = chars@;
    let mut out: Vec<char> = Vec::new();
    let mut plain: usize = 0;
    let mut selecting = false;
    let mut i: usize = 0;
    let reset = str_chars(RESET);
    while i < chars.len()
        invariant
            s == chars@,
            reset@ == RESET@,
            0 <= i <= s.len(),
            plain <= i,
            out@ + selection_from(s, i as int, plain as int, selecting, a as int, b as int) == selection_from(
                s,
                0,
                0,
                false,
                a as int,
                b as int,
            ),
        decreases s.len() - i,
    {
        let ghost o = out@;
        let ghost i0 = i as int;
        if chars[i] == '\x1b' {
            let mut e = i + 1;
            while e < chars.len() && chars[e] != 'm'
                invariant
                    s == chars@,
                    i0 + 1 <= e <= s.len(),
                    m_end(s, i0 + 1) == m_end(s, e as int),
                decreases s.len() - e,
            {
                e += 1;
            }
            if e < chars.len() {
                e += 1;
            }
            let esc = crate::text::chars_range(&chars, i, e);
            extend_with_chars(&mut out, &esc);
            if selecting && crate::text::chars_eq(&esc, &reset) {
                extend_with_str(&mut out, SELECTION_STYLE);
            }
            i = e;
            assert(out@ + selection_from(s, i as int, plain as int, selecting, a as int, b as int) =~= o
                + selection_from(s, i0, plain as int, selecting, a as int, b as int));
        } else {
            let ghost p0 = plain as int;
            let ghost sel0 = selecting;
            if plain == a {
                extend_with_str(&mut out, SELECTION_STYLE);
                selecting = true;
            }
            if plain == b {
                extend_with_str(&mut out, SELECTION_END_STYLE);
                selecting = false;
            }
            out.push(chars[i]);
            plain += 1;
            i += 1;
            assert(out@ + selection_from(s, i as int, plain as int, selecting, a as int, b as int) =~= o
                + selection_from(s, i0, p0, sel0, a as int, b as int));
        }
    }
    if selecting {
        extend_with_str(&mut out, SELECTION_END_STYLE);
    }
    assert(out@ =~= selection_from(s, 0, 0, false, a as int, b as int));
    string_from_chars(&out)
}

/// The first occurrence of `t` in `s` at or after `k`.
pub open spec fn find_from(s: Seq<char>, t: Seq<char>, k: int) -> Option<int>
    decreases s.len() - k,
{
    if k < 0 || k + t.len() > s.len() {
        None
    } else if t.len() == 0 || s.subrange(k, k + t.len()) == t {
        Some(k)
    } else {
        find_from(s, t, k + 1)
    }
}

/// The text from `i` on with `style` inserted after every reset sequence.
pub open spec fn restyle_from(s: Seq<char>, i: int, style: Seq<char>) -> Seq<char>
    decreases s.len() - i,
{
    match find_from(s, RESET@, i) {
        Some(p) => if 0 <= i <= p && p + RESET@.len() <= s.len() && RESET@.len() > 0 {
            s.subrange(i, p + RESET@.len()) + style + restyle_from(s, p + RESET@.len(), style)
        } else {
            Seq::<char>::empty()
        },
        None => if 0 <= i <= s.len() {
            s.subrange(i, s.len() as int)
        } else {
            Seq::<char>::empty()
        },
    }
}

pub proof fn lemma_find_from(s: Seq<char>, t: Seq<char>, k: int)
    ensures
        find_from(s, t, k) matches Some(p) ==> k <= p && p + t.len() <= s.len(),
    decreases s.len() - k,
{
    if 0 <= k && k + t.len() <= s.len() && t.len() > 0 && s.subrange(k, k + t.len()) != t {
        lemma_find_from(s, t, k + 1);
    }
}

/// The executing line with the current-line background kept behind every
/// reset, padded to `width` (colours on), or the plain line fitted.
pub open spec fn execution_line(s: Seq<char>, ansi: bool, width: int, theme: crate::debug_view::SyntaxTheme) -> Seq<char> {
    if !ansi {
        fit(s, width)
    } else {
        let style = if theme == crate::debug_view::SyntaxTheme::Dark {
            crate::debug_view::DEBUG_CURRENT_LINE_DARK_STYLE@
        } else {
            crate::debug_view::DEBUG_CURRENT_LINE_LIGHT_STYLE@
        };
        let w = width_from(s, 0);
        style + restyle_from(s, 0, style) + (if w < width {
            repeat_char(' ', (width - w) as nat)
        } else {
            Seq::<char>::empty()
        }) + RESET@
    }
}

fn find_reset(chars: &[char], reset: &[char], k: usize) -> (r: Option<usize>)
    requires
        k <= chars@.len(),
        reset@.len() > 0,
    ensures
        match r {
            None => find_from(chars@, reset@, k as int) is None,
            Some(p) => find_from(chars@, reset@, k as int) == Some(p as int),
        },
{
    let mut q = k;
    while q <= chars.len()
        invariant
            k <= q <= chars@.len(),
            reset@.len() > 0,
            find_from(chars@, reset@, k as int) == find_from(chars@, reset@, q as int),
        decreases chars@.len() + 1 - q,
    {
        if reset.len() > chars.len() - q {
            return None;
        }
        if crate::text::chars_occur_at(chars, q, reset) {
            return Some(q);
        }
        q += 1;
    }
    None
}

pub fn apply_debug_execution_line_style(
    rendered: &str,
    ansi: bool,
    width: usize,
    theme: crate::debug_view::SyntaxTheme,
) -> (r: String)
    ensures
        r@ == execution_line(rendered@, ansi, width as int, theme),
{
    if !ansi {
        return fit_plain_text(rendered, width);
    }
    let style = match theme {
        crate::debug_view::SyntaxTheme::Dark => crate::debug_view::DEBUG_CURRENT_LINE_DARK_STYLE,
        crate::debug_view::SyntaxTheme::Light => crate::debug_view::DEBUG_CURRENT_LINE_LIGHT_STYLE,
    };
    let chars = str_chars(rendered);
    let reset = str_chars(RESET);
    proof {
        reveal_strlit("\x1b[0m");
        assert(RESET@ == "\x1b[0m"@);
        assert(RESET@.len() == 4);
    }
    let ghost s = chars@;
    let mut out: Vec<char> = Vec::new();
    extend_with_str(&mut out, style);
    let ghost o0 = out@;
    let mut rest: usize = 0;
    let n = chars.len();
    loop
        invariant_except_break
            s == chars@,
            n == s.len(),
            reset@ == RESET@,
            RESET@.len() == 4,
            0 <= rest <= s.len(),
            out@ + restyle_from(s, rest as int, style@) == o0 + restyle_from(s, 0, style@),
        ensures
            out@ == o0 + restyle_from(s, 0, style@),
        decreases s.len() - rest,
    {
        let ghost o = out@;
        let ghost r0 = rest as int;
        proof {
            lemma_find_from(s, RESET@, rest as int);
        }
        match find_reset(&chars, &reset, rest) {
            Some(p) => {
                crate::text::extend_with_range(&mut out, &chars, rest, p + 4);
                extend_with_str(&mut out, style);
                rest = p + 4;
                assert(out@ + restyle_from(s, rest as int, style@) =~= o + restyle_from(s, r0, style@));
            },
            None => {
                crate::text::extend_with_range(&mut out, &chars, rest, chars.len());
                assert(out@ =~= o + restyle_from(s, r0, style@));
                break;
            },
        }
    }
    let w = visible_width(rendered);
    if w < width {
        push_repeated(&mut out, ' ', width - w);
    }
    extend_with_str(&mut out, RESET);
    string_from_chars(&out)
}

/// The rows of the panel's columns side by side, each cell fitted to the
/// column width, each row fitted to `width`.
pub open spec fn panel_row(columns: Seq<Seq<Seq<char>>>, row: int, cw: int) -> Seq<char> {
    crate::separators::join(
        Seq::new(
            columns.len(),
            |k: int|
                fit(
                    if row < columns[k].len() {
                        columns[k][row]
                    } else {
                        Seq::<char>::empty()
                    },
                    cw,
                ),
        ),
        seq![' ', '|', ' '],
    )
}

/// The number of rows of the tallest of the first `n` columns.
pub open spec fn max_rows(columns: Seq<Seq<Seq<char>>>, n: int) -> int
    decreases n,
{
    if n <= 0 {
        0
    } else {
        let m = max_rows(columns, n - 1);
        if columns[n - 1].len() > m {
            columns[n - 1].len() as int
        } else {
            m
        }
    }
}

pub open spec fn columns_view(columns: Seq<Vec<String>>) -> Seq<Seq<Seq<char>>> {
    Seq::new(columns.len(), |k: int| columns[k]@.map_values(|s: String| s@))
}

pub fn join_debug_panel_columns(columns: &[Vec<String>], width: usize) -> (r: Vec<String>)
    ensures
        r@.len() == max_rows(columns_view(columns@), columns@.len() as int),
        forall|row: int|
            0 <= row < r@.len() ==> #[trigger] r@[row]@ == fit(
                panel_row(
                    columns_view(columns@),
                    row,
                    column_width(width as int, (if columns@.len() > 1 { columns@.len() } else { 1 }) as int),
                ),
                width as int,
            ),
{
    let ghost cv = columns_view(columns@);
    let count = if columns.len() > 1 { columns.len() } else { 1 };
    let cw = debug_panel_column_width(width, count);
    let mut rows: usize = 0;
    let mut k: usize = 0;
    while k < columns.len()
        invariant
            0 <= k <= columns@.len(),
            cv == columns_view(columns@),
            rows == max_rows(cv, k as int),
        decreases columns@.len() - k,
    {
        if columns[k].len() > rows {
            rows = columns[k].len();
        }
        k += 1;
    }
    let mut out: Vec<String> = Vec::new();
    let mut row: usize = 0;
    while row < rows
        invariant
            0 <= row <= rows,
            cv == columns_view(columns@),
            cw == column_width(width as int, count as int),
            count == (if columns@.len() > 1 { columns@.len() } else { 1 }),
            out@.len() == row,
            forall|q: int| 0 <= q < row ==> #[trigger] out@[q]@ == fit(panel_row(cv, q, cw as int), width as int),
        decreases rows - row,
    {
        let mut joined: Vec<char> = Vec::new();
        let mut c: usize = 0;
        let ghost cells = Seq::new(
            cv.len(),
            |j: int|
                fit(
                    if (row as int) < cv[j].len() {
                        cv[j][row as int]
                    } else {
                        Seq::<char>::empty()
                    },
                    cw as int,
                ),
        );
        while c < columns.len()
            invariant
                0 <= c <= columns@.len(),
                cv == columns_view(columns@),
                cells.len() == cv.len(),
                cv.len() == columns@.len(),
                cells == Seq::new(
                    cv.len(),
                    |j: int|
                        fit(
                            if (row as int) < cv[j].len() {
                                cv[j][row as int]
                            } else {
                                Seq::<char>::empty()
                            },
                            cw as int,
                        ),
                ),
                joined@ == crate::separators::join(cells.subrange(0, c as int), seq![' ', '|', ' ']),
            decreases columns@.len() - c,
        {
            let cell_src: Vec<char> = if row < columns[c].len() {
                str_chars(columns[c][row].as_str())
            } else {
                Vec::new()
            };
            assert(cell_src@ == (if (row as int) < cv[c as int].len() {
                cv[c as int][row as int]
            } else {
                Seq::<char>::empty()
            }));
            let cell = fit_chars(&cell_src, cw);
            if c > 0 {
                joined.push(' ');
                joined.push('|');
                joined.push(' ');
            }
            extend_with_chars(&mut joined, &cell);
            proof {
                let t = cells.subrange(0, c + 1);
                assert(t.drop_last() =~= cells.subrange(0, c as int));
                if c == 0 {
                    assert(joined@ =~= t[0]);
                } else {
                    assert(joined@ =~= crate::separators::join(t.drop_last(), seq![' ', '|', ' '])
                        + seq![' ', '|', ' '] + t.last());
                }
            }
            c += 1;
        }
        assert(cells.subrange(0, cells.len() as int) =~= cells);
        assert(cells =~= Seq::new(
            cv.len(),
            |j: int|
                fit(
                    if (row as int) < cv[j].len() {
                        cv[j][row as int]
                    } else {
                        Seq::<char>::empty()
                    },
                    cw as int,
                ),
        ));
        out.push(string_from_chars(&fit_chars(&joined, width)));
        row += 1;
    }
    out
}

} // verus!
