//! How many terminal cells styled text takes: colour sequences take none,
//! so styling never changes the width of what is shown.
use vstd::prelude::*;
use crate::text::is_alpha;
use crate::screen_text::{csi_at, csi_end, lemma_csi_end, width_from, keys_styled, key_token_len, fit, panel_columns, styled_cell, styled_panel_line, column_count, column_width, is_heading, marker_from, DEBUG_STATEMENT_PLACEHOLDER, restyle_from, execution_line, find_from, lemma_find_from};
use crate::debug_view::{
    gutter_plain, gutter_styled, styled, SyntaxTheme, BULLET, ARROW, RESET, STATUS_BAR_STYLE, STATUS_KEY_STYLE,
    DEBUG_BREAKPOINT_STYLE, DEBUG_EXECUTION_DOT_DARK_STYLE, DEBUG_EXECUTION_DOT_LIGHT_STYLE,
    DEBUG_PANEL_HEADER_STYLE, DEBUG_PANEL_CHANGED_DARK_STYLE, DEBUG_PANEL_CHANGED_LIGHT_STYLE,
    DEBUG_EXECUTION_ARROW_DARK_STYLE, DEBUG_EXECUTION_ARROW_LIGHT_STYLE,
    DEBUG_CURRENT_LINE_DARK_STYLE, DEBUG_CURRENT_LINE_LIGHT_STYLE,
};

verus! {

/// The escape sequence whose parameters start at `j` ends with a letter
/// inside `s`.
pub open spec fn csi_closes(s: Seq<char>, j: int) -> bool
    decreases s.len() - j,
{
    if j < 0 || j >= s.len() {
        false
    } else {
        is_alpha(s[j]) || csi_closes(s, j + 1)
    }
}

/// Reading `s` from `i` on, every escape character starts an escape
/// sequence that ends inside `s`.
pub open spec fn closed_from(s: Seq<char>, i: int) -> bool
    decreases s.len() - i,
{
    if i < 0 || i >= s.len() {
        true
    } else if s[i] == '\x1b' {
        if i + 2 <= s.len() {
            proof {
                lemma_csi_end(s, i + 2);
            }
            csi_at(s, i) && csi_closes(s, i + 2) && closed_from(s, csi_end(s, i + 2))
        } else {
            false
        }
    } else {
        closed_from(s, i + 1)
    }
}

/// The number of cells that `s` takes on screen.
pub open spec fn cells(s: Seq<char>) -> int {
    width_from(s, 0)
}

/// Text without escape characters.
pub open spec fn plain(s: Seq<char>) -> bool {
    forall|k: int| 0 <= k < s.len() ==> #[trigger] s[k] != '\x1b'
}

/// A complete colour sequence `ESC [ params letter`.
pub open spec fn sgr(s: Seq<char>) -> bool {
    &&& s.len() >= 3
    &&& s[0] == '\x1b'
    &&& s[1] == '['
    &&& is_alpha(s[s.len() - 1])
    &&& forall|k: int| 2 <= k < s.len() - 1 ==> !is_alpha(#[trigger] s[k])
}

proof fn lemma_csi_closes_end(s: Seq<char>, t: Seq<char>, j: int)
    requires
        csi_closes(s, j),
    ensures
        j < csi_end(s, j) <= s.len(),
        csi_end(s + t, j) == csi_end(s, j),
    decreases s.len() - j,
{
    if !is_alpha(s[j]) {
        lemma_csi_closes_end(s, t, j + 1);
    }
    assert((s + t)[j] == s[j]);
}

proof fn lemma_shift_csi_end(p: Seq<char>, q: Seq<char>, k: int)
    requires
        0 <= k,
    ensures
        csi_end(p + q, p.len() + k) == p.len() + csi_end(q, k),
    decreases q.len() - k,
{
    if k < q.len() {
        assert((p + q)[p.len() + k] == q[k]);
        if !is_alpha(q[k]) {
            lemma_shift_csi_end(p, q, k + 1);
        }
    }
}

/// What follows a prefix is read as on its own.
proof fn lemma_shift_width(p: Seq<char>, q: Seq<char>, j: int)
    requires
        0 <= j,
    ensures
        width_from(p + q, p.len() + j) == width_from(q, j),
        closed_from(p + q, p.len() + j) == closed_from(q, j),
    decreases q.len() - j,
{
    let s = p + q;
    if j < q.len() {
        assert(s[p.len() + j] == q[j]);
        if p.len() + j + 1 < s.len() {
            assert(s[p.len() + j + 1] == q[j + 1]);
        }
        assert(csi_at(s, p.len() + j) == csi_at(q, j));
        if csi_at(q, j) {
            lemma_csi_end(q, j + 2);
            lemma_shift_csi_end(p, q, j + 2);
            lemma_shift_width(p, q, csi_end(q, j + 2));
            lemma_shift_closes(p, q, j + 2);
        } else {
            lemma_shift_width(p, q, j + 1);
        }
    }
}

proof fn lemma_shift_closes(p: Seq<char>, q: Seq<char>, k: int)
    requires
        0 <= k,
    ensures
        csi_closes(p + q, p.len() + k) == csi_closes(q, k),
    decreases q.len() - k,
{
    if k < q.len() {
        assert((p + q)[p.len() + k] == q[k]);
        lemma_shift_closes(p, q, k + 1);
    }
}

proof fn lemma_closes_prefix(s: Seq<char>, t: Seq<char>, j: int)
    requires
        csi_closes(s, j),
    ensures
        csi_closes(s + t, j),
    decreases s.len() - j,
{
    assert((s + t)[j] == s[j]);
    if !is_alpha(s[j]) {
        lemma_closes_prefix(s, t, j + 1);
    }
}

/// The cells of `a + b` are those of `a` and those of `b`, when `a` closes
/// every sequence it opens.
proof fn lemma_width_concat_from(a: Seq<char>, b: Seq<char>, i: int)
    requires
        0 <= i <= a.len(),
        closed_from(a, i),
    ensures
        width_from(a + b, i) == width_from(a, i) + width_from(b, 0),
        closed_from(b, 0) ==> closed_from(a + b, i),
    decreases a.len() - i,
{
    let s = a + b;
    if i == a.len() {
        lemma_shift_width(a, b, 0);
    } else {
        assert(s[i] == a[i]);
        if a[i] == '\x1b' {
            lemma_csi_end(a, i + 2);
            assert(s[i + 1] == a[i + 1]);
            lemma_csi_closes_end(a, b, i + 2);
            lemma_closes_prefix(a, b, i + 2);
            lemma_width_concat_from(a, b, csi_end(a, i + 2));
        } else {
            assert(!csi_at(s, i));
            assert(!csi_at(a, i));
            lemma_width_concat_from(a, b, i + 1);
        }
    }
}

proof fn lemma_width_concat(a: Seq<char>, b: Seq<char>)
    requires
        closed_from(a, 0),
    ensures
        cells(a + b) == cells(a) + cells(b),
        closed_from(b, 0) ==> closed_from(a + b, 0),
{
    lemma_width_concat_from(a, b, 0);
}

proof fn lemma_plain_from(s: Seq<char>, i: int)
    requires
        plain(s),
        0 <= i <= s.len(),
    ensures
        closed_from(s, i),
        width_from(s, i) == s.len() - i,
    decreases s.len() - i,
{
    if i < s.len() {
        assert(s[i] != '\x1b');
        lemma_plain_from(s, i + 1);
    }
}

/// Plain text takes one cell per character.
proof fn lemma_plain_width(s: Seq<char>)
    requires
        plain(s),
    ensures
        closed_from(s, 0),
        cells(s) == s.len(),
{
    lemma_plain_from(s, 0);
}

proof fn lemma_sgr_end(s: Seq<char>, k: int)
    requires
        sgr(s),
        2 <= k < s.len(),
    ensures
        csi_end(s, k) == s.len(),
        csi_closes(s, k),
    decreases s.len() - k,
{
    if k < s.len() - 1 {
        assert(!is_alpha(s[k]));
        lemma_sgr_end(s, k + 1);
    }
}

/// A colour sequence takes no cell.
proof fn lemma_sgr_width(s: Seq<char>)
    requires
        sgr(s),
    ensures
        closed_from(s, 0),
        cells(s) == 0,
{
    lemma_sgr_end(s, 2);
    assert(csi_at(s, 0));
    assert(closed_from(s, s.len() as int));
    assert(width_from(s, s.len() as int) == 0);
    assert(closed_from(s, 0));
    assert(width_from(s, 0) == width_from(s, csi_end(s, 2)));
}

/// Two pieces that each close their sequences, side by side.
proof fn lemma_closed_concat(a: Seq<char>, b: Seq<char>)
    requires
        closed_from(a, 0),
        closed_from(b, 0),
    ensures
        closed_from(a + b, 0),
        cells(a + b) == cells(a) + cells(b),
{
    lemma_width_concat(a, b);
}

/// No letter among the parameters `s[k..len-1]`.
pub open spec fn params_from(s: Seq<char>, k: int) -> bool
    decreases s.len() - k,
{
    if k < 0 || k >= s.len() - 1 {
        true
    } else {
        !is_alpha(s[k]) && params_from(s, k + 1)
    }
}

proof fn lemma_params_from(s: Seq<char>, k: int)
    requires
        0 <= k,
        params_from(s, k),
    ensures
        forall|q: int| k <= q < s.len() - 1 ==> !is_alpha(#[trigger] s[q]),
    decreases s.len() - k,
{
    if k < s.len() - 1 {
        lemma_params_from(s, k + 1);
    }
}

/// Text that takes no cell and closes what it opens: colour sequences.
pub open spec fn colour(s: Seq<char>) -> bool {
    closed_from(s, 0) && cells(s) == 0
}

proof fn lemma_sgr_literal(s: Seq<char>)
    requires
        s.len() >= 3,
        s[0] == '\x1b',
        s[1] == '[',
        is_alpha(s[s.len() - 1]),
        params_from(s, 2),
    ensures
        colour(s),
{
    lemma_params_from(s, 2);
    lemma_sgr_width(s);
}

proof fn lemma_colour_concat(a: Seq<char>, b: Seq<char>)
    requires
        colour(a),
        colour(b),
    ensures
        colour(a + b),
{
    lemma_closed_concat(a, b);
}

/// The colour sequences of the console's styles take no cell.
proof fn lemma_styles_are_colours()
    ensures
        colour(RESET@),
        colour(STATUS_KEY_STYLE@),
        colour(STATUS_BAR_STYLE@),
        colour(DEBUG_BREAKPOINT_STYLE@),
        colour(DEBUG_EXECUTION_DOT_DARK_STYLE@),
        colour(DEBUG_EXECUTION_DOT_LIGHT_STYLE@),
        colour(DEBUG_PANEL_HEADER_STYLE@),
        colour(DEBUG_PANEL_CHANGED_DARK_STYLE@),
        colour(DEBUG_PANEL_CHANGED_LIGHT_STYLE@),
        colour(DEBUG_EXECUTION_ARROW_DARK_STYLE@),
        colour(DEBUG_EXECUTION_ARROW_LIGHT_STYLE@),
        colour(DEBUG_CURRENT_LINE_DARK_STYLE@),
        colour(DEBUG_CURRENT_LINE_LIGHT_STYLE@),
{
    reveal_strlit("\x1b[48;5;236m");
    reveal_strlit("\x1b[48;5;254m");
    let dark_line = seq!['\x1b', '[', '4', '8', ';', '5', ';', '2', '3', '6', 'm'];
    let light_line = seq!['\x1b', '[', '4', '8', ';', '5', ';', '2', '5', '4', 'm'];
    reveal_with_fuel(params_from, 10);
    lemma_sgr_literal(dark_line);
    lemma_sgr_literal(light_line);
    assert(DEBUG_CURRENT_LINE_DARK_STYLE@ =~= dark_line);
    assert(DEBUG_CURRENT_LINE_LIGHT_STYLE@ =~= light_line);
    reveal_strlit("\x1b[0m");
    reveal_strlit("\x1b[38;5;21m");
    reveal_strlit("\x1b[30m\x1b[48;5;250m");
    reveal_strlit("\x1b[1m\x1b[31m");
    reveal_strlit("\x1b[1m\x1b[38;5;41m");
    reveal_strlit("\x1b[1m\x1b[38;5;45m");
    reveal_strlit("\x1b[1m\x1b[38;5;226m");
    reveal_strlit("\x1b[1m\x1b[38;5;202m");
    reveal_with_fuel(params_from, 10);
    let reset = seq!['\x1b', '[', '0', 'm'];
    let bold = seq!['\x1b', '[', '1', 'm'];
    lemma_sgr_literal(reset);
    lemma_sgr_literal(bold);
    assert(RESET@ =~= reset);
    let key = seq!['\x1b', '[', '3', '8', ';', '5', ';', '2', '1', 'm'];
    lemma_sgr_literal(key);
    assert(STATUS_KEY_STYLE@ =~= key);
    let fg = seq!['\x1b', '[', '3', '0', 'm'];
    let bg = seq!['\x1b', '[', '4', '8', ';', '5', ';', '2', '5', '0', 'm'];
    lemma_sgr_literal(fg);
    lemma_sgr_literal(bg);
    lemma_colour_concat(fg, bg);
    assert(STATUS_BAR_STYLE@ =~= fg + bg);
    let red = seq!['\x1b', '[', '3', '1', 'm'];
    lemma_sgr_literal(red);
    lemma_colour_concat(bold, red);
    assert(DEBUG_BREAKPOINT_STYLE@ =~= bold + red);
    let green = seq!['\x1b', '[', '3', '8', ';', '5', ';', '4', '1', 'm'];
    lemma_sgr_literal(green);
    lemma_colour_concat(bold, green);
    assert(DEBUG_EXECUTION_DOT_DARK_STYLE@ =~= bold + green);
    assert(DEBUG_EXECUTION_DOT_LIGHT_STYLE@ =~= bold + green);
    let cyan = seq!['\x1b', '[', '3', '8', ';', '5', ';', '4', '5', 'm'];
    lemma_sgr_literal(cyan);
    lemma_colour_concat(bold, cyan);
    assert(DEBUG_PANEL_HEADER_STYLE@ =~= bold + cyan);
    let yellow = seq!['\x1b', '[', '3', '8', ';', '5', ';', '2', '2', '6', 'm'];
    lemma_sgr_literal(yellow);
    lemma_colour_concat(bold, yellow);
    assert(DEBUG_PANEL_CHANGED_DARK_STYLE@ =~= bold + yellow);
    assert(DEBUG_EXECUTION_ARROW_DARK_STYLE@ =~= bold + yellow);
    let orange = seq!['\x1b', '[', '3', '8', ';', '5', ';', '2', '0', '2', 'm'];
    lemma_sgr_literal(orange);
    lemma_colour_concat(bold, orange);
    assert(DEBUG_PANEL_CHANGED_LIGHT_STYLE@ =~= bold + orange);
    assert(DEBUG_EXECUTION_ARROW_LIGHT_STYLE@ =~= bold + orange);
}

/// Styled text takes the cells of the text alone.
proof fn lemma_styled_width(style: Seq<char>, text: Seq<char>)
    requires
        colour(style),
        plain(text),
        colour(RESET@),
    ensures
        closed_from(styled(style, text), 0),
        cells(styled(style, text)) == text.len(),
{
    lemma_plain_width(text);
    lemma_closed_concat(style, text);
    lemma_closed_concat(style + text, RESET@);
}

proof fn lemma_keys_styled_width(s: Seq<char>, i: int)
    requires
        plain(s),
        0 <= i <= s.len(),
        colour(STATUS_KEY_STYLE@),
        colour(STATUS_BAR_STYLE@),
    ensures
        closed_from(keys_styled(s, i), 0),
        cells(keys_styled(s, i)) == s.len() - i,
    decreases s.len() - i,
{
    if i == s.len() {
        assert(keys_styled(s, i) =~= Seq::<char>::empty());
    } else {
        let taken = match key_token_len(s, i) {
            Some(n) => n > 0 && i + n <= s.len(),
            None => false,
        };
        if taken {
            let n = key_token_len(s, i)->0;
            lemma_keys_styled_width(s, i + n);
            let token = s.subrange(i, i + n);
            assert(plain(token)) by {
                assert forall|k: int| 0 <= k < token.len() implies #[trigger] token[k] != '\x1b' by {
                    assert(token[k] == s[i + k]);
                }
            }
            lemma_plain_width(token);
            lemma_closed_concat(STATUS_KEY_STYLE@, token);
            lemma_closed_concat(STATUS_KEY_STYLE@ + token, STATUS_BAR_STYLE@);
            lemma_closed_concat(STATUS_KEY_STYLE@ + token + STATUS_BAR_STYLE@, keys_styled(s, i + n));
        } else {
            lemma_keys_styled_width(s, i + 1);
            let one = seq![s[i]];
            assert(plain(one));
            lemma_plain_width(one);
            lemma_closed_concat(one, keys_styled(s, i + 1));
            assert(keys_styled(s, i) == one + keys_styled(s, i + 1));
        }
    }
}

/// Colouring the key names of the status bar leaves its width unchanged.
pub proof fn status_key_styling_keeps_width(text: Seq<char>)
    requires
        plain(text),
    ensures
        cells(keys_styled(text, 0)) == text.len(),
{
    lemma_styles_are_colours();
    lemma_keys_styled_width(text, 0);
}

/// The editor and debugger gutter always takes three cells, plain or
/// coloured, in either theme.
pub proof fn gutter_takes_three_cells(breakpoint: bool, current: bool, viewed: bool, theme: SyntaxTheme)
    ensures
        cells(gutter_plain(breakpoint, current, viewed)) == 3,
        cells(gutter_styled(breakpoint, current, viewed, theme)) == 3,
{
    lemma_styles_are_colours();
    let p = gutter_plain(breakpoint, current, viewed);
    assert(plain(p));
    lemma_plain_width(p);
    let bullet = seq![BULLET];
    let arrow = seq![ARROW];
    let space = seq![' '];
    assert(plain(bullet));
    assert(plain(arrow));
    assert(plain(space));
    lemma_plain_width(space);
    lemma_styled_width(DEBUG_BREAKPOINT_STYLE@, bullet);
    lemma_styled_width(DEBUG_BREAKPOINT_STYLE@, arrow);
    lemma_styled_width(DEBUG_EXECUTION_DOT_DARK_STYLE@, bullet);
    lemma_styled_width(DEBUG_EXECUTION_DOT_LIGHT_STYLE@, bullet);
    let first = if breakpoint { styled(DEBUG_BREAKPOINT_STYLE@, bullet) } else { space };
    let last = if current {
        styled((if theme == SyntaxTheme::Dark { DEBUG_EXECUTION_DOT_DARK_STYLE@ } else { DEBUG_EXECUTION_DOT_LIGHT_STYLE@ }), bullet)
    } else if viewed {
        styled(DEBUG_BREAKPOINT_STYLE@, arrow)
    } else {
        space
    };
    lemma_closed_concat(first, space);
    lemma_closed_concat(first + space, last);
    assert(gutter_styled(breakpoint, current, viewed, theme) == first + space + last);
}

proof fn lemma_plain_subrange(s: Seq<char>, a: int, b: int)
    requires
        plain(s),
        0 <= a <= b <= s.len(),
    ensures
        plain(s.subrange(a, b)),
        closed_from(s.subrange(a, b), 0),
        cells(s.subrange(a, b)) == b - a,
{
    let t = s.subrange(a, b);
    assert forall|k: int| 0 <= k < t.len() implies #[trigger] t[k] != '\x1b' by {
        assert(t[k] == s[a + k]);
    }
    lemma_plain_width(t);
}

proof fn lemma_styled_cell_width(cell: Seq<char>, theme: SyntaxTheme)
    requires
        plain(cell),
        colour(RESET@),
        colour(DEBUG_PANEL_HEADER_STYLE@),
        colour(DEBUG_PANEL_CHANGED_DARK_STYLE@),
        colour(DEBUG_PANEL_CHANGED_LIGHT_STYLE@),
    ensures
        closed_from(styled_cell(cell, theme), 0),
        cells(styled_cell(cell, theme)) == cell.len(),
{
    lemma_plain_width(cell);
    lemma_styled_width(DEBUG_PANEL_HEADER_STYLE@, cell);
    lemma_styled_width(DEBUG_PANEL_CHANGED_DARK_STYLE@, cell);
    lemma_styled_width(DEBUG_PANEL_CHANGED_LIGHT_STYLE@, cell);
}

proof fn lemma_panel_columns_width(l: Seq<char>, col: int, count: int, cw: int, copied: int, theme: SyntaxTheme)
    requires
        plain(l),
        cw >= 0,
        0 <= copied <= l.len(),
        colour(RESET@),
        colour(DEBUG_PANEL_HEADER_STYLE@),
        colour(DEBUG_PANEL_CHANGED_DARK_STYLE@),
        colour(DEBUG_PANEL_CHANGED_LIGHT_STYLE@),
    ensures
        closed_from(panel_columns(l, col, count, cw, copied, theme), 0),
        cells(panel_columns(l, col, count, cw, copied, theme)) == l.len() - copied,
    decreases count - col,
{
    let start = col * (cw + 3);
    if col >= count || col < 0 || start >= l.len() || copied > start || copied < 0 {
        lemma_plain_subrange(l, copied, l.len() as int);
    } else {
        let end = if start + cw < l.len() { start + cw } else { l.len() as int };
        lemma_plain_subrange(l, copied, start);
        lemma_plain_subrange(l, start, end);
        lemma_styled_cell_width(l.subrange(start, end), theme);
        lemma_panel_columns_width(l, col + 1, count, cw, end, theme);
        let a = l.subrange(copied, start);
        let b = styled_cell(l.subrange(start, end), theme);
        let c = panel_columns(l, col + 1, count, cw, end, theme);
        lemma_closed_concat(a, b);
        lemma_closed_concat(a + b, c);
        assert(panel_columns(l, col, count, cw, copied, theme) == a + b + c);
    }
}

/// A line of the debugger's panel takes exactly the panel's width once its
/// headings and changed values are coloured.
pub proof fn panel_styling_keeps_width(line: Seq<char>, width: int, ansi: bool, theme: SyntaxTheme)
    requires
        plain(line),
        width >= 0,
    ensures
        cells(styled_panel_line(line, width, ansi, theme)) == width,
{
    lemma_styles_are_colours();
    let l = fit(line, width);
    assert(plain(l)) by {
        assert forall|k: int| 0 <= k < l.len() implies #[trigger] l[k] != '\x1b' by {
            if k < line.len() {
                assert(l[k] == line[k]);
            } else {
                assert(l[k] == ' ');
            }
        }
    }
    assert(l.len() == width);
    lemma_plain_width(l);
    if ansi && width != 0 {
        let count = column_count(width);
        let cw = column_width(width, count);
        assert(cw >= 1);
        lemma_panel_columns_width(l, 0, count, cw, 0, theme);
    }
}

/// A character in front of text that does not start an escape sequence
/// with it adds one cell.
proof fn lemma_cons_width(c: char, r: Seq<char>)
    requires
        !(c == '\x1b' && r.len() > 0 && r[0] == '['),
    ensures
        cells(seq![c] + r) == 1 + cells(r),
{
    let s = seq![c] + r;
    assert(s[0] == c);
    if r.len() > 0 {
        assert(s[1] == r[0]);
    }
    assert(!csi_at(s, 0));
    lemma_shift_width(seq![c], r, 0);
}

/// The first character of the marked text from `i` on.
proof fn lemma_marker_first(s: Seq<char>, i: int, col: int, mc: int, m: Seq<char>)
    requires
        m.len() > 0,
        0 <= i,
    ensures
        marker_from(s, i, col, mc, m).len() > 0 ==> marker_from(s, i, col, mc, m)[0] == s[i] || marker_from(s, i, col, mc, m)[0] == m[0],
        marker_from(s, i, col, mc, m).len() > 0 ==> i < s.len(),
{
    if 0 <= i < s.len() && csi_at(s, i) {
        lemma_csi_end(s, i + 2);
        assert(s.subrange(i, csi_end(s, i + 2))[0] == s[i]);
    }
}

proof fn lemma_csi_piece(s: Seq<char>, i: int)
    requires
        0 <= i,
        csi_at(s, i),
    ensures
        ({
            let e = csi_end(s, i + 2);
            let piece = s.subrange(i, e);
            &&& i + 2 <= e <= s.len()
            &&& cells(piece) == 0
            &&& csi_closes(s, i + 2) ==> closed_from(piece, 0)
            &&& !csi_closes(s, i + 2) ==> e == s.len()
        }),
{
    lemma_csi_end(s, i + 2);
    let e = csi_end(s, i + 2);
    let p = s.subrange(0, i);
    let q = s.subrange(i, s.len() as int);
    assert(s =~= p + q);
    lemma_shift_csi_end(p, q, 2);
    lemma_shift_closes(p, q, 2);
    let piece = s.subrange(i, e);
    let rest = s.subrange(e, s.len() as int);
    assert(q =~= piece + rest);
    assert(q[0] == '\x1b' && q[1] == '[');
    lemma_closes_or_end(q, 2);
    if csi_closes(q, 2) {
        lemma_closes_piece(piece, rest, 2);
        lemma_csi_closes_end(piece, rest, 2);
        assert(csi_at(piece, 0));
        assert(closed_from(piece, piece.len() as int));
        assert(width_from(piece, piece.len() as int) == 0);
    } else {
        assert(rest.len() == 0);
        assert(piece =~= q);
        assert(csi_at(piece, 0));
        assert(width_from(piece, piece.len() as int) == 0);
    }
}

proof fn lemma_closes_or_end(q: Seq<char>, k: int)
    requires
        0 <= k <= q.len(),
    ensures
        !csi_closes(q, k) ==> csi_end(q, k) == q.len(),
        csi_closes(q, k) ==> csi_end(q, k) <= q.len(),
    decreases q.len() - k,
{
    if k < q.len() && !is_alpha(q[k]) {
        lemma_closes_or_end(q, k + 1);
    }
}

/// The escape sequence whose parameters start at `k` of `q = piece + rest`
/// ends with the piece, so it closes inside the piece too.
proof fn lemma_closes_piece(piece: Seq<char>, rest: Seq<char>, k: int)
    requires
        0 <= k <= piece.len(),
        csi_closes(piece + rest, k),
        csi_end(piece + rest, k) == piece.len(),
    ensures
        csi_closes(piece, k),
        csi_end(piece, k) == piece.len(),
    decreases piece.len() - k,
{
    let q = piece + rest;
    if k < piece.len() {
        assert(q[k] == piece[k]);
        if !is_alpha(q[k]) {
            lemma_closes_piece(piece, rest, k + 1);
        }
    } else {
        lemma_csi_end(q, k);
        assert(csi_end(q, k) > k || k == q.len());
    }
}

proof fn lemma_marker_width(s: Seq<char>, i: int, col: int, mc: int, m: Seq<char>)
    requires
        0 <= i <= s.len(),
        closed_from(m, 0),
        cells(m) == 1,
        m.len() > 0,
        m[0] != '[',
    ensures
        cells(marker_from(s, i, col, mc, m)) == width_from(s, i),
    decreases s.len() - i,
{
    if i < s.len() {
        if csi_at(s, i) {
            lemma_csi_piece(s, i);
            let e = csi_end(s, i + 2);
            let piece = s.subrange(i, e);
            lemma_marker_width(s, e, col, mc, m);
            let rest = marker_from(s, e, col, mc, m);
            if csi_closes(s, i + 2) {
                lemma_width_concat(piece, rest);
            } else {
                assert(rest =~= Seq::<char>::empty());
                assert(piece + rest =~= piece);
            }
        } else {
            lemma_marker_width(s, i + 1, col + 1, mc, m);
            let rest = marker_from(s, i + 1, col + 1, mc, m);
            lemma_marker_first(s, i + 1, col + 1, mc, m);
            if col == mc && s[i] == DEBUG_STATEMENT_PLACEHOLDER {
                lemma_width_concat(m, rest);
            } else {
                if s[i] == '\x1b' && rest.len() > 0 {
                    assert(i + 1 < s.len());
                    assert(s[i + 1] != '[');
                }
                lemma_cons_width(s[i], rest);
            }
        }
    } else {
        assert(marker_from(s, i, col, mc, m) =~= Seq::<char>::empty());
    }
}

/// Placing the execution arrow on a rendered source line keeps its width,
/// plain or coloured, in either theme.
pub proof fn execution_marker_keeps_width(rendered: Seq<char>, marker_col: int, ansi: bool, theme: SyntaxTheme)
    ensures
        cells(marker_from(rendered, 0, 0, marker_col, if ansi {
            styled(
                (if theme == SyntaxTheme::Dark {
                    DEBUG_EXECUTION_ARROW_DARK_STYLE@
                } else {
                    DEBUG_EXECUTION_ARROW_LIGHT_STYLE@
                }),
                seq![ARROW],
            )
        } else {
            seq![ARROW]
        })) == cells(rendered),
{
    lemma_styles_are_colours();
    let arrow = seq![ARROW];
    assert(plain(arrow));
    lemma_plain_width(arrow);
    lemma_styled_width(DEBUG_EXECUTION_ARROW_DARK_STYLE@, arrow);
    lemma_styled_width(DEBUG_EXECUTION_ARROW_LIGHT_STYLE@, arrow);
    reveal_strlit("\x1b[1m\x1b[38;5;226m");
    reveal_strlit("\x1b[1m\x1b[38;5;202m");
    let m = if ansi {
        styled(
            (if theme == SyntaxTheme::Dark { DEBUG_EXECUTION_ARROW_DARK_STYLE@ } else { DEBUG_EXECUTION_ARROW_LIGHT_STYLE@ }),
            arrow,
        )
    } else {
        arrow
    };
    assert(m.len() > 0 && m[0] != '[');
    lemma_marker_width(rendered, 0, 0, marker_col, m);
}

/// Reading `s` from `i` on passes through position `k`.
pub open spec fn reaches(s: Seq<char>, i: int, k: int) -> bool
    decreases s.len() - i,
{
    if i == k {
        true
    } else if i > k || i < 0 || i >= s.len() {
        false
    } else if csi_at(s, i) {
        proof {
            lemma_csi_end(s, i + 2);
        }
        reaches(s, csi_end(s, i + 2), k)
    } else {
        reaches(s, i + 1, k)
    }
}

proof fn lemma_reaches_le(s: Seq<char>, i: int, k: int)
    requires
        reaches(s, i, k),
    ensures
        i <= k,
    decreases s.len() - i,
{
    if i != k && 0 <= i < s.len() && i <= k {
        if csi_at(s, i) {
            lemma_csi_end(s, i + 2);
            lemma_reaches_le(s, csi_end(s, i + 2), k);
        } else {
            lemma_reaches_le(s, i + 1, k);
        }
    }
}

proof fn lemma_find_from_match(s: Seq<char>, t: Seq<char>, k: int)
    requires
        t.len() > 0,
    ensures
        find_from(s, t, k) matches Some(p) ==> s.subrange(p, p + t.len()) == t,
    decreases s.len() - k,
{
    if 0 <= k && k + t.len() <= s.len() && s.subrange(k, k + t.len()) != t {
        lemma_find_from_match(s, t, k + 1);
    }
}

/// Cutting a closed text where its reading passes splits its cells.
proof fn lemma_split_at_reach(s: Seq<char>, i: int, k: int)
    requires
        0 <= i <= k <= s.len(),
        closed_from(s, i),
        reaches(s, i, k),
    ensures
        closed_from(s.subrange(i, k), 0),
        cells(s.subrange(i, k)) + width_from(s, k) == width_from(s, i),
        closed_from(s, k),
    decreases s.len() - i,
{
    if i == k {
        assert(s.subrange(i, k) =~= Seq::<char>::empty());
    } else if csi_at(s, i) {
        lemma_csi_end(s, i + 2);
        let e = csi_end(s, i + 2);
        lemma_reaches_le(s, e, k);
        lemma_split_at_reach(s, e, k);
        lemma_csi_piece(s, i);
        let a = s.subrange(i, e);
        let b = s.subrange(e, k);
        lemma_closed_concat(a, b);
        assert(s.subrange(i, k) =~= a + b);
    } else {
        assert(s[i] != '\x1b');
        lemma_split_at_reach(s, i + 1, k);
        let a = seq![s[i]];
        let b = s.subrange(i + 1, k);
        assert(plain(a));
        lemma_plain_width(a);
        lemma_closed_concat(a, b);
        assert(s.subrange(i, k) =~= a + b);
    }
}

/// Reading a closed text passes through its end.
proof fn lemma_reaches_end(s: Seq<char>, i: int)
    requires
        0 <= i <= s.len(),
        closed_from(s, i),
    ensures
        reaches(s, i, s.len() as int),
    decreases s.len() - i,
{
    if i < s.len() {
        if csi_at(s, i) {
            lemma_csi_end(s, i + 2);
            lemma_closes_or_end(s, i + 2);
            lemma_reaches_end(s, csi_end(s, i + 2));
        } else {
            lemma_reaches_end(s, i + 1);
        }
    }
}

/// No letter between `j` and the end of the escape sequence read from `j`,
/// when it ends after `p`.
proof fn lemma_no_alpha_before_end(s: Seq<char>, j: int, p: int)
    requires
        0 <= j <= p < s.len(),
        csi_end(s, j) > p + 1 || (csi_end(s, j) > p && !is_alpha(s[p])),
    ensures
        forall|q: int| j <= q <= p ==> !is_alpha(#[trigger] s[q]),
    decreases p - j,
{
    if is_alpha(s[j]) {
        assert(csi_end(s, j) == j + 1);
    } else if j < p {
        lemma_no_alpha_before_end(s, j + 1, p);
    }
}

proof fn lemma_end_after_params(s: Seq<char>, j: int, last: int)
    requires
        0 <= j <= last < s.len(),
        is_alpha(s[last]),
        forall|q: int| j <= q < last ==> !is_alpha(#[trigger] s[q]),
    ensures
        csi_end(s, j) == last + 1,
    decreases last - j,
{
    if j < last {
        assert(!is_alpha(s[j]));
        lemma_end_after_params(s, j + 1, last);
    }
}

/// A reset sequence at `p` is passed through by any reading from before it.
proof fn lemma_reset_reached(s: Seq<char>, i: int, p: int)
    requires
        0 <= i <= p,
        p + 4 <= s.len(),
        s[p] == '\x1b',
        s[p + 1] == '[',
        s[p + 2] == '0',
        s[p + 3] == 'm',
        closed_from(s, i),
    ensures
        reaches(s, i, p + 4),
    decreases p - i,
{
    if i == p {
        lemma_end_after_params(s, p + 2, p + 3);
        assert(csi_at(s, p));
        assert(reaches(s, p + 4, p + 4));
    } else if csi_at(s, i) {
        lemma_csi_end(s, i + 2);
        let e = csi_end(s, i + 2);
        if e <= p {
            lemma_reset_reached(s, e, p);
        } else {
            assert(p >= i + 2);
            lemma_no_alpha_before_end(s, i + 2, p);
            assert forall|q: int| i + 2 <= q < p + 3 implies !is_alpha(#[trigger] s[q]) by {
                if q > p {
                    assert(q == p + 1 || q == p + 2);
                }
            }
            lemma_end_after_params(s, i + 2, p + 3);
            assert(reaches(s, p + 4, p + 4));
        }
    } else {
        assert(s[i] != '\x1b');
        lemma_reset_reached(s, i + 1, p);
    }
}

proof fn lemma_restyle_width(s: Seq<char>, i: int, style: Seq<char>)
    requires
        0 <= i <= s.len(),
        closed_from(s, i),
        colour(style),
        RESET@ =~= seq!['\x1b', '[', '0', 'm'],
    ensures
        closed_from(restyle_from(s, i, style), 0),
        cells(restyle_from(s, i, style)) == width_from(s, i),
    decreases s.len() - i,
{
    lemma_find_from(s, RESET@, i);
    lemma_find_from_match(s, RESET@, i);
    match find_from(s, RESET@, i) {
        Some(p) => {
            let r = RESET@;
            assert(s.subrange(p, p + 4) == r);
            assert(s[p] == s.subrange(p, p + 4)[0]);
            assert(s[p + 1] == s.subrange(p, p + 4)[1]);
            assert(s[p + 2] == s.subrange(p, p + 4)[2]);
            assert(s[p + 3] == s.subrange(p, p + 4)[3]);
            lemma_reset_reached(s, i, p);
            lemma_split_at_reach(s, i, p + 4);
            lemma_restyle_width(s, p + 4, style);
            let a = s.subrange(i, p + 4);
            let rest = restyle_from(s, p + 4, style);
            lemma_closed_concat(a, style);
            lemma_closed_concat(a + style, rest);
        },
        None => {
            lemma_reaches_end(s, i);
            lemma_split_at_reach(s, i, s.len() as int);
            assert(width_from(s, s.len() as int) == 0);
        },
    }
}

/// The executing line, coloured, takes at least the view's width: its
/// background survives every reset and the padding fills the rest. Plain,
/// it is fitted to the width.
pub proof fn execution_line_fills_width(s: Seq<char>, width: int, theme: SyntaxTheme)
    requires
        closed_from(s, 0),
        width >= 0,
    ensures
        cells(execution_line(s, true, width, theme)) == if cells(s) < width { width } else { cells(s) },
        plain(s) ==> cells(execution_line(s, false, width, theme)) == width,
{
    lemma_styles_are_colours();
    reveal_strlit("\x1b[0m");
    assert(RESET@ =~= seq!['\x1b', '[', '0', 'm']);
    let style = if theme == SyntaxTheme::Dark { DEBUG_CURRENT_LINE_DARK_STYLE@ } else { DEBUG_CURRENT_LINE_LIGHT_STYLE@ };
    lemma_restyle_width(s, 0, style);
    let w = width_from(s, 0);
    let pad = if w < width { crate::text::repeat_char(' ', (width - w) as nat) } else { Seq::<char>::empty() };
    assert(plain(pad));
    lemma_plain_width(pad);
    let body = restyle_from(s, 0, style);
    lemma_closed_concat(style, body);
    lemma_closed_concat(style + body, pad);
    lemma_closed_concat(style + body + pad, RESET@);
    assert(execution_line(s, true, width, theme) == style + body + pad + RESET@);
    if plain(s) {
        let l = fit(s, width);
        assert(plain(l)) by {
            assert forall|k: int| 0 <= k < l.len() implies #[trigger] l[k] != '\x1b' by {
                if k < s.len() {
                    assert(l[k] == s[k]);
                } else {
                    assert(l[k] == ' ');
                }
            }
        }
        lemma_plain_width(l);
    }
}

} // verus!
