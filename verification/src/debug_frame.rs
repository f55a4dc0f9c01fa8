//! The rows of the full-screen editor and of the debugger's code region:
//! the visible part of each line highlighted, with the selection, or with
//! the gutter, the execution marker and padding to the region's width.
use std::collections::HashSet;
use vstd::prelude::*;
use crate::debug_view::{
    debug_source_window, gutter_plain, gutter_styled, opt_range,
    render_editor_gutter_for_theme, source_window, statement_col, styled, SyntaxTheme, ARROW,
    DEBUG_EXECUTION_ARROW_DARK_STYLE, DEBUG_EXECUTION_ARROW_LIGHT_STYLE,
};
use crate::highlight::{highlighted_raw, syntax_highlight_raw_with_cases, theme_styles};
use crate::normalize::BasicWords;
use crate::renumber::{editor_line_number, line_number_of};
use crate::screen_text::{
    apply_debug_execution_line_style, execution_line, finish_debug_statement_marker_for_theme,
    apply_selection_to_rendered, marker_from, visible_width, width_from, with_selection,
};
use crate::text::{push_repeated, repeat_char, str_chars, string_from_chars};

verus! {

broadcast use vstd::std_specs::hash::group_hash_axioms;

/// The execution marker as the row shows it.
pub open spec fn arrow_marker(ansi: bool, theme: SyntaxTheme) -> Seq<char> {
    if ansi {
        styled(
            (if theme == SyntaxTheme::Dark {
                DEBUG_EXECUTION_ARROW_DARK_STYLE@
            } else {
                DEBUG_EXECUTION_ARROW_LIGHT_STYLE@
            }),
            seq![ARROW],
        )
    } else {
        seq![ARROW]
    }
}

/// The part of `line` from column `left` that fits in `width` columns.
pub open spec fn window_of(line: Seq<char>, left: int, width: int) -> Seq<char> {
    let a = if left < line.len() {
        left
    } else {
        line.len() as int
    };
    let b = if left + width < line.len() {
        left + width
    } else {
        line.len() as int
    };
    line.subrange(a, b)
}

/// Blanks from `width` up to `cols`.
pub open spec fn padding(width: int, cols: int) -> Seq<char> {
    if width < cols {
        repeat_char(' ', (cols - width) as nat)
    } else {
        Seq::empty()
    }
}

/// The row that shows program line `line`: its gutter (breakpoint, the
/// current line, the cursor line) when there is one, the visible part of
/// the line highlighted — for the line that executes, with the marker
/// before the statement that runs next and the current-line background —
/// and blanks up to `region_cols`.
pub open spec fn code_row(
    words: BasicWords,
    line: Seq<char>,
    viewed: bool,
    breakpoints: Set<i32>,
    at_line: i32,
    statement: int,
    span: Option<std::ops::Range<usize>>,
    left: int,
    code_cols: int,
    gutter_width: int,
    region_cols: int,
    ansi: bool,
    theme: SyntaxTheme,
) -> Seq<char> {
    let number = line_number_of(line);
    let current = number == Some(at_line);
    let breakpoint = match number {
        Some(n) => breakpoints.contains(n),
        None => false,
    };
    let gutter = if gutter_width > 0 {
        if ansi {
            gutter_styled(breakpoint, current, viewed, theme)
        } else {
            gutter_plain(breakpoint, current, viewed)
        }
    } else {
        Seq::empty()
    };
    let (visible, marker) = if current {
        source_window(line, left, code_cols, statement_col(line, statement, span))
    } else {
        (window_of(line, left, code_cols), None)
    };
    let highlighted = highlighted_raw(words, theme_styles(theme), visible, ansi, Seq::empty());
    let marked = match marker {
        Some(c) => marker_from(highlighted, 0, 0, c, arrow_marker(ansi, theme)),
        None => highlighted,
    };
    let body = if current {
        execution_line(marked, ansi, code_cols, theme)
    } else {
        marked
    };
    let width = (if gutter_width > 0 {
        gutter_width
    } else {
        0
    }) + width_from(body, 0);
    gutter + body + padding(width, region_cols)
}

/// A row below the last program line: a blank gutter and blanks up to
/// `region_cols`.
pub open spec fn blank_row(gutter_width: int, region_cols: int) -> Seq<char> {
    repeat_char(' ', gutter_width as nat) + padding(gutter_width, region_cols)
}

/// Appends blanks from `width` up to `cols`.
fn pad(out: &mut Vec<char>, width: usize, cols: usize)
    ensures
        final(out)@ == old(out)@ + padding(width as int, cols as int),
{
    if width < cols {
        push_repeated(out, ' ', cols - width);
    } else {
        assert(old(out)@ + padding(width as int, cols as int) =~= old(out)@);
    }
}

/// The row of the debugger's code region that shows `line`.
pub fn debug_code_row(
    words: &BasicWords,
    line: &[char],
    viewed: bool,
    breakpoints: &HashSet<i32>,
    at_line: i32,
    statement: usize,
    span: Option<&std::ops::Range<usize>>,
    left_col: usize,
    code_cols: usize,
    gutter_width: usize,
    region_cols: usize,
    ansi: bool,
    theme: SyntaxTheme,
) -> (r: String)
    ensures
        r@ == code_row(
            *words,
            line@,
            viewed,
            breakpoints@,
            at_line,
            statement as int,
            opt_range(span),
            left_col as int,
            code_cols as int,
            gutter_width as int,
            region_cols as int,
            ansi,
            theme,
        ),
{
    let number = editor_line_number(line);
    let current = number == Some(at_line);
    let breakpoint = match number {
        Some(n) => breakpoints.contains(&n),
        None => false,
    };
    let mut out: Vec<char> = Vec::new();
    if gutter_width > 0 {
        let gutter = render_editor_gutter_for_theme(ansi, breakpoint, current, viewed, theme);
        out = str_chars(gutter.as_str());
    }
    let ghost gutter_part = out@;
    let (visible, marker) = if current {
        debug_source_window(line, left_col, code_cols, statement, span)
    } else {
        let a = if left_col < line.len() {
            left_col
        } else {
            line.len()
        };
        let b = if left_col < line.len() && code_cols < line.len() - left_col {
            left_col + code_cols
        } else {
            line.len()
        };
        let part = crate::text::chars_range(line, a, b);
        assert(part@ == window_of(line@, left_col as int, code_cols as int));
        (string_from_chars(&part), None)
    };
    let no_cases: Vec<(String, String)> = Vec::new();
    let highlighted = syntax_highlight_raw_with_cases(words, visible.as_str(), ansi, no_cases.as_slice(), theme);
    let marked = match marker {
        Some(c) => finish_debug_statement_marker_for_theme(highlighted.as_str(), ansi, c, theme),
        None => highlighted,
    };
    let body = if current {
        apply_debug_execution_line_style(marked.as_str(), ansi, code_cols, theme)
    } else {
        marked
    };
    let body_width = visible_width(body.as_str());
    crate::text::extend_with_str(&mut out, body.as_str());
    let gutter_cols = if gutter_width > 0 {
        gutter_width
    } else {
        0
    };
    let ghost before_pad = out@;
    if body_width < region_cols && gutter_cols < region_cols - body_width {
        push_repeated(&mut out, ' ', region_cols - body_width - gutter_cols);
    }
    assert(out@ =~= before_pad + padding(gutter_cols + body_width, region_cols as int));
    string_from_chars(&out)
}

/// A row of the debugger's code region below the last program line.
pub fn debug_blank_row(gutter_width: usize, region_cols: usize) -> (r: String)
    ensures
        r@ == blank_row(gutter_width as int, region_cols as int),
{
    let mut out: Vec<char> = Vec::new();
    push_repeated(&mut out, ' ', gutter_width);
    pad(&mut out, gutter_width, region_cols);
    string_from_chars(&out)
}

/// The selected columns `selection` of a line as they fall in its visible
/// part from column `left`, `count` characters wide: none when the
/// selection misses the window or becomes empty.
pub open spec fn visible_selection(selection: Option<(usize, usize)>, left: int, cols: int, count: int) -> Option<(usize, usize)> {
    match selection {
        None => None,
        Some((start, end)) => {
            let window_end = if left + cols <= usize::MAX {
                left + cols
            } else {
                usize::MAX as int
            };
            if end <= left || start >= window_end {
                None
            } else {
                let a = if start - left < 0 {
                    0
                } else if start - left < count {
                    start - left
                } else {
                    count
                };
                let b = if end - left < 0 {
                    0
                } else if end - left < count {
                    end - left
                } else {
                    count
                };
                if a < b {
                    Some((a as usize, b as usize))
                } else {
                    None
                }
            }
        },
    }
}

/// The row of the full-screen editor that shows `line`: its part from
/// column `left`, `cols` wide, highlighted with the identifier spellings
/// of `cases`, with the selected columns `selection` marked.
pub open spec fn editor_row(
    words: BasicWords,
    line: Seq<char>,
    left: int,
    cols: int,
    selection: Option<(usize, usize)>,
    cases: Seq<(String, String)>,
    ansi: bool,
    theme: SyntaxTheme,
) -> Seq<char> {
    let visible = window_of(line, left, cols);
    let shown = highlighted_raw(words, theme_styles(theme), visible, ansi, cases);
    with_selection(shown, ansi, visible_selection(selection, left, cols, visible.len() as int))
}

/// The row of the full-screen editor that shows `line`.
pub fn editor_code_row(
    words: &BasicWords,
    line: &[char],
    left_col: usize,
    code_cols: usize,
    selection: Option<(usize, usize)>,
    cases: &[(String, String)],
    ansi: bool,
    theme: SyntaxTheme,
) -> (r: String)
    ensures
        r@ == editor_row(*words, line@, left_col as int, code_cols as int, selection, cases@, ansi, theme),
{
    let a = if left_col < line.len() {
        left_col
    } else {
        line.len()
    };
    let b = if left_col < line.len() && code_cols < line.len() - left_col {
        left_col + code_cols
    } else {
        line.len()
    };
    let part = crate::text::chars_range(line, a, b);
    assert(part@ == window_of(line@, left_col as int, code_cols as int));
    let count = part.len();
    let visible = string_from_chars(&part);
    let shown = syntax_highlight_raw_with_cases(words, visible.as_str(), ansi, cases, theme);
    let window_end = left_col.saturating_add(code_cols);
    let chosen = match selection {
        None => None,
        Some((start, end)) => {
            if end <= left_col || start >= window_end {
                None
            } else {
                let from = start.saturating_sub(left_col);
                let to = end.saturating_sub(left_col);
                let a = if from < count {
                    from
                } else {
                    count
                };
                let b = if to < count {
                    to
                } else {
                    count
                };
                if a < b {
                    Some((a, b))
                } else {
                    None
                }
            }
        },
    };
    assert(chosen == visible_selection(selection, left_col as int, code_cols as int, count as int));
    apply_selection_to_rendered(shown.as_str(), ansi, chosen)
}

} // verus!
