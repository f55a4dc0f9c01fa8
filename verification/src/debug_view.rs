//! Layout and styling of the full-screen editor and debugger views.
use vstd::prelude::*;

verus! {

/// `n`, or 1 when it is 0.
pub open spec fn at_least_one(n: usize) -> usize {
    if n > 1 {
        n
    } else {
        1
    }
}

/// `a - b`, or 0 when `b` is larger.
pub open spec fn sat_sub(a: int, b: int) -> int {
    if a > b {
        a - b
    } else {
        0
    }
}

/// `a + b`, or `usize::MAX` when the sum does not fit.
pub open spec fn sat_add(a: int, b: int) -> int {
    if a + b <= usize::MAX {
        a + b
    } else {
        usize::MAX as int
    }
}

} // verus!

verus! {

pub const RESET: &'static str = "\x1b[0m";
pub const KEYWORD_STYLE: &'static str = "\x1b[1m\x1b[3m\x1b[97m";
pub const ERROR_STYLE: &'static str = "\x1b[3m\x1b[31m";
pub const PROMPT_STYLE: &'static str = "\x1b[32m";
pub const COMMENT_STYLE: &'static str = "\x1b[32m";
pub const LINE_NUMBER_STYLE: &'static str = "\x1b[38;5;214m";
pub const VARIABLE_STYLE: &'static str = "\x1b[1m\x1b[38;5;39m";
pub const NUMBER_STYLE: &'static str = "\x1b[38;5;214m";
pub const STRING_STYLE: &'static str = "\x1b[38;5;165m";
pub const HEX_STYLE: &'static str = "\x1b[38;5;229m";
pub const BIN_STYLE: &'static str = "\x1b[38;5;229m";
pub const OTHER_STYLE: &'static str = "\x1b[38;5;248m";
pub const HEADER_STYLE: &'static str = "\x1b[90m";
pub const LIGHT_KEYWORD_STYLE: &'static str = "\x1b[1m\x1b[3m\x1b[30m";
pub const LIGHT_PROMPT_STYLE: &'static str = "\x1b[38;5;34m";
pub const LIGHT_COMMENT_STYLE: &'static str = "\x1b[38;5;34m";
pub const LIGHT_LINE_NUMBER_STYLE: &'static str = "\x1b[38;5;166m";
pub const LIGHT_VARIABLE_STYLE: &'static str = "\x1b[1m\x1b[38;5;33m";
pub const LIGHT_NUMBER_STYLE: &'static str = "\x1b[38;5;166m";
pub const LIGHT_STRING_STYLE: &'static str = "\x1b[38;5;165m";
pub const LIGHT_HEX_STYLE: &'static str = "\x1b[38;5;172m";
pub const LIGHT_BIN_STYLE: &'static str = "\x1b[38;5;172m";
pub const LIGHT_OTHER_STYLE: &'static str = "\x1b[38;5;248m";
pub const LIGHT_HEADER_STYLE: &'static str = "\x1b[38;5;238m";
pub const LIGHT_ERROR_STYLE: &'static str = "\x1b[3m\x1b[38;5;160m";
pub const SELECTION_STYLE: &'static str = "\x1b[7m";
pub const SELECTION_END_STYLE: &'static str = "\x1b[27m";
pub const STATUS_BAR_STYLE: &'static str = "\x1b[30m\x1b[48;5;250m";
pub const STATUS_KEY_STYLE: &'static str = "\x1b[38;5;21m";
pub const DEBUG_BREAKPOINT_STYLE: &'static str = "\x1b[1m\x1b[31m";
pub const DEBUG_EXECUTION_DOT_DARK_STYLE: &'static str = "\x1b[1m\x1b[38;5;41m";
pub const DEBUG_EXECUTION_DOT_LIGHT_STYLE: &'static str = "\x1b[1m\x1b[38;5;41m";
pub const DEBUG_EXECUTION_ARROW_DARK_STYLE: &'static str = "\x1b[1m\x1b[38;5;226m";
pub const DEBUG_EXECUTION_ARROW_LIGHT_STYLE: &'static str = "\x1b[1m\x1b[38;5;202m";
pub const DEBUG_CURRENT_LINE_DARK_STYLE: &'static str = "\x1b[48;5;236m";
pub const DEBUG_CURRENT_LINE_LIGHT_STYLE: &'static str = "\x1b[48;5;254m";
pub const DEBUG_PANEL_HEADER_STYLE: &'static str = "\x1b[1m\x1b[38;5;45m";
pub const DEBUG_PANEL_CHANGED_DARK_STYLE: &'static str = "\x1b[1m\x1b[38;5;226m";
pub const DEBUG_PANEL_CHANGED_LIGHT_STYLE: &'static str = "\x1b[1m\x1b[38;5;202m";
pub const EDITOR_GUTTER_WIDTH: usize = 3;

/// The colour theme of the console.
#[derive(Clone, Copy, Debug, PartialEq, Eq, Structural)]
pub enum SyntaxTheme {
    Dark,
    Light,
}

/// The escape sequences that style each kind of text.
#[derive(Clone, Copy)]
pub struct SyntaxPalette {
    pub keyword: &'static str,
    pub prompt: &'static str,
    pub comment: &'static str,
    pub line_number: &'static str,
    pub variable: &'static str,
    pub number: &'static str,
    pub string: &'static str,
    pub hex: &'static str,
    pub bin: &'static str,
    pub other: &'static str,
    pub header: &'static str,
    pub error: &'static str,
}

/// The palette of `theme`.
pub fn syntax_palette_for(theme: SyntaxTheme) -> (r: SyntaxPalette)
    ensures
        theme == SyntaxTheme::Dark ==> r.keyword@ == KEYWORD_STYLE@ && r.prompt@ == PROMPT_STYLE@
            && r.comment@ == COMMENT_STYLE@ && r.line_number@ == LINE_NUMBER_STYLE@ && r.variable@
            == VARIABLE_STYLE@ && r.number@ == NUMBER_STYLE@ && r.string@ == STRING_STYLE@ && r.hex@
            == HEX_STYLE@ && r.bin@ == BIN_STYLE@ && r.other@ == OTHER_STYLE@ && r.header@
            == HEADER_STYLE@ && r.error@ == ERROR_STYLE@,
        theme == SyntaxTheme::Light ==> r.keyword@ == LIGHT_KEYWORD_STYLE@ && r.prompt@
            == LIGHT_PROMPT_STYLE@ && r.comment@ == LIGHT_COMMENT_STYLE@ && r.line_number@
            == LIGHT_LINE_NUMBER_STYLE@ && r.variable@ == LIGHT_VARIABLE_STYLE@ && r.number@
            == LIGHT_NUMBER_STYLE@ && r.string@ == LIGHT_STRING_STYLE@ && r.hex@ == LIGHT_HEX_STYLE@
            && r.bin@ == LIGHT_BIN_STYLE@ && r.other@ == LIGHT_OTHER_STYLE@ && r.header@
            == LIGHT_HEADER_STYLE@ && r.error@ == LIGHT_ERROR_STYLE@,
{
    match theme {
        SyntaxTheme::Dark => SyntaxPalette {
            keyword: KEYWORD_STYLE,
            prompt: PROMPT_STYLE,
            comment: COMMENT_STYLE,
            line_number: LINE_NUMBER_STYLE,
            variable: VARIABLE_STYLE,
            number: NUMBER_STYLE,
            string: STRING_STYLE,
            hex: HEX_STYLE,
            bin: BIN_STYLE,
            other: OTHER_STYLE,
            header: HEADER_STYLE,
            error: ERROR_STYLE,
        },
        SyntaxTheme::Light => SyntaxPalette {
            keyword: LIGHT_KEYWORD_STYLE,
            prompt: LIGHT_PROMPT_STYLE,
            comment: LIGHT_COMMENT_STYLE,
            line_number: LIGHT_LINE_NUMBER_STYLE,
            variable: LIGHT_VARIABLE_STYLE,
            number: LIGHT_NUMBER_STYLE,
            string: LIGHT_STRING_STYLE,
            hex: LIGHT_HEX_STYLE,
            bin: LIGHT_BIN_STYLE,
            other: LIGHT_OTHER_STYLE,
            header: LIGHT_HEADER_STYLE,
            error: LIGHT_ERROR_STYLE,
        },
    }
}

/// The theme that a setting names: `light` (any case, surrounding
/// whitespace ignored) is the light theme; anything else, or no setting,
/// the dark one.
pub fn syntax_theme_from_env_value(value: Option<&str>) -> (r: SyntaxTheme)
    ensures
        r == (match value {
            Some(v) => if crate::separators::trim(v@).len() == 5 && crate::editor::eq_ic_seq(
                crate::separators::trim(v@),
                seq!['l', 'i', 'g', 'h', 't'],
            ) {
                SyntaxTheme::Light
            } else {
                SyntaxTheme::Dark
            },
            None => SyntaxTheme::Dark,
        }),
{
    match value {
        Some(v) => {
            let chars = crate::text::str_chars(v);
            let t = crate::separators::trim_chars(&chars);
            let light = crate::text::str_chars("light");
            proof {
                reveal_strlit("light");
                assert(light@ =~= seq!['l', 'i', 'g', 'h', 't']);
            }
            if t.len() == 5 && crate::editor::line_matches_at_ignore_ascii_case(&t, 0, &light) {
                assert(t@.subrange(0, 5) =~= t@);
                SyntaxTheme::Light
            } else {
                proof {
                    if t@.len() == 5 {
                        assert(t@.subrange(0, 5) =~= t@);
                    }
                }
                SyntaxTheme::Dark
            }
        },
        None => SyntaxTheme::Dark,
    }
}

/// `text` wrapped in `style` and the reset sequence.
pub open spec fn styled(style: Seq<char>, text: Seq<char>) -> Seq<char> {
    style + text + RESET@
}

fn styled_string(style: &str, text: &str) -> (r: String)
    ensures
        r@ == styled(style@, text@),
{
    let mut v: Vec<char> = Vec::new();
    crate::text::extend_with_str(&mut v, style);
    crate::text::extend_with_str(&mut v, text);
    crate::text::extend_with_str(&mut v, RESET);
    crate::text::string_from_chars(&v)
}

/// The prompt, in the prompt colour of `theme` when colours are on.
pub fn prompt_text(ansi: bool, plain: &str, theme: SyntaxTheme) -> (r: String)
    ensures
        ansi ==> r@ == styled((if theme == SyntaxTheme::Dark { PROMPT_STYLE@ } else { LIGHT_PROMPT_STYLE@ }), plain@),
        !ansi ==> r@ == plain@,
{
    if ansi {
        let palette = syntax_palette_for(theme);
        styled_string(palette.prompt, plain)
    } else {
        crate::text::string_from_chars(&crate::text::str_chars(plain))
    }
}

/// An error message, in the error colour of `theme` when colours are on.
pub fn error_text(ansi: bool, text: &str, theme: SyntaxTheme) -> (r: String)
    ensures
        ansi ==> r@ == styled((if theme == SyntaxTheme::Dark { ERROR_STYLE@ } else { LIGHT_ERROR_STYLE@ }), text@),
        !ansi ==> r@ == text@,
{
    if ansi {
        let palette = syntax_palette_for(theme);
        styled_string(palette.error, text)
    } else {
        crate::text::string_from_chars(&crate::text::str_chars(text))
    }
}

/// The trace of an executed line, `[line]`, in the line-number colour of
/// `theme` when colours are on.
pub fn trace_text(ansi: bool, line: i32, theme: SyntaxTheme) -> (r: String)
    ensures
        ({
            let text = seq!['['] + crate::text::int_decimal(line as int) + seq![']'];
            &&& ansi ==> r@ == styled((if theme == SyntaxTheme::Dark { LINE_NUMBER_STYLE@ } else { LIGHT_LINE_NUMBER_STYLE@ }), text)
            &&& !ansi ==> r@ == text
        }),
{
    let mut v: Vec<char> = Vec::new();
    v.push('[');
    let digits = crate::text::i32_to_decimal(line);
    crate::text::extend_with_chars(&mut v, &digits);
    v.push(']');
    let ghost text = v@;
    assert(text =~= seq!['['] + crate::text::int_decimal(line as int) + seq![']']);
    if ansi {
        let palette = syntax_palette_for(theme);
        let mut out: Vec<char> = Vec::new();
        crate::text::extend_with_str(&mut out, palette.line_number);
        crate::text::extend_with_chars(&mut out, &v);
        crate::text::extend_with_str(&mut out, RESET);
        crate::text::string_from_chars(&out)
    } else {
        crate::text::string_from_chars(&v)
    }
}

/// The gutter width of a code view `cols` wide: none when too narrow.
pub fn editor_gutter_width(cols: usize) -> (r: usize)
    ensures
        r == (if cols > EDITOR_GUTTER_WIDTH + 1 { EDITOR_GUTTER_WIDTH } else { 0 }),
{
    if cols > EDITOR_GUTTER_WIDTH + 1 {
        EDITOR_GUTTER_WIDTH
    } else {
        0
    }
}

pub fn debug_execution_dot_style(theme: SyntaxTheme) -> (r: &'static str)
    ensures
        r@ == (if theme == SyntaxTheme::Dark { DEBUG_EXECUTION_DOT_DARK_STYLE@ } else { DEBUG_EXECUTION_DOT_LIGHT_STYLE@ }),
{
    match theme {
        SyntaxTheme::Dark => DEBUG_EXECUTION_DOT_DARK_STYLE,
        SyntaxTheme::Light => DEBUG_EXECUTION_DOT_LIGHT_STYLE,
    }
}

pub fn debug_execution_arrow_style(theme: SyntaxTheme) -> (r: &'static str)
    ensures
        r@ == (if theme == SyntaxTheme::Dark { DEBUG_EXECUTION_ARROW_DARK_STYLE@ } else { DEBUG_EXECUTION_ARROW_LIGHT_STYLE@ }),
{
    match theme {
        SyntaxTheme::Dark => DEBUG_EXECUTION_ARROW_DARK_STYLE,
        SyntaxTheme::Light => DEBUG_EXECUTION_ARROW_LIGHT_STYLE,
    }
}

pub fn debug_panel_changed_style(theme: SyntaxTheme) -> (r: &'static str)
    ensures
        r@ == (if theme == SyntaxTheme::Dark { DEBUG_PANEL_CHANGED_DARK_STYLE@ } else { DEBUG_PANEL_CHANGED_LIGHT_STYLE@ }),
{
    match theme {
        SyntaxTheme::Dark => DEBUG_PANEL_CHANGED_DARK_STYLE,
        SyntaxTheme::Light => DEBUG_PANEL_CHANGED_LIGHT_STYLE,
    }
}

pub const BULLET: char = '\u{25CF}';
pub const ARROW: char = '\u{25B6}';

/// The three gutter columns of the editor and debugger: a breakpoint dot,
/// a space, and a dot on the executing line or an arrow on the viewed one.
pub open spec fn gutter_plain(breakpoint: bool, current: bool, viewed: bool) -> Seq<char> {
    seq![if breakpoint { BULLET } else { ' ' }, ' ', if current { BULLET } else if viewed { ARROW } else { ' ' }]
}

pub open spec fn gutter_styled(breakpoint: bool, current: bool, viewed: bool, theme: SyntaxTheme) -> Seq<char> {
    (if breakpoint { styled(DEBUG_BREAKPOINT_STYLE@, seq![BULLET]) } else { seq![' '] }) + seq![' '] + (if current {
        styled((if theme == SyntaxTheme::Dark { DEBUG_EXECUTION_DOT_DARK_STYLE@ } else { DEBUG_EXECUTION_DOT_LIGHT_STYLE@ }), seq![BULLET])
    } else if viewed {
        styled(DEBUG_BREAKPOINT_STYLE@, seq![ARROW])
    } else {
        seq![' ']
    })
}

pub fn render_editor_gutter_for_theme(
    ansi: bool,
    breakpoint: bool,
    current: bool,
    viewed: bool,
    theme: SyntaxTheme,
) -> (r: String)
    ensures
        !ansi ==> r@ == gutter_plain(breakpoint, current, viewed),
        ansi ==> r@ == gutter_styled(breakpoint, current, viewed, theme),
{
    let breakpoint_marker = if breakpoint { BULLET } else { ' ' };
    let line_marker = if current {
        BULLET
    } else if viewed {
        ARROW
    } else {
        ' '
    };
    let mut v: Vec<char> = Vec::new();
    if !ansi {
        v.push(breakpoint_marker);
        v.push(' ');
        v.push(line_marker);
        assert(v@ =~= gutter_plain(breakpoint, current, viewed));
        return crate::text::string_from_chars(&v);
    }
    if breakpoint {
        crate::text::extend_with_str(&mut v, DEBUG_BREAKPOINT_STYLE);
        v.push(breakpoint_marker);
        crate::text::extend_with_str(&mut v, RESET);
    } else {
        v.push(' ');
    }
    v.push(' ');
    if current {
        crate::text::extend_with_str(&mut v, debug_execution_dot_style(theme));
        v.push(line_marker);
        crate::text::extend_with_str(&mut v, RESET);
    } else if viewed {
        crate::text::extend_with_str(&mut v, DEBUG_BREAKPOINT_STYLE);
        v.push(line_marker);
        crate::text::extend_with_str(&mut v, RESET);
    } else {
        v.push(' ');
    }
    assert(v@ =~= gutter_styled(breakpoint, current, viewed, theme));
    crate::text::string_from_chars(&v)
}

/// Where the debugger's inspector panel goes.
#[derive(Clone, Copy, Debug, PartialEq, Eq, Structural)]
pub enum DebugPanelPlacement {
    Hidden,
    Below,
    Right,
}

/// The regions of the debugger screen.
#[derive(Clone, Copy, Debug, PartialEq, Eq, Structural)]
pub struct DebugLayout {
    pub code_rows: usize,
    pub panel_rows: usize,
    pub status_row: usize,
    pub gutter_width: usize,
    pub code_cols: usize,
    pub code_region_cols: usize,
    pub panel_cols: usize,
    pub panel_x: usize,
    pub panel_y: usize,
    pub panel_placement: DebugPanelPlacement,
}

/// The layout has room for the inspector panel.
pub open spec fn has_inspector_spec(layout: DebugLayout) -> bool {
    layout.panel_rows > 0 && layout.panel_cols > 0
}

impl DebugLayout {
    /// The inspector panel is shown.
    pub fn has_inspector(self) -> (r: bool)
        ensures
            r == (self.panel_rows > 0 && self.panel_cols > 0),
    {
        self.panel_rows > 0 && self.panel_cols > 0
    }
}

pub open spec fn clamp_int(x: int, lo: int, hi: int) -> int {
    if x < lo {
        lo
    } else if x > hi {
        hi
    } else {
        x
    }
}

pub open spec fn max_int(a: int, b: int) -> int {
    if a > b {
        a
    } else {
        b
    }
}

/// The layout of a debugger screen of `cols` by `rows`: the panel to the
/// right on wide screens, below on tall ones, hidden otherwise; the status
/// bar on the last row.
pub open spec fn layout_of(cols0: usize, rows0: usize) -> DebugLayout {
    let cols = at_least_one(cols0) as int;
    let rows = at_least_one(rows0) as int;
    let usable = rows - 1;
    let placement = if cols >= 110 && usable >= 4 {
        DebugPanelPlacement::Right
    } else if usable >= 8 {
        DebugPanelPlacement::Below
    } else {
        DebugPanelPlacement::Hidden
    };
    let panel_cols_right = clamp_int(cols / 3, 36, 48);
    let region_right = max_int(sat_sub(cols, panel_cols_right + 1), 1);
    let panel_rows_below = clamp_int(usable / 3, 4, 10);
    let code_rows = match placement {
        DebugPanelPlacement::Right => max_int(usable, 1),
        DebugPanelPlacement::Below => max_int(sat_sub(usable, panel_rows_below), 1),
        DebugPanelPlacement::Hidden => max_int(usable, 1),
    };
    let panel_rows = match placement {
        DebugPanelPlacement::Right => usable,
        DebugPanelPlacement::Below => panel_rows_below,
        DebugPanelPlacement::Hidden => 0,
    };
    let region = match placement {
        DebugPanelPlacement::Right => region_right,
        _ => cols,
    };
    let panel_cols = match placement {
        DebugPanelPlacement::Right => panel_cols_right,
        DebugPanelPlacement::Below => cols,
        DebugPanelPlacement::Hidden => 0,
    };
    let panel_x = match placement {
        DebugPanelPlacement::Right => region_right + 1,
        _ => 0,
    };
    let panel_y = match placement {
        DebugPanelPlacement::Below => sat_sub(usable, panel_rows_below),
        _ => 0,
    };
    let gutter = if region > EDITOR_GUTTER_WIDTH + 1 { EDITOR_GUTTER_WIDTH as int } else { 0 };
    DebugLayout {
        code_rows: code_rows as usize,
        panel_rows: panel_rows as usize,
        status_row: (rows - 1) as usize,
        gutter_width: gutter as usize,
        code_cols: max_int(sat_sub(region, gutter), 1) as usize,
        code_region_cols: region as usize,
        panel_cols: panel_cols as usize,
        panel_x: panel_x as usize,
        panel_y: panel_y as usize,
        panel_placement: placement,
    }
}

pub fn debug_layout(cols: usize, rows: usize) -> (r: DebugLayout)
    ensures
        r == layout_of(cols, rows),
{
    let cols = if cols > 1 { cols } else { 1 };
    let rows = if rows > 1 { rows } else { 1 };
    let usable_rows = rows - 1;
    let placement = if cols >= 110 && usable_rows >= 4 {
        DebugPanelPlacement::Right
    } else if usable_rows >= 8 {
        DebugPanelPlacement::Below
    } else {
        DebugPanelPlacement::Hidden
    };
    let (code_rows, panel_rows, code_region_cols, panel_cols, panel_x, panel_y) = match placement {
        DebugPanelPlacement::Right => {
            let third = cols / 3;
            let panel_cols = if third < 36 {
                36
            } else if third > 48 {
                48
            } else {
                third
            };
            let rest = if cols > panel_cols + 1 {
                cols - (panel_cols + 1)
            } else {
                0
            };
            let code_region_cols = if rest > 1 { rest } else { 1 };
            (if usable_rows > 1 { usable_rows } else { 1 }, usable_rows, code_region_cols, panel_cols, code_region_cols + 1, 0)
        },
        DebugPanelPlacement::Below => {
            let third = usable_rows / 3;
            let panel_rows = if third < 4 {
                4
            } else if third > 10 {
                10
            } else {
                third
            };
            let rest = if usable_rows > panel_rows {
                usable_rows - panel_rows
            } else {
                0
            };
            (if rest > 1 { rest } else { 1 }, panel_rows, cols, cols, 0, rest)
        },
        DebugPanelPlacement::Hidden => (if usable_rows > 1 { usable_rows } else { 1 }, 0, cols, 0, 0, 0),
    };
    let gutter_width = editor_gutter_width(code_region_cols);
    let code_cols = if code_region_cols > gutter_width && code_region_cols - gutter_width > 1 {
        code_region_cols - gutter_width
    } else {
        1
    };
    DebugLayout {
        code_rows,
        panel_rows,
        status_row: rows - 1,
        gutter_width,
        code_cols,
        code_region_cols,
        panel_cols,
        panel_x,
        panel_y,
        panel_placement: placement,
    }
}

/// How far the panel scrolls per page.
pub fn debug_panel_page_size() -> (r: usize)
    ensures
        r == 4,
{
    4
}

/// The panel scroll offset kept inside the `panel_lines` lines of the panel.
pub fn clamp_debug_panel_scroll(panel_lines: usize, layout: DebugLayout, panel_scroll: usize) -> (r: usize)
    ensures
        r as int == (if !(layout.panel_rows > 0 && layout.panel_cols > 0) {
            0
        } else {
            crate::editor::min_int(panel_scroll as int, sat_sub(panel_lines as int, layout.panel_rows as int))
        }),
{
    if !layout.has_inspector() {
        return 0;
    }
    let max_scroll = if panel_lines > layout.panel_rows { panel_lines - layout.panel_rows } else { 0 };
    if panel_scroll < max_scroll { panel_scroll } else { max_scroll }
}

/// The panel scroll offset one page back or forward; forward past the end
/// starts again at the top.
pub fn advance_debug_panel_scroll(panel_lines: usize, layout: DebugLayout, panel_scroll: usize, backwards: bool) -> (r: usize)
    ensures
        r as int == (if !(layout.panel_rows > 0 && layout.panel_cols > 0) {
            0
        } else if backwards {
            sat_sub(panel_scroll as int, 4)
        } else {
            let max_scroll = sat_sub(panel_lines as int, layout.panel_rows as int);
            if max_scroll == 0 || panel_scroll >= max_scroll {
                0
            } else {
                crate::editor::min_int(sat_add(panel_scroll as int, 4), max_scroll)
            }
        }),
{
    if !layout.has_inspector() {
        return 0;
    }
    let page = debug_panel_page_size();
    if backwards {
        if panel_scroll > page { panel_scroll - page } else { 0 }
    } else {
        let max_scroll = if panel_lines > layout.panel_rows { panel_lines - layout.panel_rows } else { 0 };
        if max_scroll == 0 || panel_scroll >= max_scroll {
            0
        } else {
            let next = if panel_scroll <= usize::MAX - page { panel_scroll + page } else { usize::MAX };
            if next < max_scroll { next } else { max_scroll }
        }
    }
}

} // verus!

verus! {

/// A remark starts at `i`: `REM ` or `'` outside string literals.
pub open spec fn remark_at(s: Seq<char>, i: int) -> bool {
    crate::separators::rem_at(s, i) || crate::separators::comment_start(s, i)
}

/// The first colon at or after `i` that separates commands: outside string
/// literals and before any remark.
pub open spec fn next_separator(s: Seq<char>, i: int) -> Option<int>
    decreases s.len() - i,
{
    if i < 0 || i >= s.len() || remark_at(s, i) {
        None
    } else if crate::separators::unquoted_colon(s, i) {
        Some(i)
    } else {
        next_separator(s, i + 1)
    }
}

/// Where command `k` of the text from `i` on starts: after `k` separating
/// colons, past whitespace.
pub open spec fn command_start(s: Seq<char>, i: int, k: nat) -> Option<int>
    decreases k,
{
    if k == 0 {
        Some(i + crate::separators::ws_run(s, i))
    } else {
        match next_separator(s, i) {
            Some(c) => command_start(s, c + 1, (k - 1) as nat),
            None => None,
        }
    }
}

/// The character column where the executing statement starts: at byte
/// range `span` of the line, when that is a non-empty range of whole
/// characters inside it; else at command `statement` after the line number.
pub open spec fn statement_col(line: Seq<char>, statement: int, span: Option<std::ops::Range<usize>>) -> Option<int> {
    let by_span = match span {
        Some(sp) => match crate::navigation::statement_span(line, sp.start as int, sp.end as int) {
            Some((a, _)) => Some(a),
            None => None,
        },
        None => None,
    };
    match by_span {
        Some(a) => Some(a),
        None => match crate::separators::line_number_end(line) {
            Some(n) => if statement >= 0 {
                command_start(line, n, statement as nat)
            } else {
                None
            },
            None => None,
        },
    }
}

pub open spec fn opt_range(o: Option<&std::ops::Range<usize>>) -> Option<std::ops::Range<usize>> {
    match o {
        Some(r) => Some(*r),
        None => None,
    }
}

/// Where command `statement` of `line` starts, from position `from` on.
fn command_column(line: &[char], from: usize, statement: usize) -> (r: Option<usize>)
    requires
        from <= line@.len(),
    ensures
        match r {
            None => command_start(line@, from as int, statement as nat) is None,
            Some(c) => command_start(line@, from as int, statement as nat) == Some(c as int),
        },
{
    let ghost s = line@;
    let mut in_string = false;
    let mut i: usize = 0;
    while i < from
        invariant
            s == line@,
            i <= from <= s.len(),
            in_string == crate::separators::in_str(s, i as int),
        decreases from - i,
    {
        if line[i] == '"' {
            in_string = !in_string;
        }
        i += 1;
    }
    let mut k = statement;
    loop
        invariant
            s == line@,
            line@.len() == line.len(),
            i <= s.len(),
            in_string == crate::separators::in_str(s, i as int),
            command_start(s, from as int, statement as nat) == command_start(s, i as int, k as nat),
        decreases k,
    {
        if k == 0 {
            let ws = crate::separators::leading_ws_len(line, i);
            return Some(i + ws);
        }
        let ghost start = i as int;
        let mut found = false;
        while i < line.len()
            invariant_except_break
                !found,
            invariant
                s == line@,
                line@.len() == line.len(),
                start <= i <= s.len(),
                in_string == crate::separators::in_str(s, i as int),
                next_separator(s, start) == next_separator(s, i as int),
            ensures
                found ==> i < s.len() && next_separator(s, start) == Some(i as int) && s[i as int] == ':',
                !found ==> next_separator(s, start) is None,
            decreases s.len() - i,
        {
            let ch = line[i];
            let rem = !in_string && crate::separators::starts_with_chars(line, i, "REM ");
            proof {
                reveal_strlit("REM ");
                assert("REM "@ =~= seq!['R', 'E', 'M', ' ']);
            }
            if rem || (ch == '\'' && !in_string) {
                assert(remark_at(s, i as int));
                break;
            }
            if ch == ':' && !in_string {
                found = true;
                break;
            }
            if ch == '"' {
                in_string = !in_string;
            }
            i += 1;
        }
        if !found {
            return None;
        }
        i += 1;
        k -= 1;
    }
}

/// The column where the executing statement starts in a source line.
pub fn debug_statement_column(
    line: &[char],
    statement: usize,
    source_span: Option<&std::ops::Range<usize>>,
) -> (r: Option<usize>)
    ensures
        match r {
            None => statement_col(line@, statement as int, opt_range(source_span)) is None,
            Some(c) => statement_col(line@, statement as int, opt_range(source_span)) == Some(c as int),
        },
{
    match source_span {
        Some(span) => {
            let source = crate::text::string_from_chars(line);
            match crate::navigation::statement_char_span(source.as_str(), span) {
                Some(c) => return Some(c.start),
                None => {},
            }
        },
        None => {},
    }
    match crate::separators::split_line_number(line) {
        Some((prefix, _)) => {
            proof {
                let a = crate::separators::ws_run(line@, 0) as int;
                crate::renumber::lemma_ws_run_le(line@, 0);
                crate::renumber::lemma_digit_run_le(line@, a);
                crate::renumber::lemma_ws_run_le(line@, a + crate::separators::digit_run(line@, a) as int);
            }
            command_column(line, prefix.len(), statement)
        },
        None => None,
    }
}

/// The characters `left..left + width` of `s`.
pub open spec fn window(s: Seq<char>, left: int, width: int) -> Seq<char> {
    let a = if left < s.len() { left } else { s.len() as int };
    let b = if left + width < s.len() { left + width } else { s.len() as int };
    s.subrange(a, b)
}

/// The visible part of a source line, with the statement placeholder and a
/// space inserted before the executing statement, and the window column of
/// the placeholder when it is visible.
pub open spec fn source_window(line: Seq<char>, left: int, width: int, col: Option<int>) -> (Seq<char>, Option<int>) {
    match col {
        None => (window(line, left, width), None),
        Some(c0) => {
            let c = if c0 < line.len() { c0 } else { line.len() as int };
            let aug = line.subrange(0, c) + seq![crate::screen_text::DEBUG_STATEMENT_PLACEHOLDER, ' '] + line.subrange(c, line.len() as int);
            (window(aug, left, width), if c >= left && c < sat_add(left, width) { Some(c - left) } else { None })
        },
    }
}

pub fn debug_source_window(
    line: &[char],
    left_col: usize,
    width: usize,
    statement: usize,
    source_span: Option<&std::ops::Range<usize>>,
) -> (r: (String, Option<usize>))
    ensures
        ({
            let w = source_window(line@, left_col as int, width as int, statement_col(line@, statement as int, opt_range(source_span)));
            &&& r.0@ == w.0
            &&& match r.1 {
                None => w.1 is None,
                Some(m) => w.1 == Some(m as int),
            }
        }),
{
    let col = debug_statement_column(line, statement, source_span);
    let src: Vec<char> = match col {
        None => crate::text::chars_range(line, 0, line.len()),
        Some(c0) => {
            let c = if c0 < line.len() { c0 } else { line.len() };
            let mut aug = crate::text::chars_range(line, 0, c);
            aug.push(crate::screen_text::DEBUG_STATEMENT_PLACEHOLDER);
            aug.push(' ');
            crate::text::extend_with_range(&mut aug, line, c, line.len());
            aug
        },
    };
    let a = if left_col < src.len() { left_col } else { src.len() };
    let b = if left_col < src.len() && width < src.len() - left_col { left_col + width } else { src.len() };
    let visible = crate::text::string_from_chars(&crate::text::chars_range(&src, a, b));
    let marker = match col {
        None => None,
        Some(c0) => {
            let c = if c0 < line.len() { c0 } else { line.len() };
            let end = if left_col <= usize::MAX - width { left_col + width } else { usize::MAX };
            if c >= left_col && c < end { Some(c - left_col) } else { None }
        },
    };
    proof {
        match col {
            None => {
                assert(src@ =~= line@);
            },
            Some(c0) => {
                let c = if c0 < line@.len() { c0 as int } else { line@.len() as int };
                assert(src@ =~= line@.subrange(0, c) + seq![crate::screen_text::DEBUG_STATEMENT_PLACEHOLDER, ' '] + line@.subrange(c, line@.len() as int));
            },
        }
    }
    (visible, marker)
}

/// The horizontal offset that shows the statement at column `c` of a line
/// of `len` characters, keeping a third of a `code_cols` wide view before
/// it; the offset `left` stays when the statement shows already, unless
/// `force`.
pub open spec fn reveal_left(c: int, len: int, left: int, code_cols: int, force: bool) -> int {
    let display_len = sat_add(len, 2);
    let visible_end = sat_add(left, code_cols);
    if force || c < left || sat_add(c, 2) > visible_end {
        crate::editor::min_int(sat_sub(c, code_cols / 3), sat_sub(display_len, code_cols))
    } else {
        left
    }
}

/// The length of the line under the cursor as the debugger shows it.
pub open spec fn viewed_len(editor: crate::editor::BasicEditor, location: crate::debugger::DebugLocation) -> int {
    if editor.cursor_line >= editor.lines@.len() {
        0
    } else {
        let line = editor.lines@[editor.cursor_line as int]@;
        if crate::renumber::line_number_of(line) == Some(location.line) && statement_col(
            line,
            location.statement as int,
            location.source_span,
        ) is Some {
            sat_add(line.len() as int, 2)
        } else {
            line.len() as int
        }
    }
}

impl crate::editor::BasicEditor {
    /// Scrolls horizontally so that the executing statement of line
    /// `line_index` shows, keeping a third of the view before it; always when
    /// `force`. The statement's column, when known.
    pub fn reveal_debug_statement(
        &mut self,
        line_index: usize,
        statement: usize,
        source_span: Option<&std::ops::Range<usize>>,
        code_cols: usize,
        force: bool,
    ) -> (r: Option<usize>)
        ensures
            *final(self) == (crate::editor::BasicEditor { left_col: final(self).left_col, ..*old(self) }),
            final(self).lines == old(self).lines,
            final(self).pos() == old(self).pos(),
            final(self).top_line == old(self).top_line,
            final(self).selection_anchor == old(self).selection_anchor,
            final(self).dirty == old(self).dirty,
            line_index >= old(self).lines@.len() ==> r is None && final(self).left_col == old(self).left_col,
            line_index < old(self).lines@.len() ==> {
                let line = old(self).lines@[line_index as int]@;
                match statement_col(line, statement as int, opt_range(source_span)) {
                    None => r is None && final(self).left_col == old(self).left_col,
                    Some(c) => {
                        &&& r == Some(c as usize)
                        &&& final(self).left_col as int == reveal_left(
                            c,
                            line.len() as int,
                            old(self).left_col as int,
                            code_cols as int,
                            force,
                        )
                    },
                }
            },
    {
        if line_index >= self.lines.len() {
            return None;
        }
        let statement_col = match debug_statement_column(&self.lines[line_index], statement, source_span) {
            Some(c) => c,
            None => return None,
        };
        let len = self.lines[line_index].len();
        let display_len = if len <= usize::MAX - 2 { len + 2 } else { usize::MAX };
        let visible_end = if self.left_col <= usize::MAX - code_cols { self.left_col + code_cols } else { usize::MAX };
        let col2 = if statement_col <= usize::MAX - 2 { statement_col + 2 } else { usize::MAX };
        if force || statement_col < self.left_col || col2 > visible_end {
            let max_left = if display_len > code_cols { display_len - code_cols } else { 0 };
            let third = code_cols / 3;
            let back = if statement_col > third { statement_col - third } else { 0 };
            self.left_col = if back < max_left { back } else { max_left };
        }
        Some(statement_col)
    }
}

/// The length of the viewed line as the debugger shows it: two more when
/// it is the executing line and its statement column is known.
pub fn debug_viewed_line_len(editor: &crate::editor::BasicEditor, location: &crate::debugger::DebugLocation) -> (r: usize)
    ensures
        r as int == viewed_len(*editor, *location),
{
    if editor.cursor_line >= editor.lines.len() {
        return 0;
    }
    let line = &editor.lines[editor.cursor_line];
    let span = match &location.source_span {
        Some(sp) => Some(sp),
        None => None,
    };
    if crate::renumber::editor_line_number(line) == Some(location.line) && debug_statement_column(line, location.statement, span).is_some() {
        if line.len() <= usize::MAX - 2 { line.len() + 2 } else { usize::MAX }
    } else {
        line.len()
    }
}

} // verus!
