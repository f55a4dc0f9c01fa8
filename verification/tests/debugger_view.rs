use avl_basic::debug_view::{
    debug_layout, debug_source_window, debug_statement_column, render_editor_gutter_for_theme,
    DebugPanelPlacement, SyntaxTheme, DEBUG_BREAKPOINT_STYLE, DEBUG_EXECUTION_ARROW_DARK_STYLE,
    DEBUG_EXECUTION_ARROW_LIGHT_STYLE, DEBUG_EXECUTION_DOT_DARK_STYLE,
    DEBUG_EXECUTION_DOT_LIGHT_STYLE, DEBUG_PANEL_CHANGED_DARK_STYLE, DEBUG_PANEL_HEADER_STYLE,
    EDITOR_GUTTER_WIDTH, RESET, SELECTION_END_STYLE, SELECTION_STYLE, STATUS_BAR_STYLE,
    STATUS_KEY_STYLE,
};
use avl_basic::debugger::DebugAction;
use avl_basic::editor::BasicEditor;
use avl_basic::screen_text::{
    apply_selection_to_rendered, debug_action_keeps_alternate_screen, debug_panel_column_width,
    editor_status_line, finish_debug_statement_marker_for_theme, fit_plain_text,
    style_debug_panel_line_for_theme, style_editor_status_keys, visible_width,
    DEBUG_STATEMENT_PLACEHOLDER,
};
use avl_basic::debug_view::{DEBUG_CURRENT_LINE_DARK_STYLE, KEYWORD_STYLE, LINE_NUMBER_STYLE};
use avl_basic::screen_text::apply_debug_execution_line_style;

const STATUS_KEY_END_STYLE: &str = STATUS_BAR_STYLE;

fn gutter(ansi: bool, breakpoint: bool, current: bool, viewed: bool) -> String {
    render_editor_gutter_for_theme(ansi, breakpoint, current, viewed, SyntaxTheme::Dark)
}

fn finish_plain(visible: &str, marker_col: usize) -> String {
    finish_debug_statement_marker_for_theme(visible, false, marker_col, SyntaxTheme::Dark)
}

#[test]
fn fullscreen_editor_selection_rendering_preserves_reset_styles() {
    let rendered = format!("a{RESET}bc");
    let selected = apply_selection_to_rendered(&rendered, true, Some((0, 3)));

    assert!(selected.starts_with(SELECTION_STYLE));
    assert!(selected.contains(&format!("{RESET}{SELECTION_STYLE}")));
    assert!(selected.ends_with(SELECTION_END_STYLE));
}

#[test]
fn editor_status_places_position_at_right_edge() {
    let line = editor_status_line("F12 Apply", true, 12, 34, 24);
    assert_eq!(line.chars().count(), 24);
    assert!(line.ends_with("Ln 12 Col 34"));

    let narrow = editor_status_line("F12 Apply", false, 123, 456, 8);
    assert_eq!(narrow, "Ln 123 C");
}

#[test]
fn status_bar_styles_help_keys_without_changing_width() {
    let plain =
        "F12 Apply Esc Cancel F3/F4 Undo/Redo F9 Renum Tab/Shift+Tab Inspect Ln 1 Col 1";
    let styled = style_editor_status_keys(plain);

    assert_eq!(visible_width(&styled), plain.chars().count());
    assert!(styled.contains(&format!("{STATUS_KEY_STYLE}F12{STATUS_KEY_END_STYLE}")));
    assert!(styled.contains(&format!("{STATUS_KEY_STYLE}F3/F4{STATUS_KEY_END_STYLE}")));
    assert!(styled.contains(&format!("{STATUS_KEY_STYLE}F9{STATUS_KEY_END_STYLE}")));
    assert!(styled.contains(&format!(
        "{STATUS_KEY_STYLE}Esc{STATUS_KEY_END_STYLE} Cancel"
    )));
    assert!(styled.contains(&format!(
        "{STATUS_KEY_STYLE}Tab/Shift+Tab{STATUS_KEY_END_STYLE} Inspect"
    )));
}

#[test]
fn debugger_gutter_distinguishes_breakpoint_execution_and_viewed_lines() {
    assert_eq!(gutter(false, false, false, false), "   ");
    assert_eq!(gutter(false, true, false, false), "●  ");
    assert_eq!(gutter(false, false, true, false), "  ●");
    assert_eq!(gutter(false, true, true, false), "● ●");
    assert_eq!(gutter(false, false, false, true), "  ▶");
    assert_eq!(gutter(false, true, false, true), "● ▶");
    assert_eq!(gutter(false, true, true, true), "● ●");
    assert!(gutter(true, false, false, true).contains(&format!("{DEBUG_BREAKPOINT_STYLE}▶{RESET}")));
    assert_eq!(
        render_editor_gutter_for_theme(true, false, true, false, SyntaxTheme::Dark),
        format!("  {DEBUG_EXECUTION_DOT_DARK_STYLE}●{RESET}")
    );
    assert_eq!(
        render_editor_gutter_for_theme(true, false, true, false, SyntaxTheme::Light),
        format!("  {DEBUG_EXECUTION_DOT_LIGHT_STYLE}●{RESET}")
    );
    assert_eq!(
        render_editor_gutter_for_theme(true, true, true, true, SyntaxTheme::Light),
        format!("{DEBUG_BREAKPOINT_STYLE}●{RESET} {DEBUG_EXECUTION_DOT_LIGHT_STYLE}●{RESET}")
    );
    assert_eq!(
        visible_width(&gutter(true, true, true, true)),
        EDITOR_GUTTER_WIDTH
    );
}

#[test]
fn debugger_source_spans_distinguish_repeated_then_and_else_statements() {
    let source = "10 IF X THEN A=1:A=1 ELSE A=1:A=1";
    let line = source.chars().collect::<Vec<_>>();
    let starts = source
        .match_indices("A=1")
        .map(|(start, _)| start)
        .collect::<Vec<_>>();
    assert_eq!(starts.len(), 4);

    for start in &starts {
        let span = *start..*start + "A=1".len();
        assert_eq!(
            debug_statement_column(&line, usize::MAX, Some(&span)),
            Some(source[..*start].chars().count())
        );
    }

    let then_span = starts[0]..starts[0] + "A=1".len();
    let (visible, marker_col) = debug_source_window(&line, 0, 80, usize::MAX, Some(&then_span));
    let rendered = finish_plain(&visible, marker_col.unwrap());
    assert_eq!(rendered, "10 IF X THEN ▶ A=1:A=1 ELSE A=1:A=1");

    let else_span = starts[2]..starts[2] + "A=1".len();
    let (visible, marker_col) = debug_source_window(&line, 0, 80, usize::MAX, Some(&else_span));
    let rendered = finish_plain(&visible, marker_col.unwrap());
    assert_eq!(rendered, "10 IF X THEN A=1:A=1 ELSE ▶ A=1:A=1");
}

#[test]
fn debugger_source_span_byte_offsets_become_utf8_character_columns() {
    let source = "10 IF 1 THEN PRINT \"é:ELSE\":B=2 ELSE B=2";
    let line = source.chars().collect::<Vec<_>>();
    let start = source.find("B=2").unwrap();
    let span = start..start + "B=2".len();
    let expected_column = source[..start].chars().count();

    assert!(start > expected_column);
    assert_eq!(
        debug_statement_column(&line, usize::MAX, Some(&span)),
        Some(expected_column)
    );
    let (visible, marker_col) = debug_source_window(&line, 0, 80, usize::MAX, Some(&span));
    let rendered = finish_plain(&visible, marker_col.unwrap());
    assert_eq!(rendered, "10 IF 1 THEN PRINT \"é:ELSE\":▶ B=2 ELSE B=2");
}

#[test]
fn debugger_reveals_a_spanned_inline_statement_when_horizontally_scrolled() {
    let source = format!("10 IF 1 THEN PRINT \"{}\":TARGET=1", "X".repeat(60));
    let target_start = source.find("TARGET=1").unwrap();
    let target_span = target_start..target_start + "TARGET=1".len();
    let mut editor = BasicEditor::new(std::slice::from_ref(&source));

    let statement_col = editor
        .reveal_debug_statement(0, usize::MAX, Some(&target_span), 20, true)
        .unwrap();
    assert_eq!(statement_col, source[..target_start].chars().count());
    assert!(editor.left_col > 0);

    let (visible, marker_col) =
        debug_source_window(&editor.lines[0], editor.left_col, 20, usize::MAX, Some(&target_span));
    let rendered = finish_plain(&visible, marker_col.unwrap());
    assert!(rendered.contains("▶ TARGET=1"));
}

#[test]
fn debugger_statement_marker_uses_an_independent_arrow_style_for_each_theme() {
    let rendered = format!("A{DEBUG_STATEMENT_PLACEHOLDER} B");
    let dark = finish_debug_statement_marker_for_theme(&rendered, true, 1, SyntaxTheme::Dark);
    let light = finish_debug_statement_marker_for_theme(&rendered, true, 1, SyntaxTheme::Light);

    assert!(dark.contains(&format!("{DEBUG_EXECUTION_ARROW_DARK_STYLE}▶{RESET}")));
    assert!(light.contains(&format!("{DEBUG_EXECUTION_ARROW_LIGHT_STYLE}▶{RESET}")));
    assert!(!dark.contains(DEBUG_EXECUTION_DOT_DARK_STYLE));
    assert!(!light.contains(DEBUG_EXECUTION_DOT_LIGHT_STYLE));
    assert_eq!(visible_width(&dark), visible_width(&light));
}

#[test]
fn debugger_layout_hides_inspector_only_on_very_short_terminals() {
    let wide = debug_layout(120, 30);
    assert_eq!(wide.panel_placement, DebugPanelPlacement::Right);
    assert_eq!(wide.gutter_width, EDITOR_GUTTER_WIDTH);
    assert_eq!(wide.code_rows, 29);
    assert_eq!(wide.panel_rows, 29);
    assert_eq!(wide.code_region_cols + 1 + wide.panel_cols, 120);
    assert_eq!(wide.panel_x, wide.code_region_cols + 1);

    let normal = debug_layout(100, 30);
    assert_eq!(normal.panel_placement, DebugPanelPlacement::Below);
    assert!(normal.code_rows > normal.panel_rows);
    assert!(normal.panel_rows >= 4);
    assert_eq!(normal.code_rows + normal.panel_rows, 29);
    assert_eq!(normal.panel_y, normal.code_rows);

    let short = debug_layout(40, 7);
    assert_eq!(short.panel_placement, DebugPanelPlacement::Hidden);
    assert_eq!(short.panel_rows, 0);
    assert_eq!(short.status_row, 6);
    assert_eq!(short.code_rows, 6);
}

#[test]
fn debugger_keeps_alternate_screen_only_for_step_actions() {
    assert!(!debug_action_keeps_alternate_screen(DebugAction::Continue));
    assert!(debug_action_keeps_alternate_screen(DebugAction::StepInto));
    assert!(debug_action_keeps_alternate_screen(DebugAction::StepOver));
    assert!(debug_action_keeps_alternate_screen(DebugAction::StepOut));
    assert!(!debug_action_keeps_alternate_screen(DebugAction::Abort));
}

#[test]
fn debugger_horizontal_scroll_accounts_for_the_inline_marker_width() {
    let lines = vec![format!("10 A=1 : PRINT \"{}\"", "X".repeat(80))];
    let mut editor = BasicEditor::new(&lines);
    let display_len = editor.current_line_len() + 2;
    for _ in 0..100 {
        editor.scroll_debug_right(20, display_len);
    }
    assert_eq!(editor.left_col, display_len - 20);

    let print_start = lines[0].find("PRINT").unwrap();
    let print_span = print_start..lines[0].len();
    let (visible, marker_col) =
        debug_source_window(&editor.lines[0], editor.left_col, 20, usize::MAX, Some(&print_span));
    assert_eq!(marker_col, None);
    assert_eq!(visible.chars().count(), 20);
    assert!(visible.ends_with('"'));
}

#[test]
fn debugger_panel_styles_headings_per_cell_without_leaking_into_values() {
    let width = 60;
    let column_width = debug_panel_column_width(width, 2);
    let plain = fit_plain_text(
        &format!(
            "{} | {}",
            fit_plain_text("ARRAYS", column_width),
            fit_plain_text("  DATABASE = 1", column_width)
        ),
        width,
    );
    let styled = style_debug_panel_line_for_theme(&plain, width, true, SyntaxTheme::Dark);

    assert_eq!(styled.matches(DEBUG_PANEL_HEADER_STYLE).count(), 1);
    assert_eq!(visible_width(&styled), width);
    let (heading, value) = styled.split_once(" | ").unwrap();
    assert!(heading.starts_with(DEBUG_PANEL_HEADER_STYLE));
    assert!(heading.ends_with(RESET));
    assert!(!value.contains(DEBUG_PANEL_HEADER_STYLE));
    assert!(value.contains("DATABASE = 1"));
}

#[test]
fn debugger_panel_change_style_survives_single_column_truncation() {
    let fallback =
        style_debug_panel_line_for_theme("* VERY_LONG_VARIABLE = 123", 1, false, SyntaxTheme::Dark);
    let styled =
        style_debug_panel_line_for_theme("* VERY_LONG_VARIABLE = 123", 1, true, SyntaxTheme::Dark);

    assert_eq!(fallback, "*");
    assert_eq!(styled, format!("{DEBUG_PANEL_CHANGED_DARK_STYLE}*{RESET}"));
    assert_eq!(visible_width(&styled), 1);
}

#[test]
fn debugger_execution_background_survives_syntax_resets() {
    let highlighted = format!("{LINE_NUMBER_STYLE}10{RESET} {KEYWORD_STYLE}PRINT{RESET} A");
    let rendered = apply_debug_execution_line_style(&highlighted, true, 20, SyntaxTheme::Dark);
    let background = DEBUG_CURRENT_LINE_DARK_STYLE;

    assert!(rendered.starts_with(background));
    assert!(rendered.contains(&format!("{RESET}{background}")));
    assert!(rendered.ends_with(RESET));
    assert_eq!(visible_width(&rendered), 20);
}

#[test]
fn statement_marker_keeps_the_rendered_width() {
    let rendered = format!("10 A=1 : {DEBUG_STATEMENT_PLACEHOLDER} PRINT");
    for theme in [SyntaxTheme::Dark, SyntaxTheme::Light] {
        for ansi in [false, true] {
            let marked = finish_debug_statement_marker_for_theme(&rendered, ansi, 9, theme);
            assert_eq!(visible_width(&marked), visible_width(&rendered));
            assert_eq!(marked.matches('▶').count(), 1);
        }
    }
}

#[test]
fn debugger_places_the_execution_marker_before_the_exact_statement() {
    let line = "915 P=N : GOSUB 700 : GOSUB 700".chars().collect::<Vec<_>>();

    assert_eq!(debug_statement_column(&line, 0, None), Some(4));
    assert_eq!(debug_statement_column(&line, 1, None), Some(10));
    assert_eq!(debug_statement_column(&line, 2, None), Some(22));

    let (visible, marker_col) = debug_source_window(&line, 0, 40, 1, None);
    assert_eq!(marker_col, Some(10));
    let rendered = finish_plain(&visible, marker_col.unwrap());
    assert_eq!(rendered, "915 P=N : ▶ GOSUB 700 : GOSUB 700");

    let (visible, marker_col) = debug_source_window(&line, 11, 12, 1, None);
    assert_eq!(marker_col, None);
    assert_eq!(visible.chars().count(), 12);
    assert!(!visible.contains(DEBUG_STATEMENT_PLACEHOLDER));

    let (visible, marker_col) = debug_source_window(&line, 8, 20, 2, None);
    assert_eq!(marker_col, Some(14));
    let rendered = finish_plain(&visible, marker_col.unwrap());
    assert_eq!(rendered.chars().nth(14), Some('▶'));
}

#[test]
fn debugger_invalid_source_spans_safely_fall_back_to_the_statement_index() {
    let source = "10 PRINT \"é\":B=2";
    let line = source.chars().collect::<Vec<_>>();
    let fallback = debug_statement_column(&line, 1, None);
    let command_start = source.find("B=2").unwrap();
    assert_eq!(fallback, Some(source[..command_start].chars().count()));

    let inside_utf8 = source.find('é').unwrap() + 1;
    let invalid_utf8 = inside_utf8..inside_utf8 + 1;
    assert_eq!(debug_statement_column(&line, 1, Some(&invalid_utf8)), fallback);

    let out_of_bounds = source.len()..source.len() + 1;
    assert_eq!(debug_statement_column(&line, 1, Some(&out_of_bounds)), fallback);

    let (start, end) = (8, 3);
    let reversed = start..end;
    assert_eq!(debug_statement_column(&line, 1, Some(&reversed)), fallback);
}

#[test]
fn debugger_replaces_only_its_own_statement_placeholder() {
    let line = format!("10 PRINT \"{DEBUG_STATEMENT_PLACEHOLDER}\" : END").chars().collect::<Vec<_>>();
    let (visible, marker_col) = debug_source_window(&line, 0, 80, 1, None);
    let rendered = finish_plain(&visible, marker_col.unwrap());

    assert_eq!(rendered.matches('▶').count(), 1);
    assert_eq!(rendered.matches(DEBUG_STATEMENT_PLACEHOLDER).count(), 1);
    assert!(rendered.ends_with("▶ END"));
}
