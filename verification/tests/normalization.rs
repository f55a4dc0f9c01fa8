use std::collections::HashSet;

use avl_basic::debug_frame::{debug_blank_row, debug_code_row};
use avl_basic::debug_view::{
    syntax_palette_for, SyntaxTheme, ERROR_STYLE, KEYWORD_STYLE, LIGHT_ERROR_STYLE, LIGHT_HEADER_STYLE,
    LIGHT_HEX_STYLE, LIGHT_KEYWORD_STYLE, LIGHT_OTHER_STYLE, LIGHT_VARIABLE_STYLE, OTHER_STYLE, RESET,
};
use avl_basic::editor::BasicEditor;
use avl_basic::highlight::{
    apply_identifier_case_for_display, editor_identifier_cases, syntax_highlight, syntax_highlight_editing_with_cases,
    syntax_highlight_raw_with_cases, syntax_highlight_with_cases,
};
use avl_basic::normalize::{
    exponent_numbers, is_known_basic_word, normalize_code, normalize_code_for_editing,
    normalized_cursor_position, BasicWords,
};

fn words() -> BasicWords {
    let keywords = [
        "PRINT", "LOAD", "SAVE", "RUN", "CHAIN", "MERGE", "CD", "CAT", "FILES", "IF", "THEN", "ELSE",
        "GOTO", "GOSUB", "RETURN", "END", "DEF", "SUB", "CALL", "LIST", "USING", "LABEL", "GPRINT",
        "FOR", "NEXT", "TO", "LET", "INPUT",
    ];
    let others = ["ABS", "INT", "SIN", "AND", "OR", "NOT", "MOD", "PI", "LEN", "RIGHT$"];
    BasicWords {
        keywords: keywords.iter().map(|w| w.to_string()).collect(),
        others: others.iter().map(|w| w.to_string()).collect(),
    }
}

fn normalize(code: &str) -> String {
    normalize_code(&words(), code, &[])
}

fn for_editing(code: &str, cursor: usize) -> String {
    normalize_code_for_editing(&words(), code, cursor, &[])
}

fn cursor_in(code: &str, cursor: usize) -> usize {
    normalized_cursor_position(&words(), code, cursor, &[])
}

#[test]
fn cursor_tracks_inserted_command_space_without_jumping_to_bas_suffix() {
    let load = "load\"a";
    assert_eq!(normalize(load), "LOAD \"a.bas\"");
    assert_eq!(cursor_in(load, load.chars().count()), 7);

    let save = "save\"foo";
    assert_eq!(normalize(save), "SAVE \"foo.bas\"");
    assert_eq!(cursor_in(save, save.chars().count()), 9);
}

#[test]
fn cursor_tracks_auto_closing_quote_for_non_bas_commands() {
    let cd = "cd\"a";
    assert_eq!(normalize(cd), "CD \"a\"");
    assert_eq!(cursor_in(cd, cd.chars().count()), 5);
}

#[test]
fn cursor_after_explicit_file_quote_tracks_completed_bas_name() {
    let load = "load\"a\"";
    assert_eq!(normalize(load), "LOAD \"a.bas\"");
    assert_eq!(cursor_in(load, load.chars().count()), 12);
}

#[test]
fn file_command_bas_completion_survives_cursor_before_quote() {
    let load = "load\"demo\"";
    let cursor = "load".chars().count();
    assert_eq!(for_editing(load, cursor), "LOAD \"demo.bas\"");
    assert_eq!(cursor_in(load, cursor), "LOAD ".chars().count());

    let open_load = "load\"demo";
    let cursor = "load".chars().count();
    assert_eq!(for_editing(open_load, cursor), "LOAD \"demo.bas\"");
    assert_eq!(cursor_in(open_load, cursor), "LOAD ".chars().count());
}

#[test]
fn cursor_after_trailing_colon_tracks_live_separator_space() {
    let line = "10 print 1:";
    let normalized = normalize(line);
    assert_eq!(normalized, "10 PRINT 1 :");
    assert_eq!(cursor_in(line, line.chars().count()), normalized.chars().count());
}

#[test]
fn live_input_preserves_number_under_cursor_until_cursor_leaves_it() {
    let decimal = "10 PRINT 1.";
    assert_eq!(for_editing(decimal, decimal.chars().count()), "10 PRINT 1.");
    assert_eq!(normalize(decimal), "10 PRINT 1");
    assert_eq!(cursor_in(decimal, decimal.chars().count()), "10 PRINT 1.".chars().count());

    let completed_decimal = "10 PRINT 1. + 2";
    let cursor_after_space = "10 PRINT 1. ".chars().count();
    assert_eq!(for_editing(completed_decimal, cursor_after_space), "10 PRINT 1 + 2");

    let exponent = "10 PRINT 1E+";
    assert_eq!(for_editing(exponent, exponent.chars().count()), "10 PRINT 1E+");

    let big = "10 PRINT 123456789012345678901234567890";
    assert_eq!(for_editing(big, big.chars().count()), big);

    let leading_decimal = "10 PRINT .5";
    assert_eq!(for_editing(leading_decimal, "10 PRINT .".chars().count()), "10 PRINT .5");
    assert_eq!(
        syntax_highlight_editing_with_cases(
            &words(),
            decimal,
            decimal.chars().count(),
            false,
            &[],
            SyntaxTheme::Dark,
            &[]
        ),
        "10 PRINT 1."
    );
}

#[test]
fn normalization_closes_empty_unfinished_string() {
    assert_eq!(normalize("10 print\""), "10 PRINT \"\"");
    assert_eq!(for_editing("10 print\"", "10 print\"".chars().count()), "10 PRINT \"\"");
}

#[test]
fn raw_highlight_keeps_editor_text_unformatted() {
    let source = "10 print 1:";
    assert_eq!(syntax_highlight_raw_with_cases(&words(), source, false, &[], SyntaxTheme::Dark), source);
    assert_eq!(
        syntax_highlight_with_cases(&words(), source, false, &[], SyntaxTheme::Dark, &[]),
        "10 PRINT 1 :"
    );
}

#[test]
fn light_syntax_theme_uses_dark_visible_styles() {
    let highlighted = syntax_highlight(&words(), "10 PRINT ABS(X)+&HFF", true, SyntaxTheme::Light, &[]);

    assert!(highlighted.contains(&format!("{LIGHT_KEYWORD_STYLE}PRINT{RESET}")));
    assert!(highlighted.contains(&format!("{LIGHT_OTHER_STYLE}ABS{RESET}")));
    assert!(highlighted.contains(&format!("{LIGHT_VARIABLE_STYLE}X{RESET}")));
    assert!(highlighted.contains(&format!("{LIGHT_HEADER_STYLE}&H{LIGHT_HEX_STYLE}FF{RESET}")));
    assert!(!highlighted.contains(&format!("{KEYWORD_STYLE}PRINT{RESET}")));
    assert_eq!(syntax_palette_for(SyntaxTheme::Light).error, LIGHT_ERROR_STYLE);
    assert_eq!(syntax_palette_for(SyntaxTheme::Dark).error, ERROR_STYLE);
}

#[test]
fn known_words_are_those_of_the_catalogue() {
    assert!(is_known_basic_word(&words(), "PRINT"));
    assert!(is_known_basic_word(&words(), "ABS"));
    assert!(!is_known_basic_word(&words(), "print"));
    assert!(!is_known_basic_word(&words(), "COUNTER"));
}

#[test]
fn normalization_upper_cases_words_and_canonicalises_numbers() {
    assert_eq!(normalize("10 print abs(x)+fnsq(2.50)"), "10 PRINT ABS(x)+FNSQ(2.5)");
    assert_eq!(normalize("10 a=007:rem keep 007 here"), "10 a=7 : REM keep 007 here");
    assert_eq!(normalize("10 print \"abs\" ' note"), "10 PRINT \"abs\" ' note");
    assert_eq!(normalize("10 x=0.125000"), "10 x=0.125");
}

#[test]
fn exponent_numbers_take_the_forms_given_for_them() {
    let line = "10 a=1e5+2.0";
    let found = exponent_numbers(&words(), line, None);
    assert_eq!(found, vec!["1e5".to_string()]);
    let forms = vec![("1e5".to_string(), "1E+5".to_string())];
    assert_eq!(normalize_code(&words(), line, &forms), "10 a=1E+5+2");
    assert_eq!(normalize_code(&words(), line, &[]), "10 a=1e5+2");
}

#[test]
fn identifier_cases_are_shown_outside_strings_and_comments() {
    let cases = vec![("COUNT".to_string(), "Count".to_string())];
    let shown: String = apply_identifier_case_for_display(
        &"10 COUNT=1:PRINT \"COUNT\" ' COUNT".chars().collect::<Vec<_>>(),
        &cases,
    )
    .into_iter()
    .collect();
    assert_eq!(shown, "10 Count=1:PRINT \"COUNT\" ' COUNT");
}

#[test]
fn highlighting_styles_each_kind_of_token() {
    let dark = syntax_highlight(&words(), "10 print x ' hi", true, SyntaxTheme::Dark, &[]);
    assert!(dark.contains(&format!("{KEYWORD_STYLE}PRINT{RESET}")));
    assert!(dark.ends_with(&format!(" '{}{}{RESET}", avl_basic::debug_view::COMMENT_STYLE, " hi")));
    assert!(dark.starts_with(&format!("{}10 {RESET}", avl_basic::debug_view::LINE_NUMBER_STYLE)));
}

#[test]
fn removed_showcase_commands_are_ordinary_identifiers() {
    let cases = vec![
        ("TOUR".to_string(), "tour".to_string()),
        ("SAMPLES".to_string(), "Samples".to_string()),
    ];
    let w = words();
    assert_eq!(syntax_highlight_with_cases(&w, "tour", false, &cases, SyntaxTheme::Dark, &[]), "tour");
    assert_eq!(syntax_highlight_with_cases(&w, "samples", false, &cases, SyntaxTheme::Dark, &[]), "Samples");
    assert_eq!(
        syntax_highlight_with_cases(&w, "PRINT tour; samples", false, &cases, SyntaxTheme::Dark, &[]),
        "PRINT tour; Samples"
    );
    assert_eq!(normalize("tour"), "tour");
    assert_eq!(normalize("samples"), "samples");
    assert!(!is_known_basic_word(&w, "TOUR"));
    assert!(!is_known_basic_word(&w, "SAMPLES"));
}

#[test]
fn help_is_contextual_without_becoming_a_reserved_word() {
    let w = words();
    assert_eq!(normalize("help"), "HELP");
    assert_eq!(normalize("help right$"), "HELP RIGHT$");
    assert_eq!(normalize("help '"), "HELP '");
    assert_eq!(normalize("  help   right$  "), "  HELP   RIGHT$");
    assert_eq!(
        syntax_highlight(&w, "help right$", true, SyntaxTheme::Dark, &[]),
        format!("{KEYWORD_STYLE}HELP{RESET}{OTHER_STYLE} {RESET}{OTHER_STYLE}RIGHT${RESET}")
    );
    assert_eq!(
        syntax_highlight_raw_with_cases(&w, "help right$", true, &[], SyntaxTheme::Dark),
        format!("{KEYWORD_STYLE}HELP{RESET}{OTHER_STYLE} {RESET}{OTHER_STYLE}RIGHT${RESET}")
    );

    for cursor in 0..="help right$".chars().count() {
        assert!(syntax_highlight_editing_with_cases(&w, "help right$", cursor, false, &[], SyntaxTheme::Dark, &[])
            .starts_with("HELP "));
    }

    assert!(!is_known_basic_word(&w, "HELP"));
    for source in ["help=1", "help = 1", "10 help", "10 help=1", "PRINT help", "help:", "help ' comment"] {
        let highlighted = syntax_highlight(&w, source, true, SyntaxTheme::Dark, &[]);
        assert!(
            !highlighted.contains(&format!("{KEYWORD_STYLE}HELP{RESET}")),
            "unexpected HELP highlighting for {source}: {highlighted:?}"
        );
    }
    assert_eq!(normalize("help=1"), "help=1");
    assert_eq!(normalize("help = 1"), "help = 1");
    assert_eq!(normalize("10 help"), "10 help");
}

#[test]
fn fullscreen_editor_identifier_cases_come_from_current_buffer_first() {
    let lines = vec!["10 NewVar=1".to_string(), "20 newvar=2".to_string()];
    let editor = BasicEditor::new(&lines);
    let fallback = vec![("NEWVAR".to_string(), "newvar".to_string())];

    let cases = editor_identifier_cases(&words(), &editor.lines, &fallback);

    let found = cases.iter().find(|(key, _)| key == "NEWVAR").map(|(_, display)| display.clone());
    assert_eq!(found, Some("NewVar".to_string()));
}

#[test]
fn identifier_cases_skip_words_fn_names_strings_and_comments() {
    let lines = vec!["10 Total=fnTwo(x):PRINT \"Quoted\" ' Later".to_string(), "20 rem Ignored".to_string()];
    let editor = BasicEditor::new(&lines);
    let fallback = vec![("EXTRA".to_string(), "Extra".to_string()), ("TOTAL".to_string(), "total".to_string())];
    let cases = editor_identifier_cases(&words(), &editor.lines, &fallback);
    assert_eq!(
        cases,
        vec![
            ("TOTAL".to_string(), "Total".to_string()),
            ("X".to_string(), "x".to_string()),
            ("EXTRA".to_string(), "Extra".to_string()),
        ]
    );
}

#[test]
fn debugger_rows_show_gutter_source_and_padding() {
    let line: Vec<char> = "10 print 1".chars().collect();
    let breakpoints: HashSet<i32> = [10].into_iter().collect();
    let row = debug_code_row(&words(), &line, true, &breakpoints, 99, 0, None, 3, 5, 3, 12, false, SyntaxTheme::Dark);
    assert_eq!(row, "\u{25CF} \u{25B6}print    ");
    let no_gutter = debug_code_row(&words(), &line, false, &HashSet::new(), 99, 0, None, 0, 40, 0, 12, false, SyntaxTheme::Dark);
    assert_eq!(no_gutter, "10 print 1  ");
    assert_eq!(debug_blank_row(3, 6), "      ");
    assert_eq!(debug_blank_row(0, 2), "  ");
}

#[test]
fn editor_rows_clip_the_selection_to_the_window() {
    let line: Vec<char> = "10 print x".chars().collect();
    let plain = avl_basic::debug_frame::editor_code_row(&words(), &line, 3, 5, Some((0, 20)), &[], false, SyntaxTheme::Dark);
    assert_eq!(plain, "print");
    let styled = avl_basic::debug_frame::editor_code_row(&words(), &line, 3, 5, Some((5, 20)), &[], true, SyntaxTheme::Dark);
    assert!(styled.contains(avl_basic::debug_view::SELECTION_STYLE));
    let missed = avl_basic::debug_frame::editor_code_row(&words(), &line, 3, 5, Some((9, 20)), &[], true, SyntaxTheme::Dark);
    assert!(!missed.contains(avl_basic::debug_view::SELECTION_STYLE));
}
