use avl_basic::file_commands::add_bas_extension_to_leading_file_command;
use avl_basic::immediate::{
    contextual_immediate_command, contextual_immediate_command_marked, is_help_immediate_line,
    uppercase_leading_help, ContextualImmediateCommand,
};
use avl_basic::number_tokens::{is_number_start_at, next_non_marker, scan_number_token};
use avl_basic::numbers::{
    canonicalize_decimal_number, decimal_rounds_up_half_even, increment_fixed_decimal,
    trim_leading_decimal_zeros,
};

const MARKER: char = '\u{E000}';

#[test]
fn decimal_literals_lose_signs_and_redundant_zeros() {
    assert_eq!(canonicalize_decimal_number("007"), "7");
    assert_eq!(canonicalize_decimal_number("+12.500"), "12.5");
    assert_eq!(canonicalize_decimal_number("++3"), "3");
    assert_eq!(canonicalize_decimal_number("-0.0"), "0");
    assert_eq!(canonicalize_decimal_number("-0.50"), "-0.5");
    assert_eq!(canonicalize_decimal_number(".5"), "0.5");
    assert_eq!(canonicalize_decimal_number("1."), "1");
    assert_eq!(canonicalize_decimal_number("000"), "0");
}

#[test]
fn decimal_literals_that_are_not_plain_come_back_unsigned() {
    assert_eq!(canonicalize_decimal_number("1.2.3"), "1.2.3");
    assert_eq!(canonicalize_decimal_number("+-"), "-");
    assert_eq!(canonicalize_decimal_number("."), ".");
    assert_eq!(canonicalize_decimal_number("12a"), "12a");
    assert_eq!(canonicalize_decimal_number(""), "");
}

#[test]
fn long_fractions_round_half_to_even_at_fourteen_digits() {
    assert_eq!(canonicalize_decimal_number("0.123456789012345"), "0.12345678901234");
    assert_eq!(canonicalize_decimal_number("0.123456789012346"), "0.12345678901235");
    assert_eq!(canonicalize_decimal_number("0.000000000000015"), "0.00000000000002");
    assert_eq!(canonicalize_decimal_number("0.000000000000025"), "0.00000000000002");
    assert_eq!(canonicalize_decimal_number("0.0000000000000251"), "0.00000000000003");
    assert_eq!(canonicalize_decimal_number("9.999999999999995"), "10");
    assert_eq!(canonicalize_decimal_number("-99.999999999999999"), "-100");
}

#[test]
fn rounding_and_increment_helpers() {
    assert!(decimal_rounds_up_half_even("1", "6"));
    assert!(!decimal_rounds_up_half_even("2", "5"));
    assert!(decimal_rounds_up_half_even("3", "5"));
    assert!(decimal_rounds_up_half_even("2", "50001"));
    assert!(!decimal_rounds_up_half_even("9", "4999"));
    assert!(!decimal_rounds_up_half_even("9", ""));
    assert_eq!(
        increment_fixed_decimal("19", "99", 2),
        (String::from("20"), String::from("00"))
    );
    assert_eq!(
        increment_fixed_decimal("0", "99", 2),
        (String::from("1"), String::from("00"))
    );
    assert_eq!(increment_fixed_decimal("12", "34", 2), (String::from("12"), String::from("35")));
    assert_eq!(trim_leading_decimal_zeros("000120"), "120");
    assert_eq!(trim_leading_decimal_zeros("0000"), "0");
    assert_eq!(trim_leading_decimal_zeros(""), "0");
}

#[test]
fn help_is_an_immediate_command_only_by_context() {
    for line in ["help", "HELP", "  Help  ", "help right$", "help '", "HELP\tPRINT"] {
        assert!(is_help_immediate_line(line), "{line}");
        assert_eq!(contextual_immediate_command(line), Some(ContextualImmediateCommand::Help));
    }
    for line in ["help=1", "help = 1", "10 help", "help:", "help ' comment", "helper", "PRINT help", "hel"] {
        assert!(!is_help_immediate_line(line), "{line}");
        assert_eq!(contextual_immediate_command(line), None);
    }
    let marked = format!("he{MARKER}lp right$");
    assert_eq!(contextual_immediate_command_marked(&marked), Some(ContextualImmediateCommand::Help));
}

#[test]
fn leading_help_is_upper_cased_around_the_cursor_marker() {
    let mut line = String::from("  help right$");
    uppercase_leading_help(&mut line);
    assert_eq!(line, "  HELP right$");
    let mut marked = format!("h{MARKER}elp x");
    uppercase_leading_help(&mut marked);
    assert_eq!(marked, format!("H{MARKER}ELP x"));
}

#[test]
fn file_commands_get_the_bas_extension() {
    assert_eq!(add_bas_extension_to_leading_file_command("LOAD \"demo\""), "LOAD \"demo.bas\"");
    assert_eq!(add_bas_extension_to_leading_file_command("  SAVE\"foo\""), "  SAVE \"foo.bas\"");
    assert_eq!(
        add_bas_extension_to_leading_file_command("CHAIN MERGE \"part\",100"),
        "CHAIN MERGE \"part.bas\",100"
    );
    assert_eq!(add_bas_extension_to_leading_file_command("RUN \"game\""), "RUN \"game.bas\"");
    let marked = format!("LOAD{MARKER}\"demo\"");
    assert_eq!(
        add_bas_extension_to_leading_file_command(&marked),
        format!("LOAD {MARKER}\"demo.bas\"")
    );
}

#[test]
fn file_commands_keep_names_with_extensions_and_other_lines() {
    assert_eq!(add_bas_extension_to_leading_file_command("LOAD \"demo.txt\""), "LOAD \"demo.txt\"");
    assert_eq!(add_bas_extension_to_leading_file_command("LOAD \"demo"), "LOAD \"demo");
    assert_eq!(add_bas_extension_to_leading_file_command("load \"demo\""), "load \"demo\"");
    assert_eq!(add_bas_extension_to_leading_file_command("CD \"dir\""), "CD \"dir\"");
    assert_eq!(add_bas_extension_to_leading_file_command("PRINT 1"), "PRINT 1");
}

fn chars(text: &str) -> Vec<char> {
    text.chars().collect()
}

#[test]
fn number_literals_start_at_digits_and_points_before_digits() {
    assert!(is_number_start_at(&chars("1"), 0, false));
    assert!(is_number_start_at(&chars("A.5"), 1, false));
    assert!(!is_number_start_at(&chars("."), 0, false));
    assert!(!is_number_start_at(&chars(".x"), 0, false));
    assert!(!is_number_start_at(&chars("1"), 3, false));
    let marked = chars(&format!("{MARKER}5"));
    assert!(is_number_start_at(&marked, 0, true));
    assert!(!is_number_start_at(&marked, 0, false));
    let point = chars(&format!(".{MARKER}5"));
    assert!(is_number_start_at(&point, 0, true));
    assert!(!is_number_start_at(&point, 0, false));
    assert_eq!(next_non_marker(&marked, 0, true), Some('5'));
    assert_eq!(next_non_marker(&marked, 0, false), Some(MARKER));
    assert_eq!(next_non_marker(&marked, 2, true), None);
}

#[test]
fn number_literals_end_after_their_exponent() {
    assert_eq!(scan_number_token(&chars("12.5e+3x"), 0, false), (7, false));
    assert_eq!(scan_number_token(&chars("1E"), 0, false), (2, false));
    assert_eq!(scan_number_token(&chars("1.2.3"), 0, false), (5, false));
    assert_eq!(scan_number_token(&chars("7+1"), 0, false), (1, false));
    let marked = chars(&format!("1{MARKER}2e{MARKER}-4"));
    assert_eq!(scan_number_token(&marked, 0, true), (7, true));
    assert_eq!(scan_number_token(&marked, 0, false), (1, false));
}

#[test]
fn canonical_spelling_is_stable_on_examples() {
    for raw in ["+007.500", "-0.0", "9.999999999999995", "1.2.3", "++", "-", ".5", "0.000000000000025"] {
        let once = canonicalize_decimal_number(raw);
        assert_eq!(canonicalize_decimal_number(&once), once, "{raw}");
    }
}
