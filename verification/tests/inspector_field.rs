use avl_basic::line_input::{KeyInput, KeyModifierState};
use avl_basic::scalar_edit::{decode_string, encode_string, ScalarEdit, ScalarKeyOutcome};

const NONE: KeyModifierState = KeyModifierState { shift: false, control: false, alt: false };
const SHIFT: KeyModifierState = KeyModifierState { shift: true, control: false, alt: false };
const CONTROL: KeyModifierState = KeyModifierState { shift: false, control: true, alt: false };
const ALT_GR: KeyModifierState = KeyModifierState { shift: false, control: true, alt: true };

fn key(edit: &mut ScalarEdit, code: KeyInput) -> ScalarKeyOutcome {
    edit.key(code, NONE)
}

fn select_all(edit: &mut ScalarEdit) {
    edit.key(KeyInput::Char('a'), CONTROL);
}

/// What the inspector does with a submitted number: it accepts finite
/// decimals and otherwise rejects the entry.
fn submit_number(edit: &mut ScalarEdit) -> Option<f64> {
    match key(edit, KeyInput::Enter) {
        ScalarKeyOutcome::NumberText(text) => {
            match text.trim().parse::<f64>().ok().filter(|value| value.is_finite()) {
                Some(value) => Some(value),
                None => {
                    edit.fail("Enter a finite decimal number".to_string());
                    None
                }
            }
        }
        _ => None,
    }
}

fn submit_string(edit: &mut ScalarEdit) -> Option<String> {
    match key(edit, KeyInput::Enter) {
        ScalarKeyOutcome::StringValue(value) => Some(value),
        _ => None,
    }
}

#[test]
fn initial_selection_is_replaced_and_numbers_are_literals_only() {
    let mut edit = ScalarEdit::new_number("A", &123.0f64.to_string());
    assert!(edit
        .field(20)
        .unwrap()
        .render(true)
        .contains("\x1b[7m123\x1b[27m"));
    edit.paste("-1.25e2");
    assert_eq!(submit_number(&mut edit), Some(-125.0));
    for invalid in ["", "1+2", "RND", "NaN", "inf", "1e999"] {
        select_all(&mut edit);
        edit.paste(invalid);
        assert!(submit_number(&mut edit).is_none(), "accepted {invalid}");
        assert!(edit.error().is_some());
    }
}

#[test]
fn strings_round_trip_escapes_quotes_controls_and_unicode_without_ansi_injection() {
    let original = "A\\B\n\r\t\0\x1b[31m\u{85}é\"中文🙂e\u{301}\u{200d}\u{ad}";
    let mut edit = ScalarEdit::new_string("A", original);
    let field = edit.field(100).unwrap();
    assert!(!field.text.chars().any(char::is_control));
    assert!(field.text.contains("é"));
    assert!(!field.text.contains('中'));
    assert!(!field.text.contains('🙂'));
    assert!(!field.text.contains('\u{301}'));
    assert_eq!(submit_string(&mut edit), Some(original.to_string()));
    select_all(&mut edit);
    edit.paste("raw\x1b[0m\n");
    assert!(!edit.field(100).unwrap().text.contains('\x1b'));
    assert_eq!(submit_string(&mut edit), Some("raw\x1b[0m\n".to_string()));
    for invalid in ["\\", "\\q", "\\xG1", "\\x0", "\\u{}", "\\u{D800}", "\\u{110000}"] {
        select_all(&mut edit);
        edit.paste(invalid);
        assert!(submit_string(&mut edit).is_none(), "accepted {invalid}");
    }
}

#[test]
fn cursor_selection_deletion_and_horizontal_scrolling_are_bounded() {
    let mut edit = ScalarEdit::new_string("A", "abcdefghijk");
    for width in [1, 4, 2, 100] {
        let field = edit.field(width).unwrap();
        assert_eq!(field.text.chars().count(), width);
        assert!(field.cursor < width);
    }
    assert!(edit.field(0).is_none());
    key(&mut edit, KeyInput::Home);
    edit.key(KeyInput::Right, SHIFT);
    key(&mut edit, KeyInput::Char('Z'));
    key(&mut edit, KeyInput::Delete);
    key(&mut edit, KeyInput::End);
    key(&mut edit, KeyInput::Backspace);
    assert_eq!(submit_string(&mut edit), Some("Zcdefghij".to_string()));
    let before: String = edit.buffer.iter().collect();
    for code in [KeyInput::F(5), KeyInput::Tab, KeyInput::PageDown, KeyInput::PageUp] {
        key(&mut edit, code);
    }
    assert_eq!(edit.buffer.iter().collect::<String>(), before);
}

#[test]
fn altgr_inserts_text_and_wide_unicode_has_a_reversible_single_cell_buffer() {
    let mut edit = ScalarEdit::new_string("A", "");
    edit.key(KeyInput::Char('@'), ALT_GR);
    edit.paste("áéñ中🙂e\u{301}");
    assert!(edit
        .buffer
        .iter()
        .all(|ch| matches!(*ch, ' '..='~' | '\u{a0}'..='\u{ac}' | '\u{ae}'..='\u{24f}')));
    for width in [1, 7, 20, 80] {
        let field = edit.field(width).unwrap();
        assert_eq!(field.text.chars().count(), width);
        assert!(field.cursor < width);
    }
    assert_eq!(submit_string(&mut edit), Some("@áéñ中🙂e\u{301}".to_string()));
}

#[test]
fn escaped_strings_decode_to_the_original_text() {
    for text in ["", "plain", "tab\there", "\\", "\u{10FFFF}", "\u{e000}\u{7f}", "\u{d7ff}x"] {
        let escaped = encode_string(text, true);
        assert!(!escaped.chars().any(char::is_control));
        assert_eq!(decode_string(&escaped), Ok(text.to_string()));
    }
    assert_eq!(encode_string("\u{1b}", false), "\\u{1B}");
    assert_eq!(encode_string("a\\b", false), "a\\b");
    assert_eq!(encode_string("a\\b", true), "a\\\\b");
    assert_eq!(decode_string("\\x41\\u{1F642}"), Ok("A🙂".to_string()));
}

#[test]
fn each_bad_escape_has_its_own_message() {
    assert_eq!(
        decode_string("\\"),
        Err("Incomplete escape; use \\\\ for a backslash".to_string())
    );
    assert_eq!(
        decode_string("\\q"),
        Err("Invalid escape; use \\\\ for a backslash".to_string())
    );
    assert_eq!(
        decode_string("\\x4"),
        Err("Use two hexadecimal digits after \\x".to_string())
    );
    assert_eq!(
        decode_string("\\u41"),
        Err("Use \\u{HEX} for a Unicode escape".to_string())
    );
    assert_eq!(
        decode_string("\\u{1234567}"),
        Err("Invalid Unicode escape; use \\u{HEX}".to_string())
    );
    assert_eq!(
        decode_string("\\u{DFFF}"),
        Err("Invalid Unicode code point".to_string())
    );
}

#[test]
fn selection_collapses_to_its_side_before_moving() {
    let mut edit = ScalarEdit::new_string("A", "abcd");
    assert_eq!(edit.cursor, 4);
    assert_eq!(edit.anchor, Some(0));
    key(&mut edit, KeyInput::Left);
    assert_eq!(edit.cursor, 0);
    assert_eq!(edit.anchor, None);
    key(&mut edit, KeyInput::Right);
    assert_eq!(edit.cursor, 1);
    edit.key(KeyInput::End, SHIFT);
    assert_eq!(edit.anchor, Some(1));
    key(&mut edit, KeyInput::Right);
    assert_eq!(edit.cursor, 4);
    let field = edit.field(2).unwrap();
    assert_eq!(field.text, "d ");
    assert_eq!(field.cursor, 1);
    assert_eq!(edit.left, 3);
}
