use avl_basic::debug_view::{syntax_theme_from_env_value, SyntaxTheme};
use avl_basic::debugger::DebugAction;
use avl_basic::editor::BasicEditor;
use avl_basic::help::{char_len, push_wrapped, MAX_LINE_WIDTH};
use avl_basic::line_input::{
    accept_editing_buffer_virtual_quote, finish_editing_buffer, insert_editing_buffer_char,
    is_ctrl_c_key, should_insert_key_char, HistoryNavigation, InputHistory, KeyInput,
    KeyModifierState,
};
use avl_basic::screen_text::debug_action_for_key;
use avl_basic::separators::format_editing_separators_with_cursor;

const NONE: KeyModifierState = KeyModifierState { shift: false, control: false, alt: false };
const CONTROL: KeyModifierState = KeyModifierState { shift: false, control: true, alt: false };
const SHIFT: KeyModifierState = KeyModifierState { shift: true, control: false, alt: false };
const CONTROL_SHIFT: KeyModifierState = KeyModifierState { shift: true, control: true, alt: false };
const ALT_GR: KeyModifierState = KeyModifierState { shift: false, control: true, alt: true };

#[test]
fn ctrl_c_accepts_shifted_c_from_caps_lock() {
    assert!(is_ctrl_c_key('c', CONTROL));
    assert!(is_ctrl_c_key('C', CONTROL));
    assert!(!is_ctrl_c_key('c', NONE));
}

#[test]
fn alt_gr_printable_characters_are_text_input() {
    assert!(should_insert_key_char('#', ALT_GR));
    assert!(should_insert_key_char('@', ALT_GR));
    assert!(should_insert_key_char('|', ALT_GR));
    assert!(!should_insert_key_char('c', CONTROL));
    assert!(!should_insert_key_char('c', ALT_GR));
}

#[test]
fn editing_buffer_skips_real_and_virtual_closing_quotes() {
    let mut closed: Vec<char> = r#"10 PRINT "A""#.chars().collect();
    let mut cursor = closed.len() - 1;
    insert_editing_buffer_char(&mut closed, &mut cursor, '"');
    assert_eq!(closed.iter().collect::<String>(), r#"10 PRINT "A""#);
    assert_eq!(cursor, closed.len());

    let mut before_opening: Vec<char> = r#"10 PRINT "A""#.chars().collect();
    let mut cursor = "10 PRINT ".chars().count();
    insert_editing_buffer_char(&mut before_opening, &mut cursor, '"');
    assert_eq!(
        before_opening.iter().collect::<String>(),
        r#"10 PRINT ""A""#
    );
    assert_eq!(cursor, "10 PRINT \"".chars().count());

    let mut open: Vec<char> = r#"10 PRINT "A"#.chars().collect();
    let mut cursor = open.len();
    assert!(accept_editing_buffer_virtual_quote(&mut open, &mut cursor));
    assert_eq!(open.iter().collect::<String>(), r#"10 PRINT "A""#);
    assert_eq!(cursor, open.len());
}

#[test]
fn enter_materializes_virtual_closing_quote() {
    let mut empty: Vec<char> = "10 PRINT \"".chars().collect();
    let mut cursor = empty.len();
    assert_eq!(finish_editing_buffer(&mut empty, &mut cursor), "10 PRINT \"\"");
    assert_eq!(cursor, empty.len());

    let mut text: Vec<char> = "10 PRINT \"A".chars().collect();
    let mut cursor = text.len();
    assert_eq!(finish_editing_buffer(&mut text, &mut cursor), "10 PRINT \"A\"");
    assert_eq!(cursor, text.len());

    let mut closed: Vec<char> = "10 PRINT \"\"".chars().collect();
    let mut cursor = closed.len();
    assert_eq!(finish_editing_buffer(&mut closed, &mut cursor), "10 PRINT \"\"");
    assert_eq!(cursor, closed.len());
}

#[test]
fn history_navigation_walks_up_down_and_restores_draft() {
    let entries = vec!["LIST".to_string(), "RUN".to_string()];
    let mut history = HistoryNavigation::new();
    let draft: Vec<char> = "LO".chars().collect();

    assert_eq!(
        history.previous(&entries, &draft).unwrap(),
        "RUN".chars().collect::<Vec<_>>()
    );
    assert_eq!(
        history.previous(&entries, &[]).unwrap(),
        "LIST".chars().collect::<Vec<_>>()
    );
    assert_eq!(
        history.next(&entries).unwrap(),
        "RUN".chars().collect::<Vec<_>>()
    );
    assert_eq!(history.next(&entries).unwrap(), draft);
}

#[test]
fn syntax_theme_is_explicit_light_or_default_dark() {
    assert_eq!(syntax_theme_from_env_value(Some("light")), SyntaxTheme::Light);
    assert_eq!(syntax_theme_from_env_value(Some(" LIGHT ")), SyntaxTheme::Light);
    assert_eq!(syntax_theme_from_env_value(Some("dark")), SyntaxTheme::Dark);
    assert_eq!(syntax_theme_from_env_value(Some("unknown")), SyntaxTheme::Dark);
    assert_eq!(syntax_theme_from_env_value(None), SyntaxTheme::Dark);
}

#[test]
fn live_separator_formatting_updates_buffer_and_cursor() {
    let mut top_level: Vec<char> = "10 print 1:print 2".chars().collect();
    let mut cursor = top_level.len();
    assert!(format_editing_separators_with_cursor(&mut top_level, &mut cursor));
    assert_eq!(top_level.iter().collect::<String>(), "10 print 1 : print 2");
    assert_eq!(cursor, top_level.len());

    let mut trailing: Vec<char> = "10 print 1:".chars().collect();
    let mut cursor = trailing.len();
    assert!(format_editing_separators_with_cursor(&mut trailing, &mut cursor));
    assert_eq!(trailing.iter().collect::<String>(), "10 print 1 : ");
    assert_eq!(cursor, trailing.len());

    let mut if_body: Vec<char> = "10 if a then print 1:print 2 else print 3:print 4"
        .chars()
        .collect();
    let mut cursor = if_body.len();
    assert!(!format_editing_separators_with_cursor(&mut if_body, &mut cursor));

    let mut spaced_if_body: Vec<char> = "10 if a then print 1 : print 2".chars().collect();
    let mut cursor = spaced_if_body.len();
    assert!(format_editing_separators_with_cursor(&mut spaced_if_body, &mut cursor));
    assert_eq!(
        spaced_if_body.iter().collect::<String>(),
        "10 if a then print 1:print 2"
    );
    assert_eq!(cursor, spaced_if_body.len());

    let mut comment: Vec<char> = "10 print 1'comment".chars().collect();
    let mut cursor = comment.len();
    assert!(format_editing_separators_with_cursor(&mut comment, &mut cursor));
    assert_eq!(comment.iter().collect::<String>(), "10 print 1 'comment");
    assert_eq!(cursor, comment.len());
}

#[test]
fn debugger_uses_contiguous_function_keys_without_f10_or_f11() {
    assert_eq!(debug_action_for_key(KeyInput::F(1), NONE), Some(DebugAction::Continue));
    assert_eq!(debug_action_for_key(KeyInput::F(5), NONE), Some(DebugAction::Continue));
    assert_eq!(debug_action_for_key(KeyInput::F(6), NONE), Some(DebugAction::StepInto));
    assert_eq!(debug_action_for_key(KeyInput::F(7), NONE), Some(DebugAction::StepOver));
    assert_eq!(debug_action_for_key(KeyInput::F(8), NONE), Some(DebugAction::StepOut));
    assert_eq!(debug_action_for_key(KeyInput::F(10), NONE), None);
    assert_eq!(debug_action_for_key(KeyInput::F(11), NONE), None);
    assert_eq!(debug_action_for_key(KeyInput::F(11), CONTROL), None);
    assert_eq!(debug_action_for_key(KeyInput::F(11), SHIFT), None);
    assert_eq!(debug_action_for_key(KeyInput::F(11), CONTROL_SHIFT), None);
    assert_eq!(debug_action_for_key(KeyInput::Esc, NONE), Some(DebugAction::Abort));
    assert_eq!(
        debug_action_for_key(KeyInput::Char('c'), CONTROL),
        Some(DebugAction::Abort)
    );
    assert_eq!(
        debug_action_for_key(KeyInput::Char('C'), CONTROL_SHIFT),
        Some(DebugAction::Abort)
    );
    assert_eq!(debug_action_for_key(KeyInput::F(9), NONE), None);
    let help = BasicEditor::default_help();
    assert!(help.contains("F5/F6 Copy/Paste"));
    assert!(help.contains("F9 Renum"));
    assert!(!help.contains("Break"));
    assert!(!help.contains("Debug"));
    assert!(!help.contains("Step"));
}

#[test]
fn wrapping_does_not_split_utf8_at_byte_boundaries() {
    let text = "á".repeat(MAX_LINE_WIDTH + 1);
    let mut lines = Vec::new();
    push_wrapped(&mut lines, "", &text, "");
    assert_eq!(lines.len(), 2);
    assert_eq!(char_len(&lines[0]), MAX_LINE_WIDTH);
    assert_eq!(char_len(&lines[1]), 1);
}

#[test]
fn input_history_skips_blank_lines_and_immediate_repeats() {
    let mut history = InputHistory::new();
    history.remember("PRINT 1");
    history.remember("   ");
    history.remember("PRINT 1");
    history.remember("LIST");
    history.remember("PRINT 1");
    assert_eq!(history.snapshot(), vec!["PRINT 1", "LIST", "PRINT 1"]);
}
