use std::collections::HashSet;
use avl_basic::editor_keys::{replace_query_problem, ReplaceStep};
use avl_basic::line_input::KeyInput;

use avl_basic::editor::{BasicEditor, EditorFindResult, EditorPosition};
use avl_basic::session::FullscreenEditorSession;

fn strings(lines: &[&str]) -> Vec<String> {
    lines.iter().map(|line| line.to_string()).collect()
}

#[test]
fn fullscreen_editor_splits_and_joins_lines() {
    let lines = vec!["10 PRINT 1".to_string()];
    let mut editor = BasicEditor::new(&lines);
    editor.cursor_col = 2;

    editor.insert_newline();
    assert_eq!(
        editor.lines_as_strings(),
        vec!["10".to_string(), " PRINT 1".to_string()]
    );

    editor.backspace();
    assert_eq!(editor.lines_as_strings(), lines);
}

#[test]
fn fullscreen_editor_keeps_quotes_literal_for_multiline_editing() {
    let lines = vec![r#"10 PRINT "A""#.to_string()];
    let mut editor = BasicEditor::new(&lines);
    editor.cursor_col = lines[0].chars().count() - 1;

    editor.insert_char('"');

    assert_eq!(
        editor.lines_as_strings(),
        vec![r#"10 PRINT "A"""#.to_string()]
    );
    assert_eq!(editor.cursor_col, lines[0].chars().count());
    assert!(editor.dirty);

    let open = vec![r#"10 PRINT "A"#.to_string()];
    let mut editor = BasicEditor::new(&open);
    editor.cursor_col = open[0].chars().count();

    editor.move_right();

    assert_eq!(editor.lines_as_strings(), open);
    assert_eq!(editor.cursor_col, open[0].chars().count());
    assert!(!editor.dirty);

    let mut editor = BasicEditor::new(&lines);
    editor.cursor_col = "10 PRINT ".chars().count();

    editor.insert_char('"');

    assert_eq!(
        editor.lines_as_strings(),
        vec![r#"10 PRINT ""A""#.to_string()]
    );
    assert_eq!(editor.cursor_col, "10 PRINT \"".chars().count());
}

#[test]
fn fullscreen_editor_copies_deletes_and_pastes_selection() {
    let lines = vec!["10 PRINT 1".to_string()];
    let mut editor = BasicEditor::new(&lines);
    editor.cursor_col = 3;
    editor.select_right();
    editor.select_right();
    editor.select_right();
    editor.select_right();
    editor.select_right();

    assert!(editor.copy_selection());
    assert_eq!(editor.clipboard, "PRINT");

    editor.delete();
    assert_eq!(editor.lines_as_strings(), vec!["10  1".to_string()]);
    assert_eq!(editor.cursor_col, 3);

    assert!(editor.paste_clipboard());
    assert_eq!(editor.lines_as_strings(), lines);
}

#[test]
fn fullscreen_editor_renumbers_visible_order_and_references() {
    let lines = strings(&[
        "100 GOTO 295",
        "110 PRINT \"A\"",
        "295 PRINT \"MOVED\"",
        "296 GOSUB 330",
        "120 END",
        "330 RETURN",
    ]);
    let mut editor = BasicEditor::new(&lines);

    editor.renumber_visible_lines().unwrap();

    assert_eq!(
        editor.lines_as_strings(),
        strings(&[
            "100 GOTO 120",
            "110 PRINT \"A\"",
            "120 PRINT \"MOVED\"",
            "130 GOSUB 150",
            "140 END",
            "150 RETURN",
        ])
    );
    assert!(editor.dirty);

    assert!(editor.undo());
    assert_eq!(editor.lines_as_strings(), lines);
}

#[test]
fn fullscreen_editor_renum_rejects_duplicate_line_numbers() {
    let lines = vec!["10 PRINT 1".to_string(), "10 PRINT 2".to_string()];
    let mut editor = BasicEditor::new(&lines);

    assert_eq!(
        editor.renumber_visible_lines().unwrap_err().message(),
        "duplicate line number"
    );
    assert_eq!(editor.lines_as_strings(), lines);
    assert!(!editor.dirty);
}

#[test]
fn fullscreen_editor_find_selects_case_insensitive_match() {
    let lines = vec!["10 print 1".to_string(), "20 GOTO 10".to_string()];
    let mut editor = BasicEditor::new(&lines);

    assert_eq!(editor.find_next("PRINT"), Some(EditorFindResult::Found));
    assert_eq!(
        editor.selection_anchor,
        Some(EditorPosition { line: 0, col: 3 })
    );
    assert_eq!(editor.cursor_line, 0);
    assert_eq!(editor.cursor_col, 8);

    assert_eq!(editor.find_next("goto"), Some(EditorFindResult::Found));
    assert_eq!(
        editor.selection_anchor,
        Some(EditorPosition { line: 1, col: 3 })
    );
    assert_eq!(editor.cursor_line, 1);
    assert_eq!(editor.cursor_col, 7);
}

#[test]
fn fullscreen_editor_find_wraps_to_top() {
    let lines = vec!["10 PRINT 1".to_string(), "20 END".to_string()];
    let mut editor = BasicEditor::new(&lines);
    editor.cursor_line = 1;
    editor.cursor_col = 6;

    assert_eq!(editor.find_next("print"), Some(EditorFindResult::Wrapped));
    assert_eq!(
        editor.selection_anchor,
        Some(EditorPosition { line: 0, col: 3 })
    );
    assert_eq!(editor.cursor_line, 0);
    assert_eq!(editor.cursor_col, 8);
}

#[test]
fn fullscreen_editor_replace_search_starts_at_document_top() {
    let lines = vec!["10 PRINT 1".to_string(), "20 PRINT 2".to_string()];
    let mut editor = BasicEditor::new(&lines);
    editor.cursor_line = 1;
    editor.cursor_col = "20 PRINT 2".chars().count();

    assert!(editor.find_first("print"));
    assert_eq!(
        editor.selection_anchor,
        Some(EditorPosition { line: 0, col: 3 })
    );
    assert_eq!(editor.cursor_line, 0);
    assert_eq!(editor.cursor_col, 8);
}

#[test]
fn fullscreen_editor_replace_selected_match_is_undoable() {
    let lines = vec!["10 PRINT 1".to_string(), "20 PRINT 2".to_string()];
    let mut editor = BasicEditor::new(&lines);

    assert_eq!(editor.find_next("print"), Some(EditorFindResult::Found));
    assert!(editor.replace_selected_match("print", "INPUT"));
    assert_eq!(
        editor.lines_as_strings(),
        vec!["10 INPUT 1".to_string(), "20 PRINT 2".to_string()]
    );
    assert!(editor.dirty);
    assert_eq!(editor.selection_anchor, None);
    assert_eq!(editor.cursor_line, 0);
    assert_eq!(editor.cursor_col, 8);

    assert!(editor.undo());
    assert_eq!(editor.lines_as_strings(), lines);
    assert_eq!(
        editor.selection_anchor,
        Some(EditorPosition { line: 0, col: 3 })
    );
    assert_eq!(editor.cursor_line, 0);
    assert_eq!(editor.cursor_col, 8);
    assert!(!editor.dirty);
}

#[test]
fn fullscreen_editor_replace_all_from_selection_stops_at_document_end() {
    let lines = strings(&["10 PRINT 1", "20 PRINT 2", "30 PRINT 3"]);
    let mut editor = BasicEditor::new(&lines);

    assert_eq!(editor.find_next("print"), Some(EditorFindResult::Found));
    assert!(editor.find_next_without_wrap("print"));
    assert_eq!(
        editor.replace_all_from_selection_to_end("print", "INPUT"),
        2
    );

    assert_eq!(
        editor.lines_as_strings(),
        strings(&["10 PRINT 1", "20 INPUT 2", "30 INPUT 3"])
    );

    assert!(editor.undo());
    assert_eq!(editor.lines_as_strings(), lines);
}

#[test]
fn fullscreen_editor_undo_redo_restores_text_and_dirty_state() {
    let lines = vec!["10 PRINT 1".to_string()];
    let mut editor = BasicEditor::new(&lines);
    editor.cursor_col = 2;

    editor.insert_text(" REM");
    assert_eq!(
        editor.lines_as_strings(),
        vec!["10 REM PRINT 1".to_string()]
    );
    assert!(editor.dirty);

    assert!(editor.undo());
    assert_eq!(editor.lines_as_strings(), lines);
    assert!(!editor.dirty);

    assert!(editor.redo());
    assert_eq!(
        editor.lines_as_strings(),
        vec!["10 REM PRINT 1".to_string()]
    );
    assert!(editor.dirty);
}

#[test]
fn fullscreen_editor_scrolls_to_keep_cursor_visible() {
    let lines = (0..10).map(|i| format!("{i}")).collect::<Vec<_>>();
    let mut editor = BasicEditor::new(&lines);
    editor.cursor_line = 7;
    editor.cursor_col = 5;

    editor.ensure_cursor_visible(4, 3);

    assert_eq!(editor.top_line, 5);
    assert_eq!(editor.left_col, 2);
}

#[test]
fn fullscreen_editor_moves_to_document_edges() {
    let lines = strings(&["10 PRINT 1", "20 PRINT 22", "30 PRINT 333"]);
    let mut editor = BasicEditor::new(&lines);
    editor.cursor_line = 1;
    editor.cursor_col = 4;

    editor.move_document_end();
    assert_eq!(editor.cursor_line, 2);
    assert_eq!(editor.cursor_col, "30 PRINT 333".chars().count());

    editor.move_document_start();
    assert_eq!(editor.cursor_line, 0);
    assert_eq!(editor.cursor_col, 0);
}

#[test]
fn editor_breakpoints_toggle_by_basic_line_and_session_prunes_stale_entries() {
    let lines = vec!["10 PRINT 1".to_string(), "20 END".to_string()];
    let mut editor = BasicEditor::new(&lines);
    assert_eq!(editor.toggle_breakpoint(), Ok((true, 10)));
    assert!(editor.breakpoints.contains(&10));
    assert_eq!(editor.toggle_breakpoint(), Ok((false, 10)));

    editor.cursor_line = 1;
    assert_eq!(editor.toggle_breakpoint(), Ok((true, 20)));
    editor.breakpoints.insert(999);
    assert_eq!(
        FullscreenEditorSession::from_editor(&editor).breakpoints(),
        &HashSet::from([20])
    );

    editor.lines[1] = "REM not a numbered line".chars().collect();
    assert_eq!(editor.toggle_breakpoint(), Err("no BASIC line"));
}

#[test]
fn renum_moves_breakpoints_and_undo_restores_them() {
    let lines = strings(&["100 GOTO 295", "295 PRINT 1", "330 RETURN"]);
    let mut editor = BasicEditor::with_breakpoints(&lines, HashSet::from([295, 330]));

    editor.renumber_visible_lines().unwrap();
    assert_eq!(editor.breakpoints, HashSet::from([135, 170]));
    assert!(editor.undo());
    assert_eq!(editor.breakpoints, HashSet::from([295, 330]));
}

#[test]
fn fullscreen_session_round_trip_preserves_complete_editor_state() {
    let lines = vec!["10 PRINT 1".to_string(), "20 END".to_string()];
    let mut editor = BasicEditor::with_breakpoints(&lines, HashSet::from([20]));
    editor.cursor_line = 1;
    editor.cursor_col = 2;
    editor.top_line = 1;
    editor.left_col = 1;
    editor.page_rows = 7;
    editor.selection_anchor = Some(EditorPosition { line: 0, col: 3 });
    editor.clipboard = String::from("PRINT");
    editor.last_find = String::from("END");
    editor.last_replace = String::from("STOP");
    editor.insert_text(" REM");
    assert!(editor.undo());

    let expected = editor.clone();
    let session = FullscreenEditorSession::from_editor(&editor);
    assert_eq!(session.lines(), lines);
    assert_eq!(session.breakpoints(), &HashSet::from([20]));

    let restored = session.into_editor();
    assert_eq!(restored.cursor_line, expected.cursor_line);
    assert_eq!(restored.cursor_col, expected.cursor_col);
    assert_eq!(restored.top_line, expected.top_line);
    assert_eq!(restored.left_col, expected.left_col);
    assert_eq!(restored.selection_anchor, expected.selection_anchor);
    assert_eq!(restored.clipboard, expected.clipboard);
    assert_eq!(restored.last_find, expected.last_find);
    assert_eq!(restored.last_replace, expected.last_replace);
    assert_eq!(restored.undo_stack, expected.undo_stack);
    assert_eq!(restored.redo_stack, expected.redo_stack);
    assert!(!restored.dirty);
    assert_eq!(restored.breakpoints, HashSet::from([20]));
}

#[test]
fn debugger_horizontal_scroll_is_read_only_and_bounded() {
    let lines = vec![format!("10 PRINT {}", "X".repeat(80))];
    let mut editor = BasicEditor::new(&lines);
    let original = editor.lines_as_strings();

    let view_line_len = editor.current_line_len();
    editor.scroll_debug_right(20, view_line_len);
    assert_eq!(editor.left_col, 4);
    editor.scroll_debug_left();
    assert_eq!(editor.left_col, 0);
    assert_eq!(editor.lines_as_strings(), original);
    assert!(!editor.dirty);
    assert!(editor.undo_stack.is_empty());
}

#[test]
fn interactive_replace_skips_replaces_and_stops_at_the_end() {
    let lines = strings(&["10 PRINT 1", "20 PRINT 2", "30 PRINT 3"]);
    let mut editor = BasicEditor::new(&lines);
    assert_eq!(replace_query_problem(""), Some("Find text empty".to_string()));
    assert_eq!(replace_query_problem("print"), None);
    assert_eq!(editor.begin_replace("nothing", "x"), Some("Not found".to_string()));
    assert_eq!(editor.begin_replace("print", "INPUT"), None);
    assert_eq!(editor.last_find, "print");
    assert_eq!(editor.last_replace, "INPUT");
    assert_eq!(editor.replace_key(KeyInput::F(7), "print", "INPUT"), ReplaceStep::Continue);
    assert_eq!(editor.cursor_line, 1);
    assert_eq!(editor.replace_key(KeyInput::Tab, "print", "INPUT"), ReplaceStep::Continue);
    assert_eq!(editor.replace_key(KeyInput::Enter, "print", "INPUT"), ReplaceStep::Continue);
    assert_eq!(
        editor.replace_key(KeyInput::Enter, "print", "INPUT"),
        ReplaceStep::Finished("Replaced; no more matches".to_string())
    );
    assert_eq!(editor.lines_as_strings(), strings(&["10 PRINT 1", "20 INPUT 2", "30 INPUT 3"]));
    assert_eq!(
        editor.replace_key(KeyInput::Esc, "print", "INPUT"),
        ReplaceStep::Finished("Replace stopped".to_string())
    );
}
