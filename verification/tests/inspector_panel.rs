use std::collections::HashSet;

use avl_basic::debug_view::{
    SyntaxTheme, DEBUG_PANEL_CHANGED_DARK_STYLE, DEBUG_PANEL_CHANGED_LIGHT_STYLE, RESET,
};
use avl_basic::debugger::{
    DebugArrayKind, DebugArraySummary, DebugFrameKind, DebugLocation, DebugPauseReason,
    DebugStackFrame, DebugTimerSnapshot,
};
use avl_basic::inspection::DebugInspectionHistory;
use avl_basic::panel::{
    debug_panel_lines, debug_panel_lines_with_changes, format_debug_value, DebugDataSnapshot,
    DebugPanelChanges, DebugSnapshot, DebugValue, DebugVariable,
};
use avl_basic::screen_text::{
    debug_status, debug_status_message, fit_plain_text, style_debug_panel_line_for_theme,
    visible_width,
};

fn number(value: f64) -> DebugValue {
    DebugValue::Number(value.to_string())
}

fn text(value: &str) -> DebugValue {
    DebugValue::String(String::from(value))
}

fn no_changes() -> DebugPanelChanges {
    DebugPanelChanges { variables: Vec::new(), arrays: Vec::new(), state: false, timers: Vec::new(), data: false }
}

fn sample_debug_snapshot() -> DebugSnapshot {
    DebugSnapshot {
        reason: DebugPauseReason::Breakpoint,
        location: DebugLocation {
            line: 20,
            statement: 1,
            source_span: None,
            source: String::from("20 CALL DRAW(I):PRINT I"),
            command: String::from("PRINT I"),
        },
        source_lines: vec![String::from("10 A=1"), String::from("20 CALL DRAW(I):PRINT I")],
        variables: vec![
            DebugVariable { name: String::from("I"), value: number(4.0) },
            DebugVariable { name: String::from("NAME$"), value: text("SHIP") },
        ],
        array_elements: vec![DebugVariable { name: String::from("P(7,3)"), value: number(19.0) }],
        arrays: vec![DebugArraySummary {
            name: String::from("P"),
            alias_of: Some(String::from("A")),
            kind: DebugArrayKind::Number,
            dimensions: vec![20, 10],
            elements: 231,
        }],
        stack: vec![
            DebugStackFrame { kind: DebugFrameKind::Program, name: None, line: Some(10) },
            DebugStackFrame { kind: DebugFrameKind::Sub, name: Some(String::from("DRAW")), line: Some(20) },
            DebugStackFrame { kind: DebugFrameKind::Mouse, name: None, line: Some(900) },
        ],
        err: 5,
        erl: 120,
        timers: vec![DebugTimerSnapshot {
            number: 1,
            target: 500,
            repeat: true,
            active: true,
            interval_ms: 1000,
            remaining_ms: 250,
        }],
        data: DebugDataSnapshot::Next { position: 4, line: 100, line_item: 3, value: text("READY") },
    }
}

#[test]
fn debugger_status_starts_with_pause_reason_and_only_advertises_visible_inspector() {
    let snapshot = sample_debug_snapshot();
    let with_panel = debug_status(&snapshot, Some(10), true);
    assert!(with_panel.starts_with("BREAKPOINT | Ln 20 Stmt 2 View 10 |"));
    assert!(with_panel.contains("F5 Go F6 Into F7 Over F8 Out"));
    assert!(!with_panel.contains("F10"));
    assert!(!with_panel.contains("F11"));
    assert!(with_panel.contains("Tab/Shift+Tab Inspect"));

    let without_panel = debug_status(&snapshot, Some(10), false);
    assert!(without_panel.starts_with("BREAKPOINT | Ln 20 Stmt 2 View 10 |"));
    assert!(!without_panel.contains("Tab/Shift+Tab Inspect"));
    assert_eq!(fit_plain_text(&without_panel, 20), "BREAKPOINT | Ln 20 S");
    assert!(debug_status_message(&snapshot, Some(10), "Breakpoint set at 10")
        .starts_with("BREAKPOINT | Ln 20 Stmt 2 View 10 |"));
}

#[test]
fn debugger_string_values_escape_every_terminal_control() {
    let value = text("A\"\\\0\t\n\r\x08\x1b\x7f\u{85}Z");
    let rendered = format_debug_value(&value);

    assert_eq!(rendered, "\"A\"\"\\\\\\0\\t\\n\\r\\x08\\x1B\\x7F\\x85Z\"");
    assert!(!rendered.chars().any(char::is_control));
}

#[test]
fn debugger_panel_adapts_and_contains_all_snapshot_categories() {
    let snapshot = sample_debug_snapshot();
    let wide = debug_panel_lines(&snapshot, 120);
    assert!(wide.iter().all(|line| line.chars().count() == 120));
    let wide_text = wide.join("\n");
    for expected in [
        "VARIABLES",
        "I = 4",
        "NAME$ = \"SHIP\"",
        "P(7,3) = 19",
        "ARRAYS",
        "P -> A(20,10)",
        "STACK",
        "SUB DRAW @20",
        "MOUSE @900",
        "ERR=5 ERL=120",
        "TIMERS",
        "#1 EVERY -> 500 active 250/1000ms",
        "DATA",
        "Ln 100 Item 3: \"READY\"",
    ] {
        assert!(wide_text.contains(expected), "missing {expected:?}: {wide_text}");
    }

    let narrow = debug_panel_lines(&snapshot, 42);
    assert!(narrow.iter().all(|line| line.chars().count() == 42));
    assert!(narrow.len() > wide.len());
    let narrow_text = narrow.join("\n");
    assert!(narrow_text.contains("VARIABLES"));
    assert!(narrow_text.contains("DATA"));
    assert!(!narrow_text.contains("LOCATION"));
    assert!(!narrow_text.contains("PRINT I"));
}

#[test]
fn debugger_data_marks_visible_changes_and_distinguishes_empty_from_end() {
    let snapshot = sample_debug_snapshot();
    let mut history = DebugInspectionHistory::new();
    history.remember(&snapshot);

    assert!(!history.changes(&snapshot).data);

    let mut changed_at_same_position = snapshot.clone();
    changed_at_same_position.data =
        DebugDataSnapshot::Next { position: 4, line: 999, line_item: 99, value: number(123.0) };
    assert!(history.changes(&changed_at_same_position).data);

    let mut duplicate_value_at_next_position = snapshot.clone();
    duplicate_value_at_next_position.data =
        DebugDataSnapshot::Next { position: 5, line: 100, line_item: 4, value: text("READY") };
    assert!(history.changes(&duplicate_value_at_next_position).data);

    let mut nan = snapshot.clone();
    nan.data = DebugDataSnapshot::Next { position: 4, line: 100, line_item: 3, value: number(f64::NAN) };
    history.remember(&nan);
    assert!(!history.changes(&nan).data);

    let mut negative_zero = nan.clone();
    negative_zero.data = DebugDataSnapshot::Next { position: 4, line: 100, line_item: 3, value: number(-0.0) };
    history.remember(&negative_zero);
    let mut positive_zero = negative_zero.clone();
    positive_zero.data = DebugDataSnapshot::Next { position: 4, line: 100, line_item: 3, value: number(0.0) };
    assert!(history.changes(&positive_zero).data);

    let mut exhausted = snapshot.clone();
    exhausted.data = DebugDataSnapshot::Exhausted { position: 5, total: 5 };
    let changes = history.changes(&exhausted);
    assert!(changes.data);
    let exhausted_text = debug_panel_lines_with_changes(&exhausted, &changes, 120).join("\n");
    assert!(exhausted_text.contains("* (end)"));

    let mut empty = snapshot;
    empty.data = DebugDataSnapshot::Empty;
    let empty_text = debug_panel_lines(&empty, 120).join("\n");
    assert!(empty_text.contains("DATA"));
    assert!(empty_text.contains("  (none)"));
}

#[test]
fn debugger_panel_colors_only_changed_cells_and_keeps_plain_fallback() {
    let snapshot = sample_debug_snapshot();
    let changes = DebugPanelChanges { variables: vec![String::from("I")], ..no_changes() };
    let width = 120;
    let plain = debug_panel_lines_with_changes(&snapshot, &changes, width)
        .into_iter()
        .find(|line| line.contains("* I = 4"))
        .unwrap();

    let fallback = style_debug_panel_line_for_theme(&plain, width, false, SyntaxTheme::Dark);
    assert_eq!(fallback, plain);
    assert!(!fallback.contains('\x1b'));

    let dark = style_debug_panel_line_for_theme(&plain, width, true, SyntaxTheme::Dark);
    let light = style_debug_panel_line_for_theme(&plain, width, true, SyntaxTheme::Light);
    assert!(dark.contains(&format!("{DEBUG_PANEL_CHANGED_DARK_STYLE}* I = 4")));
    assert!(light.contains(&format!("{DEBUG_PANEL_CHANGED_LIGHT_STYLE}* I = 4")));
    assert!(!dark.contains(DEBUG_PANEL_CHANGED_LIGHT_STYLE));
    assert!(!light.contains(DEBUG_PANEL_CHANGED_DARK_STYLE));
    assert_eq!(dark.matches(DEBUG_PANEL_CHANGED_DARK_STYLE).count(), 1);
    assert_eq!(light.matches(DEBUG_PANEL_CHANGED_LIGHT_STYLE).count(), 1);
    assert_eq!(visible_width(&dark), width);
    assert_eq!(visible_width(&light), width);

    let first_gap = dark.find(" | ").unwrap();
    let first_reset = dark.find(RESET).unwrap();
    assert!(first_reset < first_gap, "changed style leaked into the next cell");
    assert!(!dark[first_gap..].contains(DEBUG_PANEL_CHANGED_DARK_STYLE));
}

#[test]
fn debugger_panel_colors_changed_cells_in_second_and_third_columns() {
    let snapshot = sample_debug_snapshot();

    let state_changes = DebugPanelChanges { state: true, ..no_changes() };
    let two_column_width = 60;
    let state_plain = debug_panel_lines_with_changes(&snapshot, &state_changes, two_column_width)
        .into_iter()
        .find(|line| line.contains("* ERR=5 ERL=120"))
        .unwrap();
    let state_styled =
        style_debug_panel_line_for_theme(&state_plain, two_column_width, true, SyntaxTheme::Dark);
    let first_gap = state_styled.find(" | ").unwrap();
    let state_style = state_styled.find(DEBUG_PANEL_CHANGED_DARK_STYLE).unwrap();
    assert!(state_style > first_gap);
    assert_eq!(state_styled.matches(DEBUG_PANEL_CHANGED_DARK_STYLE).count(), 1);
    assert_eq!(visible_width(&state_styled), two_column_width);

    let timer_changes = DebugPanelChanges { timers: vec![1], ..no_changes() };
    let three_column_width = 120;
    let timer_plain = debug_panel_lines_with_changes(&snapshot, &timer_changes, three_column_width)
        .into_iter()
        .find(|line| line.contains("* #1 EVERY"))
        .unwrap();
    let timer_styled =
        style_debug_panel_line_for_theme(&timer_plain, three_column_width, true, SyntaxTheme::Dark);
    let second_gap = timer_styled.rfind(" | ").unwrap();
    let timer_style = timer_styled.find(DEBUG_PANEL_CHANGED_DARK_STYLE).unwrap();
    assert!(timer_style > second_gap);
    assert_eq!(timer_styled.matches(DEBUG_PANEL_CHANGED_DARK_STYLE).count(), 1);
    assert_eq!(visible_width(&timer_styled), three_column_width);
}

#[test]
fn debugger_panel_change_style_ignores_separator_text_inside_values() {
    let mut snapshot = sample_debug_snapshot();
    snapshot.variables = vec![DebugVariable { name: String::from("NAME$"), value: text("LEFT | RIGHT") }];
    snapshot.array_elements.clear();
    let changes = DebugPanelChanges { variables: vec![String::from("NAME$")], ..no_changes() };
    let width = 120;
    let plain = debug_panel_lines_with_changes(&snapshot, &changes, width)
        .into_iter()
        .find(|line| line.contains("* NAME$"))
        .unwrap();
    let styled = style_debug_panel_line_for_theme(&plain, width, true, SyntaxTheme::Dark);

    assert!(styled.contains(&format!("{DEBUG_PANEL_CHANGED_DARK_STYLE}* NAME$ = \"LEFT | RIGHT\"")));
    assert_eq!(styled.matches(DEBUG_PANEL_CHANGED_DARK_STYLE).count(), 1);
    assert_eq!(visible_width(&styled), width);
}

#[test]
fn debugger_inspector_marks_net_changes_since_the_previous_pause() {
    let snapshot = sample_debug_snapshot();
    let mut history = DebugInspectionHistory::new();
    assert_eq!(history.changes(&snapshot), no_changes());
    history.remember(&snapshot);

    let mut countdown_only = snapshot.clone();
    countdown_only.timers[0].remaining_ms = 10;
    assert_eq!(history.changes(&countdown_only), no_changes());

    let mut changed = countdown_only;
    changed.variables[0].value = number(5.0);
    changed.variables.push(DebugVariable { name: String::from("NEW$"), value: text("VISIBLE") });
    changed.array_elements[0] = DebugVariable { name: String::from("P(12,3)"), value: number(8.0) };
    changed.arrays[0].elements += 1;
    changed.err = 6;
    changed.timers[0].active = false;
    changed.data = DebugDataSnapshot::Next { position: 5, line: 100, line_item: 4, value: number(9.0) };

    let changes = history.changes(&changed);
    assert_eq!(
        changes.variables.iter().cloned().collect::<HashSet<_>>(),
        HashSet::from([String::from("I"), String::from("NEW$"), String::from("P(12,3)")])
    );
    assert_eq!(changes.variables.len(), 3);
    assert_eq!(changes.arrays, vec![String::from("P")]);
    assert!(changes.state);
    assert_eq!(changes.timers, vec![1]);
    assert!(changes.data);

    for width in [42, 120] {
        let lines = debug_panel_lines_with_changes(&changed, &changes, width);
        assert!(lines.iter().all(|line| line.chars().count() == width));
        let text = lines.join("\n");
        for expected in [
            "* I = 5",
            "* NEW$ = \"VISIBLE\"",
            "* P(12,3) = 8",
            "* P -> A",
            "* ERR=6",
            "* #1",
            "* Ln 100 Item 4: 9",
        ] {
            assert!(text.contains(expected), "missing {expected:?}: {text}");
        }
        assert!(text.contains("  NAME$ = \"SHIP\""));
    }
}
