use std::collections::HashSet;

use avl_basic::debug_pause::{DebugEvent, DebugPause, DebugStep};
use avl_basic::debug_view::debug_layout;
use avl_basic::debugger::{DebugAction, DebugLocation, DebugPauseReason};
use avl_basic::line_input::{KeyInput, KeyModifierState};
use avl_basic::panel::{DebugDataSnapshot, DebugSnapshot};

fn program() -> Vec<String> {
    vec![
        String::from("10 A=1"),
        String::from("20 PRINT A : GOSUB 100"),
        String::from("REM unnumbered"),
        String::from("100 RETURN"),
    ]
}

fn paused_at(line: i32, statement: usize, span: Option<std::ops::Range<usize>>) -> DebugSnapshot {
    DebugSnapshot {
        reason: DebugPauseReason::Step,
        location: DebugLocation {
            line,
            statement,
            source_span: span,
            source: String::new(),
            command: String::new(),
        },
        source_lines: program(),
        variables: Vec::new(),
        array_elements: Vec::new(),
        arrays: Vec::new(),
        stack: Vec::new(),
        err: 0,
        erl: 0,
        timers: Vec::new(),
        data: DebugDataSnapshot::Empty,
    }
}

fn key(code: KeyInput) -> DebugEvent {
    DebugEvent::Key(code, KeyModifierState { shift: false, control: false, alt: false })
}

#[test]
fn debugger_pause_opens_on_the_paused_line_and_statement() {
    let snapshot = paused_at(20, 1, Some(13..22));
    let pause = DebugPause::begin(&program(), &HashSet::new(), &snapshot, 80, 24);
    assert_eq!(pause.editor.cursor_line, 1);
    assert_eq!(pause.editor.cursor_col, 13);
    assert_eq!(pause.editor.top_line, 0);
    assert_eq!(pause.panel_scroll, 0);
    assert_eq!(pause.layout, debug_layout(80, 24));
    assert!(pause.status.starts_with("STEP | Ln 20 Stmt 2 |"));
}

#[test]
fn debugger_pause_without_the_paused_line_stays_at_the_top() {
    let snapshot = paused_at(55, 0, None);
    let pause = DebugPause::begin(&program(), &HashSet::new(), &snapshot, 80, 24);
    assert_eq!((pause.editor.cursor_line, pause.editor.cursor_col), (0, 0));
    assert!(pause.status.starts_with("STEP | Ln 55 Stmt 1 View 10 |"));
}

#[test]
fn debugger_keys_finish_the_pause_with_their_actions() {
    let snapshot = paused_at(20, 0, None);
    let mut pause = DebugPause::begin(&program(), &HashSet::new(), &snapshot, 80, 24);
    let cases = [
        (KeyInput::F(5), DebugAction::Continue),
        (KeyInput::F(1), DebugAction::Continue),
        (KeyInput::F(6), DebugAction::StepInto),
        (KeyInput::F(7), DebugAction::StepOver),
        (KeyInput::F(8), DebugAction::StepOut),
        (KeyInput::Esc, DebugAction::Abort),
    ];
    for (code, action) in cases {
        assert_eq!(pause.step(&snapshot, key(code)), DebugStep::Finish { action, clear_interrupt: false });
    }
    let ctrl_c = DebugEvent::Key(KeyInput::Char('c'), KeyModifierState { shift: false, control: true, alt: false });
    assert_eq!(
        pause.step(&snapshot, ctrl_c),
        DebugStep::Finish { action: DebugAction::Abort, clear_interrupt: true }
    );
    assert_eq!(
        pause.step(&snapshot, DebugEvent::Interrupt),
        DebugStep::Finish { action: DebugAction::Abort, clear_interrupt: true }
    );
}

#[test]
fn debugger_f2_toggles_the_breakpoint_of_the_viewed_line() {
    let snapshot = paused_at(20, 0, None);
    let mut pause = DebugPause::begin(&program(), &HashSet::new(), &snapshot, 80, 24);
    assert_eq!(pause.step(&snapshot, key(KeyInput::F(2))), DebugStep::Redraw);
    assert!(pause.editor.breakpoints.contains(&20));
    assert_eq!(pause.status, "STEP | Ln 20 Stmt 1 | Breakpoint set at 20");
    pause.step(&snapshot, key(KeyInput::F(2)));
    assert!(pause.editor.breakpoints.is_empty());
    assert_eq!(pause.status, "STEP | Ln 20 Stmt 1 | Breakpoint cleared at 20");
    pause.step(&snapshot, key(KeyInput::Down));
    pause.step(&snapshot, key(KeyInput::F(2)));
    assert!(pause.editor.breakpoints.is_empty());
    assert_eq!(pause.status, "STEP | Ln 20 Stmt 1 | Breakpoint failed: no BASIC line");
}

#[test]
fn debugger_arrows_move_through_the_source_and_report_the_viewed_line() {
    let snapshot = paused_at(20, 0, None);
    let mut pause = DebugPause::begin(&program(), &HashSet::new(), &snapshot, 80, 24);
    pause.step(&snapshot, key(KeyInput::Up));
    assert_eq!(pause.editor.cursor_line, 0);
    assert!(pause.status.starts_with("STEP | Ln 20 Stmt 1 View 10 |"));
    pause.step(&snapshot, key(KeyInput::End));
    assert_eq!(pause.editor.cursor_line, 3);
    assert_eq!(pause.editor.cursor_col, "100 RETURN".len());
    pause.step(&snapshot, key(KeyInput::Home));
    assert_eq!((pause.editor.cursor_line, pause.editor.cursor_col), (0, 0));
    let before = pause.editor.lines.clone();
    pause.step(&snapshot, key(KeyInput::Char('x')));
    assert_eq!(pause.editor.lines, before);
}

#[test]
fn debugger_resize_takes_the_new_layout() {
    let snapshot = paused_at(20, 0, None);
    let mut pause = DebugPause::begin(&program(), &HashSet::new(), &snapshot, 80, 24);
    assert_eq!(pause.step(&snapshot, DebugEvent::Resize(120, 40)), DebugStep::Redraw);
    assert_eq!(pause.layout, debug_layout(120, 40));
    assert!(pause.status.ends_with("Tab/Shift+Tab Inspect"));
    pause.step(&snapshot, DebugEvent::Resize(40, 5));
    assert!(!pause.status.ends_with("Tab/Shift+Tab Inspect"));
    assert_eq!(pause.panel_scroll, 0);
}
