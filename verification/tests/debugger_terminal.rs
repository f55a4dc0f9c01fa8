use avl_basic::debug_terminal::{
    DebugTerminal, TerminalFailure, TerminalOperation, TerminalRequest, TerminalTask,
};
use avl_basic::debugger::DebugAction;
use avl_basic::screen_text::debug_action_keeps_alternate_screen;

use TerminalOperation::{
    DisableRawMode, EnableRawMode, EnterAlternateScreen, LeaveAlternateScreen, ShowCursor,
};

/// Runs `task`, recording each operation and reporting `ok` for all of them.
fn run_task(
    terminal: &mut DebugTerminal,
    task: TerminalTask,
    operations: &mut Vec<TerminalOperation>,
    ok: impl Fn(TerminalOperation) -> bool,
) -> Result<bool, TerminalFailure> {
    let mut request = terminal.start(task);
    loop {
        match request {
            TerminalRequest::Perform(operation) => {
                operations.push(operation);
                request = terminal.resume(ok(operation));
            }
            TerminalRequest::Done(outcome) => return outcome,
        }
    }
}

fn pause_and_finish(
    terminal: &mut DebugTerminal,
    action: DebugAction,
    operations: &mut Vec<TerminalOperation>,
) {
    run_task(terminal, TerminalTask::EnterPause, operations, |_| true).unwrap();
    let keep_alternate_screen = debug_action_keeps_alternate_screen(action);
    run_task(terminal, TerminalTask::FinishPause { keep_alternate_screen }, operations, |_| true).unwrap();
}

#[test]
fn debugger_terminal_retains_silent_steps_and_reveals_runtime_io_once() {
    let mut terminal = DebugTerminal::new();
    let mut operations = Vec::new();

    pause_and_finish(&mut terminal, DebugAction::StepInto, &mut operations);
    pause_and_finish(&mut terminal, DebugAction::StepOver, &mut operations);
    assert!(run_task(&mut terminal, TerminalTask::RevealConsole, &mut operations, |_| true).unwrap());
    assert!(!run_task(&mut terminal, TerminalTask::RevealConsole, &mut operations, |_| true).unwrap());
    pause_and_finish(&mut terminal, DebugAction::Continue, &mut operations);

    assert_eq!(
        operations.as_slice(),
        [
            EnableRawMode,
            EnterAlternateScreen,
            ShowCursor,
            DisableRawMode,
            EnableRawMode,
            ShowCursor,
            DisableRawMode,
            ShowCursor,
            LeaveAlternateScreen,
            EnableRawMode,
            EnterAlternateScreen,
            ShowCursor,
            LeaveAlternateScreen,
            DisableRawMode,
        ]
    );
}

#[test]
fn debugger_terminal_guard_restores_primary_screen_on_early_exit() {
    let mut terminal = DebugTerminal::new();
    let mut operations = Vec::new();
    run_task(&mut terminal, TerminalTask::EnterPause, &mut operations, |_| true).unwrap();
    run_task(&mut terminal, TerminalTask::Restore { then_fail: false }, &mut operations, |_| true).unwrap();

    assert_eq!(
        operations.as_slice(),
        [EnableRawMode, EnterAlternateScreen, ShowCursor, LeaveAlternateScreen, DisableRawMode]
    );
    assert!(!terminal.alternate_screen);
    assert!(!terminal.raw_mode);
}

#[test]
fn debugger_terminal_session_restores_an_idle_alternate_screen_on_drop() {
    let mut terminal = DebugTerminal::new();
    let mut operations = Vec::new();
    pause_and_finish(&mut terminal, DebugAction::StepOut, &mut operations);
    assert!(terminal.alternate_screen);
    assert!(!terminal.raw_mode);

    run_task(&mut terminal, TerminalTask::Restore { then_fail: false }, &mut operations, |_| true).unwrap();
    assert_eq!(
        operations.as_slice(),
        [EnableRawMode, EnterAlternateScreen, ShowCursor, DisableRawMode, ShowCursor, LeaveAlternateScreen]
    );
}

#[test]
fn debugger_terminal_refuses_nested_pauses_and_reveals_during_a_pause() {
    let mut terminal = DebugTerminal::new();
    let mut operations = Vec::new();
    run_task(&mut terminal, TerminalTask::EnterPause, &mut operations, |_| true).unwrap();
    assert_eq!(
        run_task(&mut terminal, TerminalTask::EnterPause, &mut operations, |_| true),
        Err(TerminalFailure::AlreadyPaused)
    );
    assert_eq!(
        run_task(&mut terminal, TerminalTask::RevealConsole, &mut operations, |_| true),
        Err(TerminalFailure::RevealedWhilePaused)
    );
    assert_eq!(operations.len(), 2);
}

#[test]
fn debugger_terminal_backs_out_of_a_failed_alternate_screen() {
    let mut terminal = DebugTerminal::new();
    let mut operations = Vec::new();
    let outcome = run_task(&mut terminal, TerminalTask::EnterPause, &mut operations, |op| {
        op != EnterAlternateScreen
    });
    assert_eq!(outcome, Err(TerminalFailure::Operation));
    assert_eq!(operations.as_slice(), [EnableRawMode, EnterAlternateScreen, DisableRawMode]);
    assert!(!terminal.raw_mode);
    assert!(!terminal.alternate_screen);
}

#[test]
fn debugger_terminal_restores_after_a_failed_reveal() {
    let mut terminal = DebugTerminal::new();
    let mut operations = Vec::new();
    pause_and_finish(&mut terminal, DebugAction::StepInto, &mut operations);
    operations.clear();
    let outcome = run_task(&mut terminal, TerminalTask::RevealConsole, &mut operations, |op| {
        op != LeaveAlternateScreen
    });
    assert_eq!(outcome, Err(TerminalFailure::Operation));
    assert_eq!(
        operations.as_slice(),
        [ShowCursor, LeaveAlternateScreen, ShowCursor, LeaveAlternateScreen]
    );
}
