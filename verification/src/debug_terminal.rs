//! The terminal state that the debugger shares with the running program.
//! The alternate screen can stay up while a silent step runs, but the
//! debugger's raw keyboard mode is always switched off before the program
//! resumes. Each task (entering a pause, finishing it, revealing the
//! program's console, restoring the terminal) is a short sequence of
//! terminal operations whose next step depends on what the previous one
//! did; this machine decides the steps and the caller performs them.
use vstd::prelude::*;

verus! {

/// A change to the terminal.
#[derive(Debug, Clone, Copy, PartialEq, Eq, Structural)]
pub enum TerminalOperation {
    EnableRawMode,
    DisableRawMode,
    EnterAlternateScreen,
    LeaveAlternateScreen,
    ShowCursor,
}

/// What the terminal is asked to do.
#[derive(Debug, Clone, Copy, PartialEq, Eq, Structural)]
pub enum TerminalTask {
    /// Enter the debugger's screen and keyboard mode.
    EnterPause,
    /// Leave the pause; the alternate screen stays when `keep_alternate_screen`.
    FinishPause { keep_alternate_screen: bool },
    /// Show the primary screen before the program writes to it.
    RevealConsole,
    /// Put the terminal back as it was; with `then_fail`, the task that
    /// started it failed and the restore ends with that failure.
    Restore { then_fail: bool },
}

/// Why a task did not complete.
#[derive(Debug, Clone, Copy, PartialEq, Eq, Structural)]
pub enum TerminalFailure {
    /// A pause was entered while one was active.
    AlreadyPaused,
    /// The console was to be revealed during a pause.
    RevealedWhilePaused,
    /// A terminal operation failed.
    Operation,
}

/// The next thing to do.
#[derive(Debug, Clone, Copy, PartialEq, Eq)]
pub enum TerminalRequest {
    /// Perform the operation and report whether it succeeded.
    Perform(TerminalOperation),
    /// The task is over: `Ok(revealed)` (`revealed` is whether revealing
    /// the console left the alternate screen), or the failure.
    Done(Result<bool, TerminalFailure>),
}

/// The terminal as the debugger left it, and the task under way.
#[derive(Debug, Clone, Copy, PartialEq, Eq)]
pub struct DebugTerminal {
    pub alternate_screen: bool,
    pub raw_mode: bool,
    pub cursor_needs_show: bool,
    /// The task under way and the operation whose result is awaited.
    pub task: Option<(TerminalTask, TerminalOperation)>,
    /// An operation of the task failed.
    pub failed: bool,
}

/// The terminal with the effect of a successful operation.
pub open spec fn applied(t: DebugTerminal, op: TerminalOperation) -> DebugTerminal {
    match op {
        TerminalOperation::EnableRawMode => DebugTerminal { raw_mode: true, ..t },
        TerminalOperation::DisableRawMode => DebugTerminal { raw_mode: false, ..t },
        TerminalOperation::EnterAlternateScreen => DebugTerminal { alternate_screen: true, ..t },
        TerminalOperation::LeaveAlternateScreen => DebugTerminal { alternate_screen: false, ..t },
        TerminalOperation::ShowCursor => DebugTerminal { cursor_needs_show: false, ..t },
    }
}

/// Ask for `op` on behalf of `task`.
pub open spec fn perform(t: DebugTerminal, task: TerminalTask, op: TerminalOperation) -> (DebugTerminal, TerminalRequest) {
    (DebugTerminal { task: Some((task, op)), ..t }, TerminalRequest::Perform(op))
}

/// End the task with `outcome`.
pub open spec fn done(t: DebugTerminal, outcome: Result<bool, TerminalFailure>) -> (DebugTerminal, TerminalRequest) {
    (DebugTerminal { task: None, failed: false, ..t }, TerminalRequest::Done(outcome))
}

/// The end of a task that has only cleanup left: a failure when one of its
/// operations failed.
pub open spec fn settled(t: DebugTerminal, fail: bool) -> (DebugTerminal, TerminalRequest) {
    if t.failed || fail {
        done(t, Err(TerminalFailure::Operation))
    } else {
        done(t, Ok(false))
    }
}

/// The steps of a restore from the terminal `t`: show the cursor when it
/// may be hidden, leave the alternate screen, leave raw mode.
pub open spec fn restore_from(t: DebugTerminal, then_fail: bool, after: Option<TerminalOperation>) -> (DebugTerminal, TerminalRequest) {
    let task = TerminalTask::Restore { then_fail };
    let show_done = after is Some;
    let leave_done = after == Some(TerminalOperation::LeaveAlternateScreen) || after == Some(
        TerminalOperation::DisableRawMode,
    );
    let disable_done = after == Some(TerminalOperation::DisableRawMode);
    if !show_done && (t.cursor_needs_show || t.alternate_screen) {
        perform(t, task, TerminalOperation::ShowCursor)
    } else if !leave_done && t.alternate_screen {
        perform(t, task, TerminalOperation::LeaveAlternateScreen)
    } else if !disable_done && t.raw_mode {
        perform(t, task, TerminalOperation::DisableRawMode)
    } else {
        settled(t, then_fail)
    }
}

/// The steps of finishing a pause: show the cursor, leave the alternate
/// screen unless it is kept, leave raw mode.
pub open spec fn finish_from(t: DebugTerminal, keep: bool, after: TerminalOperation) -> (DebugTerminal, TerminalRequest) {
    let task = TerminalTask::FinishPause { keep_alternate_screen: keep };
    if after == TerminalOperation::ShowCursor && !keep && t.alternate_screen {
        perform(t, task, TerminalOperation::LeaveAlternateScreen)
    } else if after != TerminalOperation::DisableRawMode && t.raw_mode {
        perform(t, task, TerminalOperation::DisableRawMode)
    } else {
        settled(t, false)
    }
}

/// The first step of `task` on the idle terminal `t`.
pub open spec fn start_spec(t: DebugTerminal, task: TerminalTask) -> (DebugTerminal, TerminalRequest) {
    let t = DebugTerminal { task: None, failed: false, ..t };
    match task {
        TerminalTask::EnterPause => if t.raw_mode {
            done(t, Err(TerminalFailure::AlreadyPaused))
        } else {
            perform(t, task, TerminalOperation::EnableRawMode)
        },
        TerminalTask::FinishPause { .. } => perform(t, task, TerminalOperation::ShowCursor),
        TerminalTask::RevealConsole => if !t.alternate_screen {
            if t.cursor_needs_show {
                perform(t, task, TerminalOperation::ShowCursor)
            } else {
                done(t, Ok(false))
            }
        } else if t.raw_mode {
            done(t, Err(TerminalFailure::RevealedWhilePaused))
        } else {
            perform(t, task, TerminalOperation::ShowCursor)
        },
        TerminalTask::Restore { then_fail } => restore_from(t, then_fail, None),
    }
}

/// The next step once the awaited operation has succeeded (`ok`) or failed.
pub open spec fn resume_spec(t0: DebugTerminal, ok: bool) -> (DebugTerminal, TerminalRequest) {
    match t0.task {
        None => (t0, TerminalRequest::Done(Ok(false))),
        Some((task, op)) => {
            let t1 = if ok {
                applied(t0, op)
            } else {
                t0
            };
            let t = DebugTerminal { failed: t0.failed || !ok, ..t1 };
            match task {
                TerminalTask::EnterPause => if op == TerminalOperation::EnableRawMode {
                    if !ok {
                        done(t, Err(TerminalFailure::Operation))
                    } else if !t.alternate_screen {
                        perform(t, task, TerminalOperation::EnterAlternateScreen)
                    } else {
                        done(DebugTerminal { cursor_needs_show: true, ..t }, Ok(false))
                    }
                } else if op == TerminalOperation::EnterAlternateScreen {
                    if ok {
                        done(DebugTerminal { cursor_needs_show: true, ..t }, Ok(false))
                    } else {
                        perform(t, task, TerminalOperation::DisableRawMode)
                    }
                } else {
                    done(t, Err(TerminalFailure::Operation))
                },
                TerminalTask::FinishPause { keep_alternate_screen } => finish_from(t, keep_alternate_screen, op),
                TerminalTask::RevealConsole => if op == TerminalOperation::ShowCursor && t.alternate_screen {
                    perform(t, task, TerminalOperation::LeaveAlternateScreen)
                } else if t.failed {
                    restore_from(DebugTerminal { failed: false, ..t }, true, None)
                } else {
                    done(t, Ok(op == TerminalOperation::LeaveAlternateScreen))
                },
                TerminalTask::Restore { then_fail } => restore_from(t, then_fail, Some(op)),
            }
        },
    }
}

/// Runs the machine from `req` with every operation succeeding, for at most
/// `fuel` operations: the operations performed, the terminal afterwards and
/// the last request.
pub open spec fn run_succeeding(t: DebugTerminal, req: TerminalRequest, fuel: nat) -> (
    Seq<TerminalOperation>,
    DebugTerminal,
    TerminalRequest,
)
    decreases fuel,
{
    match req {
        TerminalRequest::Perform(op) => if fuel == 0 {
            (Seq::empty(), t, req)
        } else {
            let (t2, r2) = resume_spec(t, true);
            let (ops, t3, r3) = run_succeeding(t2, r2, (fuel - 1) as nat);
            (seq![op] + ops, t3, r3)
        },
        TerminalRequest::Done(_) => (Seq::empty(), t, req),
    }
}

/// `task` run from the terminal `t` with every operation succeeding.
pub open spec fn task_run(t: DebugTerminal, task: TerminalTask) -> (Seq<TerminalOperation>, DebugTerminal, TerminalRequest) {
    let (t1, r1) = start_spec(t, task);
    run_succeeding(t1, r1, 4)
}

/// Entering a pause outside a pause takes the keyboard and the alternate
/// screen, switching to the alternate screen only when it is not up yet.
pub proof fn entering_a_pause_takes_the_keyboard(t: DebugTerminal)
    requires
        !t.raw_mode,
    ensures
        ({
            let (ops, after, r) = task_run(t, TerminalTask::EnterPause);
            &&& r == TerminalRequest::Done(Ok(false))
            &&& after.raw_mode && after.alternate_screen && after.cursor_needs_show
            &&& ops == (if t.alternate_screen {
                seq![TerminalOperation::EnableRawMode]
            } else {
                seq![TerminalOperation::EnableRawMode, TerminalOperation::EnterAlternateScreen]
            })
        }),
{
    reveal_with_fuel(run_succeeding, 5);
}

/// Finishing a pause always leaves raw mode and shows the cursor; the
/// alternate screen stays only when it is kept.
pub proof fn finishing_a_pause_releases_the_keyboard(t: DebugTerminal, keep: bool)
    ensures
        ({
            let (ops, after, r) = task_run(t, TerminalTask::FinishPause { keep_alternate_screen: keep });
            &&& r == TerminalRequest::Done(Ok(false))
            &&& !after.raw_mode
            &&& !after.cursor_needs_show
            &&& after.alternate_screen == (t.alternate_screen && keep)
            &&& ops[0] == TerminalOperation::ShowCursor
        }),
{
    reveal_with_fuel(run_succeeding, 5);
}

/// Revealing the console outside a pause leaves the alternate screen and
/// reports whether it was up.
pub proof fn revealing_the_console_leaves_the_alternate_screen(t: DebugTerminal)
    requires
        !t.raw_mode,
    ensures
        ({
            let (ops, after, r) = task_run(t, TerminalTask::RevealConsole);
            &&& r == TerminalRequest::Done(Ok(t.alternate_screen))
            &&& !after.alternate_screen && !after.raw_mode
            &&& !after.cursor_needs_show
        }),
{
    reveal_with_fuel(run_succeeding, 5);
}

/// Restoring the terminal undoes everything the debugger changed.
pub proof fn restoring_returns_to_the_primary_screen(t: DebugTerminal)
    ensures
        ({
            let (ops, after, r) = task_run(t, TerminalTask::Restore { then_fail: false });
            &&& r == TerminalRequest::Done(Ok(false))
            &&& !after.alternate_screen && !after.raw_mode && !after.cursor_needs_show
        }),
{
    reveal_with_fuel(run_succeeding, 5);
}

impl DebugTerminal {
    /// The terminal before the debugger has touched it.
    pub fn new() -> (r: DebugTerminal)
        ensures
            !r.alternate_screen && !r.raw_mode && !r.cursor_needs_show,
            r.task is None && !r.failed,
    {
        DebugTerminal { alternate_screen: false, raw_mode: false, cursor_needs_show: false, task: None, failed: false }
    }

    /// Starts `task`, dropping any task under way.
    pub fn start(&mut self, task: TerminalTask) -> (r: TerminalRequest)
        ensures
            (*final(self), r) == start_spec(*old(self), task),
    {
        self.task = None;
        self.failed = false;
        match task {
            TerminalTask::EnterPause => if self.raw_mode {
                TerminalRequest::Done(Err(TerminalFailure::AlreadyPaused))
            } else {
                self.request(task, TerminalOperation::EnableRawMode)
            },
            TerminalTask::FinishPause { .. } => self.request(task, TerminalOperation::ShowCursor),
            TerminalTask::RevealConsole => if !self.alternate_screen {
                if self.cursor_needs_show {
                    self.request(task, TerminalOperation::ShowCursor)
                } else {
                    TerminalRequest::Done(Ok(false))
                }
            } else if self.raw_mode {
                TerminalRequest::Done(Err(TerminalFailure::RevealedWhilePaused))
            } else {
                self.request(task, TerminalOperation::ShowCursor)
            },
            TerminalTask::Restore { then_fail } => self.restore_step(then_fail, None),
        }
    }

    fn request(&mut self, task: TerminalTask, op: TerminalOperation) -> (r: TerminalRequest)
        ensures
            (*final(self), r) == perform(*old(self), task, op),
    {
        self.task = Some((task, op));
        TerminalRequest::Perform(op)
    }

    fn finish(&mut self, outcome: Result<bool, TerminalFailure>) -> (r: TerminalRequest)
        ensures
            (*final(self), r) == done(*old(self), outcome),
    {
        self.task = None;
        self.failed = false;
        TerminalRequest::Done(outcome)
    }

    fn settle(&mut self, fail: bool) -> (r: TerminalRequest)
        ensures
            (*final(self), r) == settled(*old(self), fail),
    {
        if self.failed || fail {
            self.finish(Err(TerminalFailure::Operation))
        } else {
            self.finish(Ok(false))
        }
    }

    fn restore_step(&mut self, then_fail: bool, after: Option<TerminalOperation>) -> (r: TerminalRequest)
        ensures
            (*final(self), r) == restore_from(*old(self), then_fail, after),
    {
        let task = TerminalTask::Restore { then_fail };
        let show_done = after.is_some();
        let leave_done = after == Some(TerminalOperation::LeaveAlternateScreen) || after == Some(
            TerminalOperation::DisableRawMode,
        );
        let disable_done = after == Some(TerminalOperation::DisableRawMode);
        if !show_done && (self.cursor_needs_show || self.alternate_screen) {
            self.request(task, TerminalOperation::ShowCursor)
        } else if !leave_done && self.alternate_screen {
            self.request(task, TerminalOperation::LeaveAlternateScreen)
        } else if !disable_done && self.raw_mode {
            self.request(task, TerminalOperation::DisableRawMode)
        } else {
            self.settle(then_fail)
        }
    }

    fn finish_step(&mut self, keep: bool, after: TerminalOperation) -> (r: TerminalRequest)
        ensures
            (*final(self), r) == finish_from(*old(self), keep, after),
    {
        let task = TerminalTask::FinishPause { keep_alternate_screen: keep };
        if after == TerminalOperation::ShowCursor && !keep && self.alternate_screen {
            self.request(task, TerminalOperation::LeaveAlternateScreen)
        } else if after != TerminalOperation::DisableRawMode && self.raw_mode {
            self.request(task, TerminalOperation::DisableRawMode)
        } else {
            self.settle(false)
        }
    }

    /// Takes the result of the awaited operation and gives the next step.
    pub fn resume(&mut self, ok: bool) -> (r: TerminalRequest)
        ensures
            (*final(self), r) == resume_spec(*old(self), ok),
    {
        let (task, op) = match self.task {
            None => return TerminalRequest::Done(Ok(false)),
            Some(pair) => pair,
        };
        if ok {
            match op {
                TerminalOperation::EnableRawMode => self.raw_mode = true,
                TerminalOperation::DisableRawMode => self.raw_mode = false,
                TerminalOperation::EnterAlternateScreen => self.alternate_screen = true,
                TerminalOperation::LeaveAlternateScreen => self.alternate_screen = false,
                TerminalOperation::ShowCursor => self.cursor_needs_show = false,
            }
        }
        self.failed = self.failed || !ok;
        match task {
            TerminalTask::EnterPause => if op == TerminalOperation::EnableRawMode {
                if !ok {
                    self.finish(Err(TerminalFailure::Operation))
                } else if !self.alternate_screen {
                    self.request(task, TerminalOperation::EnterAlternateScreen)
                } else {
                    self.cursor_needs_show = true;
                    self.finish(Ok(false))
                }
            } else if op == TerminalOperation::EnterAlternateScreen {
                if ok {
                    self.cursor_needs_show = true;
                    self.finish(Ok(false))
                } else {
                    self.request(task, TerminalOperation::DisableRawMode)
                }
            } else {
                self.finish(Err(TerminalFailure::Operation))
            },
            TerminalTask::FinishPause { keep_alternate_screen } => self.finish_step(keep_alternate_screen, op),
            TerminalTask::RevealConsole => if op == TerminalOperation::ShowCursor && self.alternate_screen {
                self.request(task, TerminalOperation::LeaveAlternateScreen)
            } else if self.failed {
                self.failed = false;
                self.restore_step(true, None)
            } else {
                self.finish(Ok(op == TerminalOperation::LeaveAlternateScreen))
            },
            TerminalTask::Restore { then_fail } => self.restore_step(then_fail, Some(op)),
        }
    }
}

} // verus!
