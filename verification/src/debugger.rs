//! What the debugger reports while a program is paused, and what it can be
//! asked to do next.
use std::ops::Range;
use vstd::prelude::*;

verus! {

/// Action selected while program execution is synchronously paused.
#[derive(Debug, Clone, Copy, PartialEq, Eq, Structural)]
pub enum DebugAction {
    Continue,
    StepInto,
    StepOver,
    StepOut,
    Restart,
    Abort,
}

/// Reason why execution entered the debugger.
#[derive(Debug, Clone, Copy, PartialEq, Eq, Structural)]
pub enum DebugPauseReason {
    Breakpoint,
    Step,
    PauseRequested,
}

/// Where execution stands: the line, the statement within it, the byte
/// range of that statement in `source` when known, the numbered source line
/// and the statement's text.
#[derive(Debug, PartialEq, Eq)]
pub struct DebugLocation {
    pub line: i32,
    pub statement: usize,
    pub source_span: Option<Range<usize>>,
    pub source: String,
    pub command: String,
}

impl Clone for DebugLocation {
    fn clone(&self) -> (r: DebugLocation)
        ensures
            r.line == self.line,
            r.statement == self.statement,
            r.source_span == self.source_span,
            r.source@ == self.source@,
            r.command@ == self.command@,
    {
        DebugLocation {
            line: self.line,
            statement: self.statement,
            source_span: match &self.source_span {
                Some(span) => Some(span.start..span.end),
                None => None,
            },
            source: self.source.clone(),
            command: self.command.clone(),
        }
    }
}

#[derive(Debug, Clone, Copy, PartialEq, Eq, Structural)]
pub enum DebugArrayKind {
    Number,
    String,
}

/// An array as the debugger lists it.
#[derive(Debug, Clone, PartialEq, Eq)]
pub struct DebugArraySummary {
    pub name: String,
    pub alias_of: Option<String>,
    pub kind: DebugArrayKind,
    pub dimensions: Vec<usize>,
    pub elements: usize,
}

#[derive(Debug, Clone, Copy, PartialEq, Eq, Structural)]
pub enum DebugFrameKind {
    Program,
    Gosub,
    Sub,
    Function,
    Timer,
    Mouse,
}

#[derive(Debug, Clone, PartialEq, Eq)]
pub struct DebugStackFrame {
    pub kind: DebugFrameKind,
    pub name: Option<String>,
    pub line: Option<i32>,
}

/// A BASIC timer: its number, the line it calls, whether it repeats and runs,
/// and its interval and the time left, in milliseconds.
#[derive(Debug, Clone, Copy, PartialEq, Eq, Structural)]
pub struct DebugTimerSnapshot {
    pub number: i32,
    pub target: i32,
    pub repeat: bool,
    pub active: bool,
    pub interval_ms: u64,
    pub remaining_ms: u64,
}

/// A visible debugger value, with concrete array indices rather than expressions.
#[derive(Debug, Clone, PartialEq, Eq)]
pub enum DebugEditTarget {
    Scalar(String),
    ArrayElement { name: String, indexes: Vec<i32> },
}

/// A complete statement in the numbered source line (UTF-8 byte offsets).
#[derive(Debug, PartialEq, Eq)]
pub struct DebugStatementTarget {
    pub line: i32,
    pub source_span: Range<usize>,
}

impl Clone for DebugStatementTarget {
    fn clone(&self) -> (r: DebugStatementTarget)
        ensures
            r == *self,
    {
        DebugStatementTarget { line: self.line, source_span: self.source_span.start..self.source_span.end }
    }
}



} // verus!
