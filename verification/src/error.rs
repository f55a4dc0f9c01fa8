//! Errors that BASIC statements raise.
use vstd::prelude::*;

verus! {

/// The error codes that the library's own checks raise.
#[derive(Debug, Clone, Copy, PartialEq, Eq, Structural)]
pub enum ErrorCode {
    InvalidArgument,
    InvalidValue,
    FileNotOpen,
    BadFileMode,
    InputPastEnd,
    FileAlreadyOpen,
    InvalidFileData,
    FileNotFound,
    FileIoError,
}

/// A BASIC error: its code, the line where it happened, and an optional
/// detail that replaces the code's message.
#[derive(Debug)]
pub struct BasicError {
    pub code: ErrorCode,
    pub line: Option<i32>,
    pub detail: Option<String>,
}

impl BasicError {
    pub fn new(code: ErrorCode) -> (r: BasicError)
        ensures
            r.code == code,
            r.line is None,
            r.detail is None,
    {
        BasicError { code, line: None, detail: None }
    }

    /// The error, raised at `line`.
    pub fn at_line(self, line: i32) -> (r: BasicError)
        ensures
            r.code == self.code,
            r.line == Some(line),
            r.detail == self.detail,
    {
        let mut e = self;
        e.line = Some(line);
        e
    }

    /// The error, with `detail` as its message.
    pub fn with_detail(self, detail: String) -> (r: BasicError)
        ensures
            r.code == self.code,
            r.line == self.line,
            r.detail == Some(detail),
    {
        let mut e = self;
        e.detail = Some(detail);
        e
    }

    /// The text BASIC shows for the error: the detail, or else the code's
    /// message `code_message`, after `Line N. ` when the line is known.
    pub fn display_for_basic(&self, code_message: &str) -> (r: String)
        ensures
            r@ == basic_display(self.line, match &self.detail {
                Some(d) => d@,
                None => code_message@,
            }),
    {
        let message: Vec<char> = match &self.detail {
            Some(d) => crate::text::str_chars(d.as_str()),
            None => crate::text::str_chars(code_message),
        };
        match self.line {
            Some(line) => {
                let mut out = crate::text::str_chars("Line ");
                let digits = crate::text::i32_to_decimal(line);
                crate::text::extend_with_chars(&mut out, &digits);
                crate::text::extend_with_str(&mut out, ". ");
                crate::text::extend_with_chars(&mut out, &message);
                crate::text::string_from_chars(&out)
            },
            None => crate::text::string_from_chars(&message),
        }
    }
}

/// `message`, after `Line N. ` when the line `N` is known.
pub open spec fn basic_display(line: Option<i32>, message: Seq<char>) -> Seq<char> {
    match line {
        Some(l) => "Line "@ + crate::text::int_decimal(l as int) + ". "@ + message,
        None => message,
    }
}

} // verus!
