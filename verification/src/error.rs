//! Diagnostics carried out of the scanner: every lexical error is
//! recoverable and becomes a positioned record for an external sink.

use vstd::prelude::*;

verus! {

/// The stage that detected a problem.
#[derive(Debug, Clone, Copy, PartialEq, Eq, Structural)]
pub enum ErrorType {
    Scanner,
    Parser,
    Syntax,
}

/// The mathematical model of a diagnostic: the stage, the message text,
/// and the line and column it points at.
#[verifier::ext_equal]
pub struct SpecError {
    pub kind: ErrorType,
    pub message: Seq<char>,
    pub line: int,
    pub col: int,
}

/// A positioned diagnostic record, handed to an external error sink.
#[derive(Debug, PartialEq)]
pub struct RuneError {
    pub error_type: ErrorType,
    pub message: String,
    pub line: usize,
    pub column: usize,
}

impl View for RuneError {
    type V = SpecError;

    open spec fn view(&self) -> SpecError {
        SpecError {
            kind: self.error_type,
            message: self.message@,
            line: self.line as int,
            col: self.column as int,
        }
    }
}

impl RuneError {
    /// Builds a diagnostic from its four fields.
    pub fn new(err_type: ErrorType, line: usize, col: usize, message: &str) -> (e: RuneError)
        ensures
            e.error_type == err_type,
            e.message@ == message@,
            e.line == line,
            e.column == col,
    {
        RuneError { error_type: err_type, message: String::from_str(message), line, column: col }
    }
}

} // verus!
