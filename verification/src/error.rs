//! Structured error type + exit-code mapping for the AXI family convention.
//!
//! Exit codes: 0 = success (including partial), 1 = operational failure,
//! 2 = usage / validation error.

use vstd::prelude::*;
use crate::text::str_eq;

verus! {

/// The code that marks a usage / validation error.
pub open spec fn validation_code() -> Seq<char> {
    "VALIDATION_ERROR"@
}

/// A structured CLI error carrying a message, `code`, and optional `help` suggestions.
#[derive(Debug)]
pub struct CmuxError {
    pub message: String,
    pub code: &'static str,
    pub suggestions: Vec<String>,
}

impl CmuxError {
    /// An operational failure with the given code.
    pub fn operational(message: &str, code: &'static str) -> (r: CmuxError)
        ensures
            r.message@ == message@,
            r.code@ == code@,
            r.suggestions@.len() == 0,
    {
        CmuxError { message: String::from_str(message), code, suggestions: Vec::new() }
    }

    /// A usage / validation error.
    pub fn usage(message: &str) -> (r: CmuxError)
        ensures
            r.message@ == message@,
            r.code@ == validation_code(),
            r.suggestions@.len() == 0,
    {
        CmuxError { message: String::from_str(message), code: "VALIDATION_ERROR", suggestions: Vec::new() }
    }

    /// The same error with `suggestions` as its help lines.
    pub fn with_suggestions(self, suggestions: Vec<String>) -> (r: CmuxError)
        ensures
            r.message == self.message,
            r.code == self.code,
            r.suggestions == suggestions,
    {
        let mut e = self;
        e.suggestions = suggestions;
        e
    }

    /// 2 for validation/usage, 1 otherwise.
    pub fn exit_code(&self) -> (r: i32)
        ensures
            r == if self.code@ == validation_code() { 2i32 } else { 1i32 },
    {
        if str_eq(self.code, "VALIDATION_ERROR") {
            2
        } else {
            1
        }
    }
}

} // verus!
