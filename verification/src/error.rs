use vstd::prelude::*;

verus! {

/// The kinds of error the front end reports.
#[derive(Debug, PartialEq, Eq, Clone, Copy, Structural)]
pub enum JSIErrorType {
    /// A token or an order of tokens that the grammar does not allow.
    SyntaxError,
    TypeError,
    /// A reference to a variable that does not exist.
    ReferenceError,
    /// A value out of its allowed range.
    RangeError,
    Unknown,
}

/// An error with its kind, message and source position.
#[derive(Debug, Clone)]
pub struct JSIError {
    pub error_type: JSIErrorType,
    pub message: String,
    pub line: i32,
    pub column: i32,
}

pub type JSIResult<T> = Result<T, JSIError>;

impl JSIError {
    pub fn new(error_type: JSIErrorType, message: String, line: i32, column: i32) -> (r: JSIError)
        ensures
            r.error_type == error_type,
            r.message@ == message@,
            r.line == line,
            r.column == column,
    {
        JSIError { error_type, message, line, column }
    }
}

} // verus!
