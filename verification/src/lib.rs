use vstd::prelude::*;
use vstd::string::*;

pub mod action;
pub mod config;
pub mod engine;
pub mod ext;
pub mod grammar;
pub mod model;
pub mod text;

verus! {

/// A ghost description of an error: its message, and the 0-based line it
/// points at, where one applies.
pub ghost struct ErrorRep {
    pub message: Seq<char>,
    pub line: Option<int>,
}

/// The error type carried by every fallible operation of this crate:
/// a plain message describing what went wrong, and the offending line's
/// 0-based index where the failure concerns one.
#[derive(Debug)]
pub struct Error {
    message: String,
    line: Option<usize>,
}

impl View for Error {
    type V = ErrorRep;

    closed spec fn view(&self) -> ErrorRep {
        ErrorRep {
            message: self.message@,
            line: match self.line {
                Some(k) => Some(k as int),
                None => None,
            },
        }
    }
}

impl Error {
    pub fn new(message: &str) -> (e: Error)
        ensures
            e@.message == message@,
            e@.line is None,
    {
        Error { message: String::from_str(message), line: None }
    }

    /// The same error, now pointing at a line of the document.
    pub fn with_line(self, line: usize) -> (e: Error)
        ensures
            e@.message == self@.message,
            e@.line == Some(line as int),
    {
        Error { message: self.message, line: Some(line) }
    }

    /// The human-readable description of the failure.
    pub fn message(&self) -> (m: &String)
        ensures
            m@ == self@.message,
    {
        &self.message
    }

    /// The 0-based index of the offending line, where the failure concerns
    /// one.
    pub fn line(&self) -> (r: Option<usize>)
        ensures
            r matches Some(k) ==> self@.line == Some(k as int),
            r is None ==> self@.line is None,
    {
        self.line
    }
}

/// Runs a fallible body and reports whether it succeeded; the body's own
/// contract says what its result can be.
pub fn with_trace<F: Fn() -> Result<(), Error>>(f: F) -> (ok: bool)
    requires
        call_requires(f, ()),
    ensures
        exists|r: Result<(), Error>| #[trigger] call_ensures(f, (), r) && ok == (r is Ok),
{
    match f() {
        Ok(_) => true,
        Err(_) => false,
    }
}

} // verus!
