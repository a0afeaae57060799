//! The error type reported when a date string cannot be parsed.
//!
//! Date-string parsing itself talks to the calendar library and lives with
//! the command-line wiring; the core only defines the error it reports.

use vstd::prelude::*;

verus! {

/// A date string could not be parsed.
#[derive(Debug, PartialEq, Eq)]
pub struct ParseError {
    source: String,
}

impl View for ParseError {
    type V = Seq<char>;

    closed spec fn view(&self) -> Seq<char> {
        self.source@
    }
}

impl ParseError {
    /// Wrap the description of what failed to parse.
    pub fn new(source: String) -> (r: ParseError)
        ensures
            r@ == source@,
    {
        ParseError { source }
    }
}

} // verus!
