//! The front end's diagnostic: one per failure, carrying the source name,
//! a human-readable message, and the 1-based line and column it points at.

use vstd::prelude::*;

verus! {

/// A positioned diagnostic.  The front end never accumulates several: the
/// first failure is final.
#[derive(Debug)]
pub struct Error {
    pub name: String,
    pub text: String,
    pub line: u32,
    pub colm: u32,
}

/// The mathematical image of a diagnostic, without the source name: the
/// lexer and parser state machines speak of this, and the caller attaches
/// the name.
pub struct ErrView {
    pub text: Seq<char>,
    pub line: int,
    pub col: int,
}

/// Whether an executable diagnostic carries exactly the message and position
/// of a mathematical one.
pub open spec fn err_matches(e: &Error, v: ErrView) -> bool {
    e.text@ == v.text && e.line as int == v.line && e.colm as int == v.col
}

} // verus!
