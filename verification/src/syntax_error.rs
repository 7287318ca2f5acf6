//! The diagnostics that come with a tree.

use vstd::prelude::*;

verus! {

/// A diagnostic of the parse: a message and the byte range of the source text it refers to.
#[derive(Debug, Clone, PartialEq, Eq, Hash)]
pub struct SyntaxError {
    message: String,
    start: u32,
    end: u32,
}

/// The mathematical value of a [`SyntaxError`].
pub struct SyntaxErrorModel {
    pub message: Seq<char>,
    pub start: int,
    pub end: int,
}

impl View for SyntaxError {
    type V = SyntaxErrorModel;

    closed spec fn view(&self) -> SyntaxErrorModel {
        SyntaxErrorModel { message: self.message@, start: self.start as int, end: self.end as int }
    }
}

/// The values of a sequence of diagnostics.
pub open spec fn errors_view(errors: Seq<SyntaxError>) -> Seq<SyntaxErrorModel> {
    Seq::new(errors.len(), |i: int| errors[i]@)
}

impl SyntaxError {
    /// A diagnostic for the bytes from `start` up to `end`.
    pub fn new(message: String, start: u32, end: u32) -> (e: SyntaxError)
        requires
            start <= end,
        ensures
            e@ == (SyntaxErrorModel { message: message@, start: start as int, end: end as int }),
    {
        SyntaxError { message, start, end }
    }

    /// A diagnostic for the empty range at `offset`.
    pub fn new_at_offset(message: String, offset: u32) -> (e: SyntaxError)
        ensures
            e@ == (SyntaxErrorModel {
                message: message@,
                start: offset as int,
                end: offset as int,
            }),
    {
        SyntaxError { message, start: offset, end: offset }
    }

    /// The message.
    pub fn message(&self) -> (m: &str)
        ensures
            m@ == self@.message,
    {
        self.message.as_str()
    }

    /// The byte range, as its start and its end.
    pub fn range(&self) -> (r: (u32, u32))
        ensures
            r.0 == self@.start,
            r.1 == self@.end,
    {
        (self.start, self.end)
    }
}

} // verus!
