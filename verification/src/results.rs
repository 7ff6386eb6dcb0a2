//! What a combinator hands back: on success a value, the span it covers and
//! the advanced cursor; on failure a located message. Failures never carry
//! an advanced cursor, so the caller may retry another alternative from its
//! own copy.

use vstd::prelude::*;
use vstd::string::StringExecFns;

use crate::location::{Location, Span};
use crate::source::ParseSrc;

verus! {

/// A located diagnostic: where the failure is anchored, and its message.
#[derive(Debug, Clone)]
pub struct ParseError {
    pub location: Location,
    pub message: String,
}

impl ParseError {
    pub fn new(location: Location, message: String) -> (e: ParseError)
        ensures
            e.location == location,
            e.message == message,
    {
        ParseError { location, message }
    }

    /// Prefix the message with a higher-level hint, keeping the location.
    pub fn wrap_message(self, msg: &str) -> (e: ParseError)
        ensures
            e.location == self.location,
            e.message@ == msg@ + ": "@ + self.message@,
    {
        let mut s = String::from_str(msg);
        s.append(": ");
        s.append(self.message.as_str());
        proof {
            assert(s@ =~= msg@ + ": "@ + self.message@);
        }
        ParseError { location: self.location, message: s }
    }

    /// Replace the message, keeping the location.
    pub fn sub_message(self, msg: String) -> (e: ParseError)
        ensures
            e.location == self.location,
            e.message == msg,
    {
        ParseError { location: self.location, message: msg }
    }
}

/// A successful parse: the value, the span of text it consumed, and the
/// cursor positioned just past the consumed input.
#[derive(Debug)]
pub struct ParseSuccess<'a, T> {
    pub value: T,
    pub span: Span,
    pub src: ParseSrc<'a>,
}

impl<'a, T> ParseSuccess<'a, T> {
    /// Apply `f` to the value, keeping the span and cursor.
    pub fn map<U, F: FnOnce(T) -> U>(self, f: F) -> (r: ParseSuccess<'a, U>)
        requires
            f.requires((self.value,)),
        ensures
            f.ensures((self.value,), r.value),
            r.span == self.span,
            r.src == self.src,
    {
        ParseSuccess { value: f(self.value), span: self.span, src: self.src }
    }
}

pub type ParseResult<'a, T> = Result<ParseSuccess<'a, T>, ParseError>;

} // verus!
