//! Variables: a `$` immediately followed by an identifier, with no white
//! space permitted between the two.

use vstd::prelude::*;

use crate::ast::{Expression, SpecExpr};
use crate::basic::identifiers::{ident_end, msg_ident_bad_start, msg_ident_ended, parse_identifier};
use crate::basic::strings::{msg_char_mismatch, parse_char};
use crate::location::Span;
use crate::results::{ParseResult, ParseSuccess};
use crate::source::{logical_at, ParseSrc};
use crate::text::is_ident_start;

verus! {

/// The hint wrapped around an identifier failure after the `$` marker.
pub open spec fn msg_var_wrap(inner: Seq<char>) -> Seq<char> {
    "expected a variable name immediately after `$`"@ + ": "@ + inner
}

/// Whether a variable starts at `i`: a `$` with an identifier right after
/// it.
pub open spec fn variable_at(text: Seq<char>, i: int) -> bool {
    &&& 0 <= i
    &&& i < text.len()
    &&& logical_at(text, i) == '$'
    &&& i + 1 < text.len()
    &&& is_ident_start(logical_at(text, i + 1))
}

/// Match a variable at the cursor and yield the name after the marker. A
/// missing name is blamed on the position after the `$`; a missing `$`
/// fails at the cursor itself.
pub fn parse_variable_name<'a>(src: ParseSrc<'a>) -> (r: ParseResult<'a, String>)
    requires
        src.wf(),
    ensures
        ({
            let text = src.text@;
            let i0 = src.pos();
            match r {
                Ok(s) => {
                    &&& variable_at(text, i0)
                    &&& s.src.wf()
                    &&& s.src.text == src.text
                    &&& s.src.pos() == ident_end(text, i0 + 2)
                    &&& s.value@ == text.subrange(i0 + 1, ident_end(text, i0 + 2))
                    &&& s.span == (Span { start: src.location, end: s.src.location })
                },
                Err(e) => {
                    &&& !variable_at(text, i0)
                    &&& if i0 < text.len() && logical_at(text, i0) != '$' {
                        &&& e.location == src.location
                        &&& e.message@ == msg_char_mismatch('$', logical_at(text, i0))
                    } else if i0 == text.len() {
                        &&& e.location == src.location
                        &&& e.message@ == msg_var_wrap(msg_ident_ended())
                    } else {
                        &&& e.location.index == i0 + 1
                        &&& crate::location::loc_wf(text, e.location)
                        &&& e.message@ == if i0 + 1 < text.len() {
                            msg_var_wrap(msg_ident_bad_start(logical_at(text, i0 + 1)))
                        } else {
                            msg_var_wrap(msg_ident_ended())
                        }
                    }
                },
            }
        }),
{
    let ghost text = src.text@;
    let ghost i0 = src.pos();
    let start = src;
    let marker = match parse_char('$', src) {
        Ok(m) => m,
        Err(e) => {
            return Err(e);
        },
    };
    proof {
        if i0 < text.len() {
            assert(!crate::source::crlf_at(text, i0));
        }
    }
    let name = match parse_identifier(marker.src) {
        Ok(n) => n,
        Err(e) => {
            return Err(e.wrap_message("expected a variable name immediately after `$`"));
        },
    };
    Ok(ParseSuccess { value: name.value, span: name.src.span_from(&start), src: name.src })
}

/// Match a variable at the cursor, as an expression.
pub fn parse_variable<'a>(src: ParseSrc<'a>) -> (r: ParseResult<'a, Expression>)
    requires
        src.wf(),
    ensures
        ({
            let text = src.text@;
            let i0 = src.pos();
            match r {
                Ok(s) => {
                    &&& variable_at(text, i0)
                    &&& s.src.wf()
                    &&& s.src.text == src.text
                    &&& s.src.pos() == ident_end(text, i0 + 2)
                    &&& s.value@ == SpecExpr::Variable(
                        text.subrange(i0 + 1, ident_end(text, i0 + 2)),
                    )
                    &&& s.span == (Span { start: src.location, end: s.src.location })
                },
                Err(e) => {
                    &&& !variable_at(text, i0)
                    &&& if i0 < text.len() && logical_at(text, i0) != '$' {
                        &&& e.location == src.location
                        &&& e.message@ == msg_char_mismatch('$', logical_at(text, i0))
                    } else if i0 == text.len() {
                        &&& e.location == src.location
                        &&& e.message@ == msg_var_wrap(msg_ident_ended())
                    } else {
                        &&& e.location.index == i0 + 1
                        &&& crate::location::loc_wf(text, e.location)
                        &&& e.message@ == if i0 + 1 < text.len() {
                            msg_var_wrap(msg_ident_bad_start(logical_at(text, i0 + 1)))
                        } else {
                            msg_var_wrap(msg_ident_ended())
                        }
                    }
                },
            }
        }),
{
    match parse_variable_name(src) {
        Ok(s) => {
            Ok(ParseSuccess { value: Expression::Variable(s.value), span: s.span, src: s.src })
        },
        Err(e) => Err(e),
    }
}

} // verus!
