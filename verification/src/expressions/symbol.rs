//! Symbols: a bare identifier used as a value.

use vstd::prelude::*;

use crate::ast::{Expression, SpecExpr};
use crate::basic::identifiers::{ident_end, msg_ident_bad_start, msg_ident_ended, parse_identifier};
use crate::location::Span;
use crate::results::{ParseResult, ParseSuccess};
use crate::source::logical_at;
use crate::source::ParseSrc;
use crate::text::is_ident_start;

verus! {

/// Match an identifier at the cursor and wrap it as a symbol.
pub fn parse_symbol<'a>(src: ParseSrc<'a>) -> (r: ParseResult<'a, Expression>)
    requires
        src.wf(),
    ensures
        ({
            let text = src.text@;
            let i0 = src.pos();
            match r {
                Ok(s) => {
                    &&& i0 < text.len()
                    &&& is_ident_start(logical_at(text, i0))
                    &&& s.src.wf()
                    &&& s.src.text == src.text
                    &&& s.src.pos() == ident_end(text, i0 + 1)
                    &&& s.value@ == SpecExpr::Symbol(
                        text.subrange(i0, ident_end(text, i0 + 1)),
                    )
                    &&& s.span == (Span { start: src.location, end: s.src.location })
                },
                Err(e) => {
                    &&& !(i0 < text.len() && is_ident_start(logical_at(text, i0)))
                    &&& e.location == src.location
                    &&& e.message@ == if i0 < text.len() {
                        msg_ident_bad_start(logical_at(text, i0))
                    } else {
                        msg_ident_ended()
                    }
                },
            }
        }),
{
    match parse_identifier(src) {
        Ok(s) => {
            Ok(ParseSuccess { value: Expression::Symbol(s.value), span: s.span, src: s.src })
        },
        Err(e) => Err(e),
    }
}

} // verus!
