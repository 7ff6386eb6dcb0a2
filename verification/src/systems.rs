//! System declarations: the `system` tag, a name, and a parenthesized
//! list of the components the system depends on.

use vstd::prelude::*;

use crate::basic::strings::{lemma_lit_scan_word, lemma_skip_ws_bounds, lit_scan, parse_str, parse_whitespace, skip_ws};
use crate::comments::opener_err_msg;
use crate::function_like::{params_view, parse_function_parts, spec_function, FunctionParse};
use crate::location::Span;
use crate::results::{ParseResult, ParseSuccess};
use crate::source::ParseSrc;

verus! {

/// A named system with its positional dependencies.
#[derive(Debug, PartialEq, Eq)]
pub struct System {
    pub name: String,
    pub params: Vec<String>,
}

impl System {
    pub fn new(name: String, params: Vec<String>) -> (s: System)
        ensures
            s.name == name,
            s.params == params,
    {
        System { name, params }
    }
}

/// What the system rule yields at `i`: the `system` tag, then a
/// call-shaped declaration.
pub open spec fn spec_system(text: Seq<char>, i: int) -> FunctionParse {
    if !(lit_scan(text, i, "system"@, 0) is Done) {
        FunctionParse::FunctionFailed { at: i, msg: opener_err_msg(text, i, "system"@) }
    } else {
        spec_function(text, skip_ws(text, i + 6))
    }
}

/// Match a system declaration at the cursor: the `system` tag, a name,
/// and a parenthesized list of bare identifiers.
pub fn parse_system<'a>(src: ParseSrc<'a>) -> (r: ParseResult<'a, System>)
    requires
        src.wf(),
    ensures
        ({
            let text = src.text@;
            let i0 = src.pos();
            match r {
                Ok(s) => {
                    &&& spec_system(text, i0) matches FunctionParse::FunctionOk {
                        name,
                        params,
                        end,
                    }
                    &&& s.value.name@ == name
                    &&& params_view(s.value.params@) == params
                    &&& s.src.pos() == end
                    &&& s.src.pos() > i0
                    &&& s.src.wf()
                    &&& s.src.text == src.text
                    &&& s.span == (Span { start: src.location, end: s.src.location })
                },
                Err(e) => {
                    &&& spec_system(text, i0) matches FunctionParse::FunctionFailed { at, msg }
                    &&& crate::location::loc_wf(text, e.location)
                    &&& e.location.index == at
                    &&& e.message@ == msg
                },
            }
        }),
{
    let ghost text = src.text@;
    let ghost i0 = src.pos();
    let tag = crate::msg::str_to_chars("system");
    proof {
        reveal_strlit("system");
        assert forall|k: int| 0 <= k < tag@.len() implies #[trigger] tag@[k] != '\r' && tag@[k]
            != '\n' by {
            assert(tag@ == "system"@);
        }
        lemma_lit_scan_word(text, i0, tag@, 0);
    }
    let opener = match parse_str(tag.as_slice(), src) {
        Ok(o) => o,
        Err(e) => {
            return Err(e);
        },
    };
    let w = parse_whitespace(opener.src)?;
    proof {
        lemma_skip_ws_bounds(text, opener.src.pos());
    }
    let start = src;
    match parse_function_parts(w.src) {
        Ok(s) => {
            let (name, params) = s.value;
            let span = s.src.span_from(&start);
            Ok(ParseSuccess { value: System { name, params }, span, src: s.src })
        },
        Err(e) => Err(e),
    }
}

} // verus!
