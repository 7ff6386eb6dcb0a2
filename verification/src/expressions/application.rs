//! Applications: a maximal whitespace-separated run of one or more basic
//! expressions, gathered into a single node. Parsing stops at the end of
//! the input or at the first position where no further basic expression
//! matches.

use vstd::prelude::*;

use crate::ast::{exprs_view, lemma_exprs_view_push, Expression, SpecExpr};
use crate::basic::strings::{lemma_skip_ws_bounds, parse_whitespace};
use crate::expressions::{parse_basic_expression, spec_app_rest, spec_expression, SpecParse};
use crate::location::Span;
use crate::results::{ParseResult, ParseSuccess};
use crate::source::ParseSrc;

verus! {

/// Match an application at the cursor: one basic expression, then as many
/// more as follow, each separated by white space.
pub fn parse_application<'a>(src: ParseSrc<'a>) -> (r: ParseResult<'a, Expression>)
    requires
        src.wf(),
    ensures
        ({
            let text = src.text@;
            let i0 = src.pos();
            match r {
                Ok(s) => {
                    &&& spec_expression(text, i0) matches SpecParse::Parsed { v, end }
                    &&& s.value@ == v
                    &&& s.src.pos() == end
                    &&& s.src.pos() > i0
                    &&& s.src.wf()
                    &&& s.src.text == src.text
                    &&& s.span == (Span { start: src.location, end: s.src.location })
                },
                Err(e) => {
                    &&& spec_expression(text, i0) matches SpecParse::Failed { at, msg }
                    &&& crate::location::loc_wf(text, e.location)
                    &&& e.location.index == at
                    &&& e.message@ == msg
                },
            }
        }),
    decreases src.text@.len() - src.pos(), 2int,
{
    let ghost text = src.text@;
    let ghost i0 = src.pos();
    let start = src;
    let head = match parse_basic_expression(src) {
        Ok(h) => h,
        Err(e) => {
            return Err(e);
        },
    };
    let w = parse_whitespace(head.src)?;
    let mut cur = w.src;
    let mut items: Vec<Expression> = Vec::new();
    let ghost head_view = head.value@;
    items.push(head.value);
    proof {
        lemma_skip_ws_bounds(text, head.src.pos());
        lemma_exprs_view_push(Seq::<Expression>::empty(), head.value);
        assert(Seq::<Expression>::empty().push(head.value) =~= items@);
        assert(exprs_view(Seq::<Expression>::empty()) =~= Seq::<SpecExpr>::empty());
        assert(exprs_view(items@) =~= seq![head_view]);
        assert(spec_expression(text, i0) == spec_app_rest(text, cur.pos(), exprs_view(items@)));
    }
    loop
        invariant
            cur.wf(),
            cur.text == src.text,
            text == src.text@,
            i0 < cur.pos() <= text.len(),
            i0 == src.pos(),
            start == src,
            src.wf(),
            spec_expression(text, i0) == spec_app_rest(text, cur.pos(), exprs_view(items@)),
        ensures
            cur.wf(),
            cur.text == src.text,
            i0 < cur.pos() <= text.len(),
            spec_expression(text, i0) == (SpecParse::Parsed {
                v: SpecExpr::Application(exprs_view(items@)),
                end: cur.pos(),
            }),
        decreases text.len() - cur.pos(),
    {
        if cur.is_empty() {
            break ;
        }
        match parse_basic_expression(cur) {
            Ok(nx) => {
                let w2 = parse_whitespace(nx.src)?;
                let ghost prev = cur.pos();
                let ghost prev_items = items@;
                let ghost nx_view = nx.value@;
                cur = w2.src;
                items.push(nx.value);
                proof {
                    lemma_skip_ws_bounds(text, nx.src.pos());
                    lemma_exprs_view_push(prev_items, nx.value);
                    assert(spec_app_rest(text, prev, exprs_view(prev_items))
                        == spec_app_rest(text, cur.pos(), exprs_view(items@)));
                }
            },
            Err(_) => {
                break ;
            },
        }
    }
    proof {
        assert(Expression::Application(items)@ == SpecExpr::Application(exprs_view(items@)));
    }
    Ok(
        ParseSuccess {
            value: Expression::Application(items),
            span: cur.span_from(&start),
            src: cur,
        },
    )
}

} // verus!
