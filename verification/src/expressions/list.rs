//! Lists: `{ ... }` with whitespace-insensitive entries, each an
//! expression, optionally marked `...` for embedding, with `,` or `;`
//! accepted interchangeably as separators, trailing separators permitted.
//! An empty list `{}` is valid; a bare separator with no entry is not.

use vstd::prelude::*;

use crate::ast::{entries_view, lemma_entries_view_push, Expression, ListEntry, SpecExpr, SpecListEntry};
use crate::basic::strings::{lemma_lit_scan_triple, lemma_skip_ws_bounds, parse_char, parse_str, parse_whitespace};
use crate::expressions::{parse_expression, spec_expression, spec_list, spec_list_rest, SpecParse};
use crate::location::Span;
use crate::msg::str_to_chars;
use crate::results::{ParseResult, ParseSuccess};
use crate::source::{logical_step, ParseSrc};

verus! {

/// Match a list at the cursor: `{`, then entries separated by `,` or `;`,
/// then `}`.
#[verifier::rlimit(60)]
pub fn parse_list<'a>(src: ParseSrc<'a>) -> (r: ParseResult<'a, Expression>)
    requires
        src.wf(),
    ensures
        ({
            let text = src.text@;
            let i0 = src.pos();
            match r {
                Ok(s) => {
                    &&& spec_list(text, i0) matches SpecParse::Parsed { v, end }
                    &&& s.value@ == v
                    &&& s.src.pos() == end
                    &&& i0 < text.len() ==> s.src.pos() > i0
                    &&& s.src.pos() >= i0
                    &&& s.src.wf()
                    &&& s.src.text == src.text
                    &&& s.span == (Span { start: src.location, end: s.src.location })
                },
                Err(e) => {
                    &&& spec_list(text, i0) matches SpecParse::Failed { at, msg }
                    &&& crate::location::loc_wf(text, e.location)
                    &&& e.location.index == at
                    &&& e.message@ == msg
                },
            }
        }),
    decreases src.text@.len() - src.pos(), 0int,
{
    let ghost text = src.text@;
    let ghost i0 = src.pos();
    let start = src;
    let marker = match parse_char('{', src) {
        Ok(m) => m,
        Err(e) => {
            return Err(e);
        },
    };
    let w = parse_whitespace(marker.src)?;
    let mut cur = w.src;
    proof {
        if i0 < text.len() {
            lemma_skip_ws_bounds(text, logical_step(text, i0));
        }
    }
    match parse_char('}', cur) {
        Ok(finish) => {
            let empty_items: Vec<ListEntry> = Vec::new();
            proof {
                assert(entries_view(empty_items@) =~= Seq::<SpecListEntry>::empty());
            }
            return Ok(
                ParseSuccess {
                    value: Expression::List(empty_items),
                    span: finish.src.span_from(&start),
                    src: finish.src,
                },
            );
        },
        Err(_) => {},
    }
    let mut items: Vec<ListEntry> = Vec::new();
    proof {
        assert(entries_view(items@) =~= Seq::<SpecListEntry>::empty());
        assert(spec_list(text, i0) == spec_list_rest(text, cur.pos(), entries_view(items@)));
    }
    let dots = str_to_chars("...");
    proof {
        reveal_strlit("...");
        assert(dots@ =~= seq!['.', '.', '.']);
    }
    loop
        invariant
            cur.wf(),
            cur.text == src.text,
            text == src.text@,
            i0 < cur.pos() <= text.len(),
            i0 == src.pos(),
            start == src,
            src.wf(),
            dots@ == seq!['.', '.', '.'],
            spec_list(text, i0) == spec_list_rest(text, cur.pos(), entries_view(items@)),
        decreases text.len() - cur.pos(),
    {
        let ghost j = cur.pos();
        let ghost acc = entries_view(items@);
        proof {
            reveal_strlit("...");
            assert("..."@ =~= seq!['.', '.', '.']);
            lemma_lit_scan_triple(text, j, '.');
        }
        let mut emb = false;
        match parse_str(dots.as_slice(), cur) {
            Ok(m3) => {
                let w3 = parse_whitespace(m3.src)?;
                proof {
                    lemma_skip_ws_bounds(text, j + 3);
                }
                cur = w3.src;
                emb = true;
            },
            Err(_) => {},
        }
        let entry_expr = match parse_expression(cur) {
            Ok(x) => x,
            Err(e) => {
                proof {
                    assert(spec_list_rest(text, j, acc) == spec_expression(text, cur.pos()));
                }
                return Err(e);
            },
        };
        let entry = if emb {
            ListEntry::Embed(entry_expr.value)
        } else {
            ListEntry::Expr(entry_expr.value)
        };
        let ghost entry_v = entry@;
        let w2 = parse_whitespace(entry_expr.src)?;
        let mut after = w2.src;
        proof {
            lemma_skip_ws_bounds(text, entry_expr.src.pos());
        }
        match parse_char(';', after) {
            Ok(sp) => {
                let w4 = parse_whitespace(sp.src)?;
                proof {
                    if after.pos() < text.len() {
                        lemma_skip_ws_bounds(text, logical_step(text, after.pos()));
                    }
                }
                after = w4.src;
            },
            Err(_) => {
                match parse_char(',', after) {
                    Ok(sp) => {
                        let w4 = parse_whitespace(sp.src)?;
                        proof {
                            lemma_skip_ws_bounds(text, logical_step(text, after.pos()));
                        }
                        after = w4.src;
                    },
                    Err(_) => {},
                }
            },
        }
        let ghost prev_items = items@;
        items.push(entry);
        proof {
            lemma_entries_view_push(prev_items, entry);
        }
        match parse_char('}', after) {
            Ok(finish) => {
                proof {
                    assert(spec_list_rest(text, j, acc) == (SpecParse::Parsed {
                        v: SpecExpr::List(entries_view(items@)),
                        end: finish.src.pos(),
                    }));
                }
                return Ok(
                    ParseSuccess {
                        value: Expression::List(items),
                        span: finish.src.span_from(&start),
                        src: finish.src,
                    },
                );
            },
            Err(_) => {},
        }
        cur = after;
        proof {
            assert(spec_list_rest(text, j, acc) == spec_list_rest(
                text,
                cur.pos(),
                entries_view(items@),
            ));
        }
    }
}

} // verus!
