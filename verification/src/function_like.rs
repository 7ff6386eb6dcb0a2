//! Call-shaped declarations: a name followed by a parenthesized,
//! comma-separated list of bare identifiers, with a trailing comma
//! tolerated.

use vstd::prelude::*;

use crate::basic::identifiers::{ident_end, msg_ident_bad_start, msg_ident_ended, parse_identifier};
use crate::basic::strings::{lemma_skip_ws_bounds, msg_char_mismatch, parse_char, parse_whitespace, skip_ws};
use crate::location::Span;
use crate::results::{ParseResult, ParseSuccess};
use crate::source::{logical_at, logical_step, ParseSrc};
use crate::text::is_ident_start;

verus! {

/// A named rule with its positional dependencies.
#[derive(Debug, PartialEq, Eq)]
pub struct Function {
    pub name: String,
    pub params: Vec<String>,
}

impl Function {
    pub fn new(name: String, params: Vec<String>) -> (f: Function)
        ensures
            f.name == name,
            f.params == params,
    {
        Function { name, params }
    }
}

/// The views of a parameter list.
pub open spec fn params_view(s: Seq<String>) -> Seq<Seq<char>>
    decreases s,
{
    if s.len() == 0 {
        Seq::empty()
    } else {
        params_view(s.drop_last()).push(s.last()@)
    }
}

pub proof fn lemma_params_view_push(s: Seq<String>, p: String)
    ensures
        params_view(s.push(p)) == params_view(s).push(p@),
{
    assert(s.push(p).drop_last() =~= s);
    assert(s.push(p).last() == p);
}

/// What a call-shaped declaration yields at `i`.
pub enum FunctionParse {
    FunctionOk { name: Seq<char>, params: Seq<Seq<char>>, end: int },
    FunctionFailed { at: int, msg: Seq<char> },
}

/// The closing parenthesis after the parameters, white space tolerated.
pub open spec fn spec_params_close(
    text: Seq<char>,
    name: Seq<char>,
    p: int,
    acc: Seq<Seq<char>>,
) -> FunctionParse {
    let pw = skip_ws(text, p);
    if pw == text.len() {
        FunctionParse::FunctionOk { name, params: acc, end: pw }
    } else if logical_at(text, pw) == ')' {
        FunctionParse::FunctionOk { name, params: acc, end: logical_step(text, pw) }
    } else {
        FunctionParse::FunctionFailed { at: pw, msg: msg_char_mismatch(')', logical_at(text, pw)) }
    }
}

/// Further parameters after the first: a comma, white space, and an
/// identifier, repeated while they match.
pub open spec fn spec_params_rest(
    text: Seq<char>,
    name: Seq<char>,
    j: int,
    acc: Seq<Seq<char>>,
) -> FunctionParse
    decreases text.len() - j,
{
    if !(0 <= j <= text.len()) {
        FunctionParse::FunctionFailed { at: j, msg: Seq::empty() }
    } else if !(j == text.len() || logical_at(text, j) == ',') {
        spec_params_close(text, name, j, acc)
    } else {
        let jc = if j == text.len() {
            j
        } else {
            logical_step(text, j)
        };
        let j2 = skip_ws(text, jc);
        if j2 < text.len() && is_ident_start(logical_at(text, j2)) {
            let e = ident_end(text, j2 + 1);
            let j3 = skip_ws(text, e);
            if j < j3 <= text.len() {
                spec_params_rest(text, name, j3, acc.push(text.subrange(j2, e)))
            } else {
                FunctionParse::FunctionFailed { at: j3, msg: Seq::empty() }
            }
        } else {
            spec_params_close(text, name, j2, acc)
        }
    }
}

/// What the call-shaped rule yields at `i`: a name, `(`, bare
/// identifiers separated by commas, and `)`.
pub open spec fn spec_function(text: Seq<char>, i: int) -> FunctionParse {
    if !(0 <= i < text.len() && is_ident_start(logical_at(text, i))) {
        FunctionParse::FunctionFailed {
            at: i,
            msg: if 0 <= i < text.len() {
                msg_ident_bad_start(logical_at(text, i))
            } else {
                msg_ident_ended()
            },
        }
    } else {
        let e = ident_end(text, i + 1);
        let name = text.subrange(i, e);
        let j = skip_ws(text, e);
        if !(j == text.len() || logical_at(text, j) == '(') {
            FunctionParse::FunctionFailed {
                at: j,
                msg: msg_char_mismatch('(', logical_at(text, j)),
            }
        } else {
            let jo = if j == text.len() {
                j
            } else {
                logical_step(text, j)
            };
            let j2 = skip_ws(text, jo);
            if j2 < text.len() && is_ident_start(logical_at(text, j2)) {
                let e1 = ident_end(text, j2 + 1);
                spec_params_rest(text, name, e1, seq![text.subrange(j2, e1)])
            } else if j2 == text.len() {
                FunctionParse::FunctionOk { name, params: Seq::empty(), end: j2 }
            } else if logical_at(text, j2) == ')' {
                FunctionParse::FunctionOk {
                    name,
                    params: Seq::empty(),
                    end: logical_step(text, j2),
                }
            } else {
                FunctionParse::FunctionFailed {
                    at: j2,
                    msg: msg_char_mismatch(')', logical_at(text, j2)),
                }
            }
        }
    }
}

/// Match a call-shaped declaration at the cursor and hand back its name
/// and parameters.
pub fn parse_function_parts<'a>(src: ParseSrc<'a>) -> (r: ParseResult<'a, (String, Vec<String>)>)
    requires
        src.wf(),
    ensures
        ({
            let text = src.text@;
            let i0 = src.pos();
            match r {
                Ok(s) => {
                    &&& spec_function(text, i0) matches FunctionParse::FunctionOk {
                        name,
                        params,
                        end,
                    }
                    &&& s.value.0@ == name
                    &&& params_view(s.value.1@) == params
                    &&& s.src.pos() == end
                    &&& s.src.pos() > i0
                    &&& s.src.wf()
                    &&& s.src.text == src.text
                    &&& s.span == (Span { start: src.location, end: s.src.location })
                },
                Err(e) => {
                    &&& spec_function(text, i0) matches FunctionParse::FunctionFailed {
                        at,
                        msg,
                    }
                    &&& crate::location::loc_wf(text, e.location)
                    &&& e.location.index == at
                    &&& e.message@ == msg
                },
            }
        }),
{
    let ghost text = src.text@;
    let ghost i0 = src.pos();
    let start = src;
    let parsed_name = match parse_identifier(src) {
        Ok(n) => n,
        Err(e) => {
            return Err(e);
        },
    };
    let ghost name_v = parsed_name.value@;
    let w = parse_whitespace(parsed_name.src)?;
    proof {
        crate::basic::identifiers::lemma_ident_end_bounds(text, i0 + 1);
        lemma_skip_ws_bounds(text, parsed_name.src.pos());
    }
    let paren = match parse_char('(', w.src) {
        Ok(p) => p,
        Err(e) => {
            return Err(e);
        },
    };
    let w2 = parse_whitespace(paren.src)?;
    proof {
        if w.src.pos() < text.len() {
            lemma_skip_ws_bounds(text, logical_step(text, w.src.pos()));
        }
    }
    let mut params: Vec<String> = Vec::new();
    let mut cur: ParseSrc<'a>;
    match parse_identifier(w2.src) {
        Ok(first) => {
            proof {
                crate::basic::identifiers::lemma_ident_end_bounds(text, w2.src.pos() + 1);
            }
            params.push(first.value);
            cur = first.src;
            proof {
                lemma_params_view_push(Seq::<String>::empty(), first.value);
                assert(Seq::<String>::empty().push(first.value) =~= params@);
                assert(params_view(Seq::<String>::empty()) =~= Seq::<Seq<char>>::empty());
                assert(params_view(params@) =~= seq![first.value@]);
            }
        },
        Err(_) => {
            let fin = match parse_char(')', w2.src) {
                Ok(f) => f,
                Err(e) => {
                    return Err(e);
                },
            };
            proof {
                assert(params_view(params@) =~= Seq::<Seq<char>>::empty());
            }
            return Ok(
                ParseSuccess {
                    value: (parsed_name.value, params),
                    span: fin.src.span_from(&start),
                    src: fin.src,
                },
            );
        },
    }
    proof {
        assert(spec_function(text, i0) == spec_params_rest(text, name_v, cur.pos(), params_view(
            params@,
        )));
    }
    loop
        invariant_except_break
            spec_function(text, i0) == spec_params_rest(text, name_v, cur.pos(), params_view(
                params@,
            )),
        invariant
            cur.wf(),
            cur.text == src.text,
            text == src.text@,
            i0 < cur.pos() <= text.len(),
            i0 == src.pos(),
            start == src,
            src.wf(),
            name_v == parsed_name.value@,
        ensures
            cur.wf(),
            cur.text == src.text,
            i0 < cur.pos() <= text.len(),
            spec_function(text, i0) == spec_params_close(text, name_v, cur.pos(), params_view(
                params@,
            )),
        decreases text.len() - cur.pos(),
    {
        let ghost j = cur.pos();
        let ghost acc = params_view(params@);
        match parse_char(',', cur) {
            Ok(sep) => {
                let w3 = parse_whitespace(sep.src)?;
                proof {
                    if cur.pos() < text.len() {
                        lemma_skip_ws_bounds(text, logical_step(text, cur.pos()));
                    }
                }
                match parse_identifier(w3.src) {
                    Ok(p) => {
                        let w4 = parse_whitespace(p.src)?;
                        proof {
                            crate::basic::identifiers::lemma_ident_end_bounds(
                                text,
                                w3.src.pos() + 1,
                            );
                            lemma_skip_ws_bounds(text, p.src.pos());
                        }
                        let ghost prev_params = params@;
                        params.push(p.value);
                        cur = w4.src;
                        proof {
                            lemma_params_view_push(prev_params, p.value);
                            assert(spec_params_rest(text, name_v, j, acc) == spec_params_rest(
                                text,
                                name_v,
                                cur.pos(),
                                params_view(params@),
                            ));
                        }
                    },
                    Err(_) => {
                        cur = w3.src;
                        proof {
                            assert(spec_params_rest(text, name_v, j, acc) == spec_params_close(
                                text,
                                name_v,
                                cur.pos(),
                                params_view(params@),
                            ));
                        }
                        break ;
                    },
                }
            },
            Err(_) => {
                proof {
                    assert(spec_params_rest(text, name_v, j, acc) == spec_params_close(
                        text,
                        name_v,
                        cur.pos(),
                        params_view(params@),
                    ));
                }
                break ;
            },
        }
    }
    let w5 = parse_whitespace(cur)?;
    proof {
        lemma_skip_ws_bounds(text, cur.pos());
    }
    let fin = match parse_char(')', w5.src) {
        Ok(f) => f,
        Err(e) => {
            return Err(e);
        },
    };
    Ok(
        ParseSuccess {
            value: (parsed_name.value, params),
            span: fin.src.span_from(&start),
            src: fin.src,
        },
    )
}

/// Match a call-shaped declaration at the cursor: a name, `(`, a
/// comma-separated list of bare identifiers, and `)`.
pub fn parse_function<'a>(src: ParseSrc<'a>) -> (r: ParseResult<'a, Function>)
    requires
        src.wf(),
    ensures
        ({
            let text = src.text@;
            let i0 = src.pos();
            match r {
                Ok(s) => {
                    &&& spec_function(text, i0) matches FunctionParse::FunctionOk {
                        name,
                        params,
                        end,
                    }
                    &&& s.value.name@ == name
                    &&& params_view(s.value.params@) == params
                    &&& s.src.pos() == end
                    &&& s.src.pos() > i0
                    &&& s.src.wf()
                    &&& s.src.text == src.text
                    &&& s.span == (Span { start: src.location, end: s.src.location })
                },
                Err(e) => {
                    &&& spec_function(text, i0) matches FunctionParse::FunctionFailed {
                        at,
                        msg,
                    }
                    &&& crate::location::loc_wf(text, e.location)
                    &&& e.location.index == at
                    &&& e.message@ == msg
                },
            }
        }),
{
    match parse_function_parts(src) {
        Ok(s) => {
            let (name, params) = s.value;
            Ok(ParseSuccess { value: Function { name, params }, span: s.span, src: s.src })
        },
        Err(e) => Err(e),
    }
}

} // verus!
