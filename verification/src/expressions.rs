pub mod application;
pub mod common;
pub mod table;
pub mod integer;
pub mod list;
pub mod symbol;
pub mod variable;

use vstd::prelude::*;
use vstd::string::StringExecFns;

use crate::ast::{SpecExpr, SpecListEntry, Expression};
use crate::basic::identifiers::{ident_end, msg_ident_bad_start, msg_ident_ended};
use crate::basic::strings::{lit_scan, msg_char_mismatch, skip_ws};
use crate::location::Span;
use crate::msg::join3;
use crate::results::{ParseError, ParseResult, ParseSuccess};
use crate::source::{logical_at, logical_step, ParseSrc};
use crate::text::{is_digit, is_ident_start, is_space};

verus! {

/// The outcome of a grammar rule at a position: a value and the position
/// just past it, or a located message.
pub enum SpecParse {
    Parsed { v: SpecExpr, end: int },
    Failed { at: int, msg: Seq<char> },
}

/// The message reported when an expression is needed but the text ended.
pub open spec fn msg_basic_eof() -> Seq<char> {
    "expected a basic expression, but the source ended"@
}

/// A bounded preview of the text from `i` up to the next white space: at
/// most `left` characters, with an ellipsis where it was cut short.
pub open spec fn token_preview(text: Seq<char>, i: int, left: int) -> Seq<char>
    decreases text.len() - i,
{
    if !(0 <= i < text.len()) {
        Seq::empty()
    } else if is_space(logical_at(text, i)) {
        Seq::empty()
    } else if left <= 0 {
        "..."@
    } else {
        seq![logical_at(text, i)] + token_preview(text, logical_step(text, i), left - 1)
    }
}

/// The message naming a token no expression rule recognized.
pub open spec fn msg_unrecognized(text: Seq<char>, i: int) -> Seq<char> {
    "unrecognized expression: `"@ + token_preview(text, i, 100) + "`"@
}

/// What the variable rule yields at `i`, assuming a `$` stands there.
pub open spec fn spec_variable(text: Seq<char>, i: int) -> SpecParse {
    if i + 1 < text.len() && is_ident_start(logical_at(text, i + 1)) {
        SpecParse::Parsed {
            v: SpecExpr::Variable(text.subrange(i + 1, ident_end(text, i + 2))),
            end: ident_end(text, i + 2),
        }
    } else {
        SpecParse::Failed {
            at: i + 1,
            msg: crate::expressions::variable::msg_var_wrap(
                if i + 1 < text.len() {
                    msg_ident_bad_start(logical_at(text, i + 1))
                } else {
                    msg_ident_ended()
                },
            ),
        }
    }
}

/// What the integer-or-symbol fallback yields at `i`, assuming neither a
/// `$` nor a `{` stands there.
pub open spec fn spec_atom(text: Seq<char>, i: int) -> SpecParse {
    if is_digit(text[i]) {
        let e = crate::expressions::integer::int_run_end(text, i);
        let v = crate::expressions::integer::digits_value(text.subrange(i, e));
        if v <= i128::MAX {
            SpecParse::Parsed { v: SpecExpr::Integer(v), end: e }
        } else {
            SpecParse::Failed { at: i, msg: crate::expressions::integer::msg_int_overflow() }
        }
    } else if is_ident_start(logical_at(text, i)) {
        SpecParse::Parsed {
            v: SpecExpr::Symbol(text.subrange(i, ident_end(text, i + 1))),
            end: ident_end(text, i + 1),
        }
    } else {
        SpecParse::Failed { at: i, msg: msg_unrecognized(text, i) }
    }
}

/// What the basic-expression rule yields at `i`: dispatch by the next
/// character to a variable, a list, or the integer-or-symbol fallback.
pub open spec fn spec_basic(text: Seq<char>, i: int) -> SpecParse
    decreases text.len() - i, 1int,
{
    if !(0 <= i < text.len()) {
        SpecParse::Failed { at: i, msg: msg_basic_eof() }
    } else if logical_at(text, i) == '$' {
        spec_variable(text, i)
    } else if logical_at(text, i) == '{' {
        spec_list(text, i)
    } else {
        spec_atom(text, i)
    }
}

/// What the list rule yields at `i`. At the very end of the text the
/// brace matches succeed without consuming anything, so an empty list is
/// read there.
pub open spec fn spec_list(text: Seq<char>, i: int) -> SpecParse
    decreases text.len() - i, 0int,
{
    if !(0 <= i <= text.len()) {
        SpecParse::Failed { at: i, msg: Seq::empty() }
    } else if i == text.len() {
        SpecParse::Parsed { v: SpecExpr::List(Seq::empty()), end: i }
    } else if logical_at(text, i) != '{' {
        SpecParse::Failed { at: i, msg: msg_char_mismatch('{', logical_at(text, i)) }
    } else {
        let j = skip_ws(text, logical_step(text, i));
        if j == text.len() {
            SpecParse::Parsed { v: SpecExpr::List(Seq::empty()), end: j }
        } else if logical_at(text, j) == '}' {
            SpecParse::Parsed { v: SpecExpr::List(Seq::empty()), end: logical_step(text, j) }
        } else if i < j <= text.len() {
            spec_list_rest(text, j, Seq::empty())
        } else {
            SpecParse::Failed { at: j, msg: Seq::empty() }
        }
    }
}

/// One entry of a list followed by the rest: an optional `...` embedding
/// marker, an expression, an optional separator, then either the closing
/// brace or further entries.
pub open spec fn spec_list_rest(text: Seq<char>, j: int, acc: Seq<SpecListEntry>) -> SpecParse
    decreases text.len() - j, 3int,
{
    if !(0 <= j <= text.len()) {
        SpecParse::Failed { at: j, msg: Seq::empty() }
    } else {
        let emb = lit_scan(text, j, "..."@, 0) is Done;
        let j1 = if emb {
            skip_ws(text, j + 3)
        } else {
            j
        };
        if emb && !(j < j1 <= text.len()) {
            SpecParse::Failed { at: j1, msg: Seq::empty() }
        } else {
            match spec_expression(text, j1) {
                SpecParse::Failed { at, msg } => SpecParse::Failed { at, msg },
                SpecParse::Parsed { v, end } => {
                    let entry = if emb {
                        SpecListEntry::Embed(v)
                    } else {
                        SpecListEntry::Expr(v)
                    };
                    let j2 = skip_ws(text, end);
                    let j3 = if j2 < text.len() && (logical_at(text, j2) == ';' || logical_at(
                        text,
                        j2,
                    ) == ',') {
                        skip_ws(text, logical_step(text, j2))
                    } else {
                        j2
                    };
                    if j3 >= text.len() {
                        SpecParse::Parsed { v: SpecExpr::List(acc.push(entry)), end: j3 }
                    } else if logical_at(text, j3) == '}' {
                        SpecParse::Parsed {
                            v: SpecExpr::List(acc.push(entry)),
                            end: logical_step(text, j3),
                        }
                    } else if j < j3 {
                        spec_list_rest(text, j3, acc.push(entry))
                    } else {
                        SpecParse::Failed { at: j3, msg: Seq::empty() }
                    }
                },
            }
        }
    }
}

/// What the application rule yields at `i`: one basic expression, then as
/// many more as follow, joined by white space.
pub open spec fn spec_expression(text: Seq<char>, i: int) -> SpecParse
    decreases text.len() - i, 2int,
{
    match spec_basic(text, i) {
        SpecParse::Failed { at, msg } => SpecParse::Failed { at, msg },
        SpecParse::Parsed { v, end } => {
            let j = skip_ws(text, end);
            if i < j <= text.len() {
                spec_app_rest(text, j, seq![v])
            } else {
                SpecParse::Parsed { v: SpecExpr::Application(seq![v]), end: j }
            }
        },
    }
}

/// The remaining basic expressions of an application, if any.
pub open spec fn spec_app_rest(text: Seq<char>, j: int, acc: Seq<SpecExpr>) -> SpecParse
    decreases text.len() - j, 4int,
{
    if j >= text.len() {
        SpecParse::Parsed { v: SpecExpr::Application(acc), end: j }
    } else {
        match spec_basic(text, j) {
            SpecParse::Failed { at, msg } => SpecParse::Parsed {
                v: SpecExpr::Application(acc),
                end: j,
            },
            SpecParse::Parsed { v, end } => {
                let j2 = skip_ws(text, end);
                if j < j2 <= text.len() {
                    spec_app_rest(text, j2, acc.push(v))
                } else {
                    SpecParse::Parsed { v: SpecExpr::Application(acc.push(v)), end: j2 }
                }
            },
        }
    }
}

/// A bounded, whitespace-delimited preview of the text at the cursor, for
/// diagnostics.
pub fn token_preview_chars<'a>(src: &ParseSrc<'a>) -> (r: Vec<char>)
    requires
        src.wf(),
    ensures
        r@ == token_preview(src.text@, src.pos(), 100),
{
    let mut cur = *src;
    let mut out: Vec<char> = Vec::new();
    let mut left: usize = 100;
    let ghost text = src.text@;
    loop
        invariant
            cur.wf(),
            cur.text == src.text,
            text == src.text@,
            src.wf(),
            left <= 100,
            token_preview(text, src.pos(), 100) == out@ + token_preview(
                text,
                cur.pos(),
                left as int,
            ),
        ensures
            out@ == token_preview(text, src.pos(), 100),
        decreases text.len() - cur.pos(),
    {
        let c = match cur.peek() {
            Some(c) => c,
            None => {
                proof {
                    assert(out@ + token_preview(text, cur.pos(), left as int) =~= out@);
                }
                break ;
            },
        };
        if crate::text::space_char(c) {
            proof {
                assert(out@ + token_preview(text, cur.pos(), left as int) =~= out@);
            }
            break ;
        }
        if left == 0 {
            proof {
                reveal_strlit("...");
            }
            out.push('.');
            out.push('.');
            out.push('.');
            proof {
                assert(out@ =~= token_preview(text, src.pos(), 100));
            }
            return out;
        }
        let ghost prev_out = out@;
        let ghost prev_pos = cur.pos();
        let ghost prev_left = left as int;
        out.push(c);
        let _ = cur.next();
        left = left - 1;
        proof {
            assert(token_preview(text, prev_pos, prev_left) == seq![c] + token_preview(
                text,
                cur.pos(),
                left as int,
            ));
            assert(prev_out + (seq![c] + token_preview(text, cur.pos(), left as int)) =~= out@
                + token_preview(text, cur.pos(), left as int));
        }
    }
    out
}

impl<'a> ParseSrc<'a> {
    /// A bounded, whitespace-delimited preview of the remaining text, to
    /// help name an unrecognized token in a message.
    pub fn peek_next_token_ish(&self) -> (r: String)
        requires
            self.wf(),
        ensures
            r@ == token_preview(self.text@, self.pos(), 100),
    {
        let cs = token_preview_chars(self);
        crate::msg::chars_to_string(cs.as_slice())
    }
}

/// Match one basic expression at the cursor: dispatch on the next
/// character to the variable, list, or integer / symbol rules, and name
/// the unrecognized token otherwise.
pub fn parse_basic_expression<'a>(src: ParseSrc<'a>) -> (r: ParseResult<'a, Expression>)
    requires
        src.wf(),
    ensures
        ({
            let text = src.text@;
            let i0 = src.pos();
            match r {
                Ok(s) => {
                    &&& spec_basic(text, i0) matches SpecParse::Parsed { v, end }
                    &&& s.value@ == v
                    &&& s.src.pos() == end
                    &&& s.src.pos() > i0
                    &&& s.src.wf()
                    &&& s.src.text == src.text
                },
                Err(e) => {
                    &&& spec_basic(text, i0) matches SpecParse::Failed { at, msg }
                    &&& crate::location::loc_wf(text, e.location)
                    &&& e.location.index == at
                    &&& e.message@ == msg
                },
            }
        }),
    decreases src.text@.len() - src.pos(), 1int,
{
    let ghost text = src.text@;
    let ghost i0 = src.pos();
    let head = match src.peek() {
        Some(c) => c,
        None => {
            return Err(
                ParseError::new(
                    src.location,
                    String::from_str("expected a basic expression, but the source ended"),
                ),
            );
        },
    };
    if head == '$' {
        let r = crate::expressions::variable::parse_variable(src);
        proof {
            if i0 + 1 < text.len() && is_ident_start(logical_at(text, i0 + 1)) {
                crate::basic::identifiers::lemma_ident_end_bounds(text, i0 + 2);
            }
        }
        match r {
            Ok(s) => Ok(s),
            Err(e) => Err(e),
        }
    } else if head == '{' {
        match crate::expressions::list::parse_list(src) {
            Ok(s) => Ok(s),
            Err(e) => Err(e),
        }
    } else {
        let by_int = crate::expressions::integer::parse_integer(src);
        match by_int {
            Ok(s) => {
                proof {
                    crate::expressions::integer::lemma_int_run_bounds(text, i0 + 1);
                }
                Ok(s)
            },
            Err(int_err) => {
                if digit_probe(&src) {
                    return Err(int_err);
                }
                proof {
                    if i0 < text.len() && is_ident_start(logical_at(text, i0)) {
                        crate::basic::identifiers::lemma_ident_end_bounds(text, i0 + 1);
                    }
                }
                match crate::expressions::symbol::parse_symbol(src) {
                    Ok(s) => Ok(s),
                    Err(_) => {
                        let preview = token_preview_chars(&src);
                        let m = join3("unrecognized expression: `", preview.as_slice(), "`");
                        Err(ParseError::new(src.location, m))
                    },
                }
            },
        }
    }
}

/// Whether an ASCII digit stands at the cursor.
pub fn digit_probe<'a>(src: &ParseSrc<'a>) -> (r: bool)
    requires
        src.wf(),
    ensures
        r == (src.pos() < src.text@.len() && is_digit(src.text@[src.pos()])),
{
    match src.peek() {
        Some(c) => {
            let d = crate::text::digit_char(c);
            proof {
                if crate::source::crlf_at(src.text@, src.pos()) {
                    assert(!is_digit(src.text@[src.pos()]));
                    assert(!is_digit(c));
                }
            }
            d
        },
        None => false,
    }
}

/// Match one expression at the cursor: an application of one or more
/// basic expressions.
pub fn parse_expression<'a>(src: ParseSrc<'a>) -> (r: ParseResult<'a, Expression>)
    requires
        src.wf(),
    ensures
        ({
            let text = src.text@;
            let i0 = src.pos();
            match r {
                Ok(s) => {
                    &&& spec_expression(text, i0) matches SpecParse::Parsed { v, end }
                    &&& s.value@ == v
                    &&& s.src.pos() == end
                    &&& s.src.pos() > i0
                    &&& s.src.wf()
                    &&& s.src.text == src.text
                },
                Err(e) => {
                    &&& spec_expression(text, i0) matches SpecParse::Failed { at, msg }
                    &&& crate::location::loc_wf(text, e.location)
                    &&& e.location.index == at
                    &&& e.message@ == msg
                },
            }
        }),
    decreases src.text@.len() - src.pos(), 3int,
{
    crate::expressions::application::parse_application(src)
}

/// What the document rule yields: the expressions of the input in order.
pub enum DocParse {
    DocOk { items: Seq<SpecExpr>, end: int },
    DocFailed { at: int, msg: Seq<char> },
}

/// Skip one `;` or `,` separator and the white space after it, if a
/// separator stands at `j`.
pub open spec fn sep_skip(text: Seq<char>, j: int) -> int {
    if 0 <= j < text.len() && (logical_at(text, j) == ';' || logical_at(text, j) == ',') {
        skip_ws(text, logical_step(text, j))
    } else {
        j
    }
}

/// The expressions of the document from `j` to the end of the input,
/// separated by optional `;` or `,`.
pub open spec fn spec_document_rest(text: Seq<char>, j: int, acc: Seq<SpecExpr>) -> DocParse
    decreases text.len() - j,
{
    if !(0 <= j <= text.len()) {
        DocParse::DocFailed { at: j, msg: Seq::empty() }
    } else if j == text.len() {
        DocParse::DocOk { items: acc, end: j }
    } else {
        match spec_expression(text, j) {
            SpecParse::Failed { at, msg } => DocParse::DocFailed { at, msg },
            SpecParse::Parsed { v, end } => {
                let j3 = sep_skip(text, skip_ws(text, end));
                if j < j3 <= text.len() {
                    spec_document_rest(text, j3, acc.push(v))
                } else {
                    DocParse::DocFailed { at: j3, msg: Seq::empty() }
                }
            },
        }
    }
}

/// What parsing a whole expression document yields at `i`: optional
/// leading white space and separator, then expressions to the end.
pub open spec fn spec_document(text: Seq<char>, i: int) -> DocParse {
    spec_document_rest(text, sep_skip(text, skip_ws(text, i)), Seq::empty())
}

/// Consume one `;` or `,` separator and trailing white space, if present.
fn eat_separator<'a>(src: ParseSrc<'a>) -> (r: ParseSrc<'a>)
    requires
        src.wf(),
    ensures
        r.wf(),
        r.text == src.text,
        r.pos() == sep_skip(src.text@, src.pos()),
        r.pos() >= src.pos(),
{
    let ghost text = src.text@;
    match crate::basic::strings::parse_char(';', src) {
        Ok(s1) => {
            let w = match crate::basic::strings::parse_whitespace(s1.src) {
                Ok(w) => w,
                Err(_) => {
                    return src;
                },
            };
            proof {
                if src.pos() < text.len() {
                    crate::basic::strings::lemma_skip_ws_bounds(
                        text,
                        logical_step(text, src.pos()),
                    );
                }
            }
            w.src
        },
        Err(_) => {
            match crate::basic::strings::parse_char(',', src) {
                Ok(s2) => {
                    let w = match crate::basic::strings::parse_whitespace(s2.src) {
                        Ok(w) => w,
                        Err(_) => {
                            return src;
                        },
                    };
                    proof {
                        crate::basic::strings::lemma_skip_ws_bounds(
                            text,
                            logical_step(text, src.pos()),
                        );
                    }
                    w.src
                },
                Err(_) => src,
            }
        },
    }
}

/// Parse a whole expression document at the cursor: white space, an
/// optional leading separator, then expressions separated by optional
/// `;` or `,`, until the end of the input.
pub fn parse<'a>(src: ParseSrc<'a>) -> (r: ParseResult<'a, crate::ast::Ast>)
    requires
        src.wf(),
    ensures
        ({
            let text = src.text@;
            let i0 = src.pos();
            match r {
                Ok(s) => {
                    &&& spec_document(text, i0) matches DocParse::DocOk { items, end }
                    &&& crate::ast::exprs_view(s.value.0@) == items
                    &&& s.src.pos() == end
                    &&& s.src.wf()
                    &&& s.src.text == src.text
                    &&& s.span == (Span { start: src.location, end: s.src.location })
                },
                Err(e) => {
                    &&& spec_document(text, i0) matches DocParse::DocFailed { at, msg }
                    &&& crate::location::loc_wf(text, e.location)
                    &&& e.location.index == at
                    &&& e.message@ == msg
                },
            }
        }),
{
    let ghost text = src.text@;
    let ghost i0 = src.pos();
    let start = src;
    let w = crate::basic::strings::parse_whitespace(src)?;
    proof {
        crate::basic::strings::lemma_skip_ws_bounds(text, i0);
    }
    let mut cur = eat_separator(w.src);
    let mut items: Vec<Expression> = Vec::new();
    proof {
        assert(crate::ast::exprs_view(items@) =~= Seq::<SpecExpr>::empty());
    }
    loop
        invariant
            cur.wf(),
            cur.text == src.text,
            text == src.text@,
            i0 <= cur.pos() <= text.len(),
            i0 == src.pos(),
            start == src,
            src.wf(),
            spec_document(text, i0) == spec_document_rest(text, cur.pos(), crate::ast::exprs_view(
                items@,
            )),
        decreases text.len() - cur.pos(),
    {
        let ghost j = cur.pos();
        let ghost acc = crate::ast::exprs_view(items@);
        if cur.is_empty() {
            return Ok(
                ParseSuccess {
                    value: crate::ast::Ast(items),
                    span: cur.span_from(&start),
                    src: cur,
                },
            );
        }
        let expr = match parse_expression(cur) {
            Ok(x) => x,
            Err(e) => {
                return Err(e);
            },
        };
        let w2 = crate::basic::strings::parse_whitespace(expr.src)?;
        proof {
            crate::basic::strings::lemma_skip_ws_bounds(text, expr.src.pos());
        }
        let ghost prev_items = items@;
        let after = eat_separator(w2.src);
        items.push(expr.value);
        cur = after;
        proof {
            crate::ast::lemma_exprs_view_push(prev_items, expr.value);
            assert(spec_document_rest(text, j, acc) == spec_document_rest(
                text,
                cur.pos(),
                crate::ast::exprs_view(items@),
            ));
        }
    }
}


} // verus!
