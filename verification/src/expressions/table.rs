//! Tables: `{ ... }` with whitespace-insensitive entries. An entry is an
//! expression, optionally marked `...` for embedding; a bare symbol
//! followed by `=` becomes a key instead, and the expression after the
//! `=` its value. Embedding is not permitted as a keyed value. Entries
//! are separated by `,` or `;`, the two interchangeable, with a trailing
//! separator permitted; `{}` is a valid empty table.

use vstd::prelude::*;
use vstd::string::StringExecFns;

use crate::basic::identifiers::{ident_end, parse_identifier};
use crate::basic::strings::{lemma_lit_scan_triple, lemma_skip_ws_bounds, lit_scan, msg_char_mismatch, parse_char, parse_str, parse_whitespace, skip_ws};
use crate::expressions::common::{keyed_insert, Expression, SpecTable, SpecTableEntry, SpecTableExpr, Table, TableEntry};
use crate::expressions::{msg_basic_eof, msg_unrecognized};
use crate::expressions::integer::{digits_value, int_run_end, msg_int_overflow, parse_integer_literal};
use crate::expressions::variable::{msg_var_wrap, parse_variable_name};
use crate::location::Span;
use crate::msg::str_to_chars;
use crate::results::{ParseError, ParseResult, ParseSuccess};
use crate::source::{logical_at, logical_step, ParseSrc};
use crate::text::{is_digit, is_ident_start};

verus! {

/// The outcome of a table-grammar rule at a position.
pub enum TableParse {
    TParsed { v: SpecTableExpr, end: int },
    TFailed { at: int, msg: Seq<char> },
}

/// The outcome of reading one table entry into a table.
pub enum TableStep {
    Stepped { t: SpecTable, end: int },
    StepFailed { at: int, msg: Seq<char> },
}

/// What the table grammar's value rule yields at `i`: dispatch by the
/// next character to a variable, a nested table, or an integer or symbol.
pub open spec fn spec_tvalue(text: Seq<char>, i: int) -> TableParse
    decreases text.len() - i, 1int,
{
    if !(0 <= i < text.len()) {
        TableParse::TFailed { at: i, msg: msg_basic_eof() }
    } else if logical_at(text, i) == '$' {
        if i + 1 < text.len() && is_ident_start(logical_at(text, i + 1)) {
            TableParse::TParsed {
                v: SpecTableExpr::Variable(text.subrange(i + 1, ident_end(text, i + 2))),
                end: ident_end(text, i + 2),
            }
        } else {
            TableParse::TFailed {
                at: i + 1,
                msg: msg_var_wrap(
                    if i + 1 < text.len() {
                        crate::basic::identifiers::msg_ident_bad_start(logical_at(text, i + 1))
                    } else {
                        crate::basic::identifiers::msg_ident_ended()
                    },
                ),
            }
        }
    } else if logical_at(text, i) == '{' {
        spec_table(text, i)
    } else if is_digit(text[i]) {
        let e = int_run_end(text, i);
        let v = digits_value(text.subrange(i, e));
        if v <= i128::MAX {
            TableParse::TParsed { v: SpecTableExpr::Integer(v), end: e }
        } else {
            TableParse::TFailed { at: i, msg: msg_int_overflow() }
        }
    } else if is_ident_start(logical_at(text, i)) {
        TableParse::TParsed {
            v: SpecTableExpr::Symbol(text.subrange(i, ident_end(text, i + 1))),
            end: ident_end(text, i + 1),
        }
    } else {
        TableParse::TFailed { at: i, msg: msg_unrecognized(text, i) }
    }
}

/// What the table rule yields at `i`. At the very end of the text the
/// brace matches succeed without consuming anything, so an empty table is
/// read there.
pub open spec fn spec_table(text: Seq<char>, i: int) -> TableParse
    decreases text.len() - i, 0int,
{
    let empty = SpecTable {
        positional: Seq::empty(),
        keyed: Seq::empty(),
    };
    if !(0 <= i <= text.len()) {
        TableParse::TFailed { at: i, msg: Seq::empty() }
    } else if i == text.len() {
        TableParse::TParsed { v: SpecTableExpr::Table(empty), end: i }
    } else if logical_at(text, i) != '{' {
        TableParse::TFailed { at: i, msg: msg_char_mismatch('{', logical_at(text, i)) }
    } else {
        let j = skip_ws(text, logical_step(text, i));
        if j == text.len() {
            TableParse::TParsed { v: SpecTableExpr::Table(empty), end: j }
        } else if logical_at(text, j) == '}' {
            TableParse::TParsed { v: SpecTableExpr::Table(empty), end: logical_step(text, j) }
        } else if i < j <= text.len() {
            spec_table_rest(text, j, empty)
        } else {
            TableParse::TFailed { at: j, msg: Seq::empty() }
        }
    }
}

/// One table entry followed by the rest: the entry, an optional `;` or
/// `,` separator, then either the closing brace or further entries.
pub open spec fn spec_table_rest(text: Seq<char>, j: int, t: SpecTable) -> TableParse
    decreases text.len() - j, 3int,
{
    if !(0 <= j <= text.len()) {
        TableParse::TFailed { at: j, msg: Seq::empty() }
    } else {
        match spec_table_entry(text, j, t) {
            TableStep::StepFailed { at, msg } => TableParse::TFailed { at, msg },
            TableStep::Stepped { t: t2, end } => {
                let j2 = skip_ws(text, end);
                let j3 = if j2 < text.len() && (logical_at(text, j2) == ';' || logical_at(
                    text,
                    j2,
                ) == ',') {
                    skip_ws(text, logical_step(text, j2))
                } else {
                    j2
                };
                if j3 >= text.len() {
                    TableParse::TParsed { v: SpecTableExpr::Table(t2), end: j3 }
                } else if logical_at(text, j3) == '}' {
                    TableParse::TParsed {
                        v: SpecTableExpr::Table(t2),
                        end: logical_step(text, j3),
                    }
                } else if j < j3 {
                    spec_table_rest(text, j3, t2)
                } else {
                    TableParse::TFailed { at: j3, msg: Seq::empty() }
                }
            },
        }
    }
}

/// What reading one entry at `j` does to the table `t`: an embedded
/// positional entry after a `...` marker, a keyed entry for a symbol
/// followed by `=`, or a plain positional entry.
pub open spec fn spec_table_entry(text: Seq<char>, j: int, t: SpecTable) -> TableStep
    decreases text.len() - j, 2int,
{
    if !(0 <= j <= text.len()) {
        TableStep::StepFailed { at: j, msg: Seq::empty() }
    } else if j + 3 <= text.len() && lit_scan(text, j, "..."@, 0) is Done {
        match spec_tvalue(text, j + 3) {
            TableParse::TFailed { at, msg } => TableStep::StepFailed { at, msg },
            TableParse::TParsed { v, end } => TableStep::Stepped {
                t: SpecTable {
                    positional: t.positional.push(SpecTableEntry::Embed(v)),
                    keyed: t.keyed,
                },
                end,
            },
        }
    } else {
        match spec_tvalue(text, j) {
            TableParse::TFailed { at, msg } => TableStep::StepFailed { at, msg },
            TableParse::TParsed { v, end } => match v {
                SpecTableExpr::Symbol(name) => {
                    let j2 = skip_ws(text, end);
                    if j2 == text.len() || logical_at(text, j2) == '=' {
                        let j3 = skip_ws(
                            text,
                            if j2 == text.len() {
                                j2
                            } else {
                                logical_step(text, j2)
                            },
                        );
                        if j < j3 <= text.len() {
                            match spec_tvalue(text, j3) {
                                TableParse::TFailed { at, msg } => TableStep::StepFailed {
                                    at,
                                    msg,
                                },
                                TableParse::TParsed { v: v2, end: e2 } => TableStep::Stepped {
                                    t: SpecTable {
                                        positional: t.positional,
                                        keyed: keyed_insert(t.keyed, name, v2),
                                    },
                                    end: e2,
                                },
                            }
                        } else {
                            TableStep::StepFailed { at: j3, msg: Seq::empty() }
                        }
                    } else {
                        TableStep::Stepped {
                            t: SpecTable {
                                positional: t.positional.push(
                                    SpecTableEntry::Expr(SpecTableExpr::Symbol(name)),
                                ),
                                keyed: t.keyed,
                            },
                            end,
                        }
                    }
                },
                _ => TableStep::Stepped {
                    t: SpecTable {
                        positional: t.positional.push(SpecTableEntry::Expr(v)),
                        keyed: t.keyed,
                    },
                    end,
                },
            },
        }
    }
}

/// Match one value of the table grammar at the cursor.
fn parse_tvalue<'a>(src: ParseSrc<'a>) -> (r: ParseResult<'a, Expression>)
    requires
        src.wf(),
    ensures
        ({
            let text = src.text@;
            let i0 = src.pos();
            match r {
                Ok(s) => {
                    &&& spec_tvalue(text, i0) matches TableParse::TParsed { v, end }
                    &&& s.value@ == v
                    &&& s.src.pos() == end
                    &&& s.src.pos() > i0
                    &&& s.src.wf()
                    &&& s.src.text == src.text
                },
                Err(e) => {
                    &&& spec_tvalue(text, i0) matches TableParse::TFailed { at, msg }
                    &&& crate::location::loc_wf(text, e.location)
                    &&& e.location.index == at
                    &&& e.message@ == msg
                },
            }
        }),
    decreases src.text@.len() - src.pos(), 1int,
{
    let ghost text = src.text@;
    let ghost i0 = src.pos();
    let head = match src.peek() {
        Some(c) => c,
        None => {
            return Err(
                ParseError::new(
                    src.location,
                    String::from_str("expected a basic expression, but the source ended"),
                ),
            );
        },
    };
    if head == '$' {
        match parse_variable_name(src) {
            Ok(s) => {
                proof {
                    crate::basic::identifiers::lemma_ident_end_bounds(text, i0 + 2);
                }
                Ok(
                    ParseSuccess {
                        value: Expression::Variable(s.value),
                        span: s.span,
                        src: s.src,
                    },
                )
            },
            Err(e) => Err(e),
        }
    } else if head == '{' {
        match parse_table(src) {
            Ok(s) => Ok(s),
            Err(e) => Err(e),
        }
    } else {
        if crate::expressions::digit_probe(&src) {
            match parse_integer_literal(src) {
                Ok(s) => {
                    proof {
                        crate::expressions::integer::lemma_int_run_bounds(text, i0 + 1);
                    }
                    Ok(
                        ParseSuccess {
                            value: Expression::Integer(s.value),
                            span: s.span,
                            src: s.src,
                        },
                    )
                },
                Err(e) => Err(e),
            }
        } else {
            match parse_identifier(src) {
                Ok(s) => {
                    proof {
                        crate::basic::identifiers::lemma_ident_end_bounds(text, i0 + 1);
                    }
                    Ok(
                        ParseSuccess {
                            value: Expression::Symbol(s.value),
                            span: s.span,
                            src: s.src,
                        },
                    )
                },
                Err(_) => {
                    let preview = crate::expressions::token_preview_chars(&src);
                    let m = crate::msg::join3(
                        "unrecognized expression: `",
                        preview.as_slice(),
                        "`",
                    );
                    Err(ParseError::new(src.location, m))
                },
            }
        }
    }
}

/// Read one table entry at the cursor into `table`: an embedded entry, a
/// keyed entry, or a plain positional entry. On failure the table is left
/// unchanged.
pub fn parse_table_entry<'a>(src: ParseSrc<'a>, table: &mut Table) -> (r: ParseResult<'a, ()>)
    requires
        src.wf(),
    ensures
        ({
            let text = src.text@;
            let i0 = src.pos();
            match r {
                Ok(s) => {
                    &&& spec_table_entry(text, i0, old(table)@) matches TableStep::Stepped {
                        t,
                        end,
                    }
                    &&& final(table)@ == t
                    &&& s.src.pos() == end
                    &&& s.src.pos() > i0
                    &&& s.src.wf()
                    &&& s.src.text == src.text
                },
                Err(e) => {
                    &&& spec_table_entry(text, i0, old(table)@) matches TableStep::StepFailed {
                        at,
                        msg,
                    }
                    &&& *final(table) == *old(table)
                    &&& crate::location::loc_wf(text, e.location)
                    &&& e.location.index == at
                    &&& e.message@ == msg
                },
            }
        }),
    decreases src.text@.len() - src.pos(), 2int,
{
    let ghost text = src.text@;
    let ghost i0 = src.pos();
    let dots = str_to_chars("...");
    proof {
        reveal_strlit("...");
        assert(dots@ =~= seq!['.', '.', '.']);
        lemma_lit_scan_triple(text, i0, '.');
    }
    match parse_str(dots.as_slice(), src) {
        Ok(m3) => {
            let expr = match parse_tvalue(m3.src) {
                Ok(x) => x,
                Err(e) => {
                    return Err(e);
                },
            };
            table.add_positional(TableEntry::Embed(expr.value));
            return Ok(ParseSuccess { value: (), span: expr.src.span_from(&src), src: expr.src });
        },
        Err(_) => {},
    }
    let expr = match parse_tvalue(src) {
        Ok(x) => x,
        Err(e) => {
            return Err(e);
        },
    };
    let vsrc = expr.src;
    match expr.value {
        Expression::Symbol(name) => {
            let w = parse_whitespace(vsrc)?;
            proof {
                lemma_skip_ws_bounds(text, vsrc.pos());
            }
            let after_ws = w.src;
            match parse_char('=', after_ws) {
                Ok(eq) => {
                    let w2 = parse_whitespace(eq.src)?;
                    proof {
                        if after_ws.pos() < text.len() {
                            lemma_skip_ws_bounds(text, logical_step(text, after_ws.pos()));
                        }
                    }
                    let value = match parse_tvalue(w2.src) {
                        Ok(x) => x,
                        Err(e) => {
                            return Err(e);
                        },
                    };
                    table.add_keyed(name, value.value);
                    Ok(ParseSuccess { value: (), span: value.src.span_from(&src), src: value.src })
                },
                Err(_) => {
                    table.add_positional(TableEntry::Expr(Expression::Symbol(name)));
                    Ok(ParseSuccess { value: (), span: vsrc.span_from(&src), src: vsrc })
                },
            }
        },
        other => {
            table.add_positional(TableEntry::Expr(other));
            Ok(ParseSuccess { value: (), span: vsrc.span_from(&src), src: vsrc })
        },
    }
}

/// Match a table at the cursor: `{`, then entries separated by `,` or
/// `;`, then `}`.
#[verifier::rlimit(60)]
pub fn parse_table<'a>(src: ParseSrc<'a>) -> (r: ParseResult<'a, Expression>)
    requires
        src.wf(),
    ensures
        ({
            let text = src.text@;
            let i0 = src.pos();
            match r {
                Ok(s) => {
                    &&& spec_table(text, i0) matches TableParse::TParsed { v, end }
                    &&& s.value@ == v
                    &&& s.src.pos() == end
                    &&& i0 < text.len() ==> s.src.pos() > i0
                    &&& s.src.pos() >= i0
                    &&& s.src.wf()
                    &&& s.src.text == src.text
                    &&& s.span == (Span { start: src.location, end: s.src.location })
                },
                Err(e) => {
                    &&& spec_table(text, i0) matches TableParse::TFailed { at, msg }
                    &&& crate::location::loc_wf(text, e.location)
                    &&& e.location.index == at
                    &&& e.message@ == msg
                },
            }
        }),
    decreases src.text@.len() - src.pos(), 0int,
{
    let ghost text = src.text@;
    let ghost i0 = src.pos();
    let start = src;
    let mut table = Table::new();
    let marker = match parse_char('{', src) {
        Ok(m) => m,
        Err(e) => {
            return Err(e);
        },
    };
    let w = parse_whitespace(marker.src)?;
    let mut cur = w.src;
    proof {
        if i0 < text.len() {
            lemma_skip_ws_bounds(text, logical_step(text, i0));
        }
    }
    match parse_char('}', cur) {
        Ok(finish) => {
            return Ok(
                ParseSuccess {
                    value: Expression::Table(table),
                    span: finish.src.span_from(&start),
                    src: finish.src,
                },
            );
        },
        Err(_) => {},
    }
    proof {
        assert(spec_table(text, i0) == spec_table_rest(text, cur.pos(), table@));
    }
    loop
        invariant
            cur.wf(),
            cur.text == src.text,
            text == src.text@,
            i0 < cur.pos() <= text.len(),
            i0 == src.pos(),
            start == src,
            src.wf(),
            spec_table(text, i0) == spec_table_rest(text, cur.pos(), table@),
        decreases text.len() - cur.pos(),
    {
        let ghost j = cur.pos();
        let ghost t_in = table@;
        let entry = match parse_table_entry(cur, &mut table) {
            Ok(x) => x,
            Err(e) => {
                proof {
                    assert(spec_table_rest(text, j, t_in) matches TableParse::TFailed {
                        at,
                        msg,
                    });
                }
                return Err(e);
            },
        };
        let w2 = parse_whitespace(entry.src)?;
        let mut after = w2.src;
        proof {
            lemma_skip_ws_bounds(text, entry.src.pos());
        }
        match parse_char(';', after) {
            Ok(sp) => {
                let w4 = parse_whitespace(sp.src)?;
                proof {
                    if after.pos() < text.len() {
                        lemma_skip_ws_bounds(text, logical_step(text, after.pos()));
                    }
                }
                after = w4.src;
            },
            Err(_) => {
                match parse_char(',', after) {
                    Ok(sp) => {
                        let w4 = parse_whitespace(sp.src)?;
                        proof {
                            lemma_skip_ws_bounds(text, logical_step(text, after.pos()));
                        }
                        after = w4.src;
                    },
                    Err(_) => {},
                }
            },
        }
        match parse_char('}', after) {
            Ok(finish) => {
                proof {
                    assert(spec_table_rest(text, j, t_in) == (TableParse::TParsed {
                        v: SpecTableExpr::Table(table@),
                        end: finish.src.pos(),
                    }));
                }
                return Ok(
                    ParseSuccess {
                        value: Expression::Table(table),
                        span: finish.src.span_from(&start),
                        src: finish.src,
                    },
                );
            },
            Err(_) => {},
        }
        cur = after;
        proof {
            assert(spec_table_rest(text, j, t_in) == spec_table_rest(text, cur.pos(), table@));
        }
    }
}

} // verus!
