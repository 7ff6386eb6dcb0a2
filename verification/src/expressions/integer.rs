//! Integer literals: one or more ASCII digits, optionally interspersed
//! with `_` separators, which are ignored wherever they fall. The value
//! accumulates by `value * 10 + digit`; a literal whose value does not fit
//! the integer type is rejected rather than wrapped.

use vstd::prelude::*;
use vstd::string::StringExecFns;

use crate::ast::{Expression, SpecExpr};
use crate::location::Span;
use crate::results::{ParseError, ParseResult, ParseSuccess};
use crate::source::ParseSrc;
use crate::text::{digit_char, is_digit};

verus! {

/// Whether `c` may continue an integer literal.
pub open spec fn is_int_cont(c: char) -> bool {
    is_digit(c) || c == '_'
}

/// Where the run of digits and separators that continues at `i` ends.
pub open spec fn int_run_end(text: Seq<char>, i: int) -> int
    decreases text.len() - i,
{
    if 0 <= i < text.len() && is_int_cont(text[i]) {
        int_run_end(text, i + 1)
    } else {
        i
    }
}

pub proof fn lemma_int_run_bounds(text: Seq<char>, i: int)
    requires
        0 <= i <= text.len(),
    ensures
        i <= int_run_end(text, i) <= text.len(),
    decreases text.len() - i,
{
    if i < text.len() && is_int_cont(text[i]) {
        lemma_int_run_bounds(text, i + 1);
    }
}

pub proof fn lemma_int_run_cont(text: Seq<char>, i: int, k: int)
    requires
        0 <= i <= text.len(),
        i <= k < int_run_end(text, i),
    ensures
        is_int_cont(text[k]),
    decreases text.len() - i,
{
    lemma_int_run_bounds(text, i);
    if i < text.len() && is_int_cont(text[i]) {
        if k > i {
            lemma_int_run_cont(text, i + 1, k);
        }
    }
}

/// The value of a run of digits and separators, read left to right with
/// separators ignored.
pub open spec fn digits_value(s: Seq<char>) -> int
    decreases s.len(),
{
    if s.len() == 0 {
        0
    } else if s.last() == '_' {
        digits_value(s.drop_last())
    } else {
        digits_value(s.drop_last()) * 10 + (s.last() as int - '0' as int)
    }
}

pub proof fn lemma_digits_value_nonneg(s: Seq<char>)
    requires
        forall|k: int| 0 <= k < s.len() ==> is_int_cont(#[trigger] s[k]),
    ensures
        digits_value(s) >= 0,
    decreases s.len(),
{
    if s.len() > 0 {
        assert(forall|k: int|
            0 <= k < s.len() - 1 ==> s.drop_last()[k] == #[trigger] s[k]);
        lemma_digits_value_nonneg(s.drop_last());
    }
}

/// A longer run is worth at least as much as any of its prefixes.
pub proof fn lemma_digits_value_prefix_le(s: Seq<char>, j: int)
    requires
        forall|k: int| 0 <= k < s.len() ==> is_int_cont(#[trigger] s[k]),
        0 <= j <= s.len(),
    ensures
        digits_value(s.take(j)) <= digits_value(s),
    decreases s.len(),
{
    if j == s.len() {
        assert(s.take(j) =~= s);
    } else {
        assert(forall|k: int|
            0 <= k < s.len() - 1 ==> s.drop_last()[k] == #[trigger] s[k]);
        assert(s.take(j) =~= s.drop_last().take(j));
        lemma_digits_value_prefix_le(s.drop_last(), j);
        lemma_digits_value_nonneg(s.drop_last());
    }
}

/// The message reported where no integer can start.
pub open spec fn msg_int_expected() -> Seq<char> {
    "expected an integer"@
}

/// The message reported for a literal too large for the integer type.
pub open spec fn msg_int_overflow() -> Seq<char> {
    "integer literal is too large"@
}

/// Match an integer literal at the cursor and yield its numeric value.
/// Succeeds exactly when an ASCII digit stands at the cursor and the
/// whole run's value fits the integer type; the value is that of the
/// digits with separators ignored.
pub fn parse_integer_literal<'a>(src: ParseSrc<'a>) -> (r: ParseResult<'a, i128>)
    requires
        src.wf(),
    ensures
        ({
            let text = src.text@;
            let i0 = src.pos();
            let e = int_run_end(text, i0);
            let v = digits_value(text.subrange(i0, e));
            match r {
                Ok(s) => {
                    &&& i0 < text.len()
                    &&& is_digit(text[i0])
                    &&& v <= i128::MAX
                    &&& s.src.wf()
                    &&& s.src.text == src.text
                    &&& s.src.pos() == e
                    &&& s.value as int == v
                    &&& s.span == (Span { start: src.location, end: s.src.location })
                },
                Err(err) => {
                    &&& err.location == src.location
                    &&& if i0 < text.len() && is_digit(text[i0]) {
                        v > i128::MAX && err.message@ == msg_int_overflow()
                    } else {
                        err.message@ == msg_int_expected()
                    }
                },
            }
        }),
{
    let ghost text = src.text@;
    let ghost i0 = src.pos();
    let start = src;
    let mut cur = src;
    let first_ok = match cur.peek() {
        Some(c) => digit_char(c),
        None => false,
    };
    if !first_ok {
        proof {
            if i0 < text.len() && is_digit(text[i0]) {
                assert(!crate::source::crlf_at(text, i0));
                assert(false);
            }
        }
        return Err(ParseError::new(start.location, String::from_str("expected an integer")));
    }
    proof {
        assert(!crate::source::crlf_at(text, i0));
        assert(is_digit(text[i0]));
        lemma_int_run_bounds(text, i0);
    }
    let mut acc: i128 = 0;
    loop
        invariant
            cur.wf(),
            cur.text == src.text,
            text == src.text@,
            0 <= i0 <= cur.pos() <= text.len(),
            i0 == src.pos(),
            start == src,
            i0 < text.len() && is_digit(text[i0]),
            src.wf(),
            int_run_end(text, i0) == int_run_end(text, cur.pos()),
            acc as int == digits_value(text.subrange(i0, cur.pos())),
            forall|k: int| i0 <= k < cur.pos() ==> is_int_cont(#[trigger] text[k]),
        ensures
            cur.wf(),
            cur.text == src.text,
            cur.pos() == int_run_end(text, i0),
            acc as int == digits_value(text.subrange(i0, int_run_end(text, i0))),
        decreases text.len() - cur.pos(),
    {
        let c = match cur.peek() {
            Some(c) => c,
            None => {
                break ;
            },
        };
        let is_cont = digit_char(c) || c == '_';
        if !is_cont {
            proof {
                assert(!is_int_cont(text[cur.pos()]));
            }
            break ;
        }
        proof {
            assert(!crate::source::crlf_at(text, cur.pos()));
            assert(is_int_cont(text[cur.pos()]));
        }
        let ghost prev = cur.pos();
        let _ = cur.next();
        proof {
            assert(text.subrange(i0, prev + 1).drop_last() =~= text.subrange(i0, prev));
        }
        if c != '_' {
            let d: i128 = (c as u32 as i128) - ('0' as u32 as i128);
            let stepped = match acc.checked_mul(10) {
                Some(m) => m.checked_add(d),
                None => None,
            };
            match stepped {
                Some(next_acc) => {
                    acc = next_acc;
                },
                None => {
                    proof {
                        assert forall|k: int| 0 <= k < prev - i0 implies is_int_cont(
                            #[trigger] text.subrange(i0, prev)[k],
                        ) by {
                            assert(text.subrange(i0, prev)[k] == text[i0 + k]);
                        }
                        lemma_digits_value_nonneg(text.subrange(i0, prev));
                        lemma_int_run_bounds(text, i0);
                        let run = text.subrange(i0, int_run_end(text, i0));
                        assert forall|k: int| 0 <= k < run.len() implies is_int_cont(
                            #[trigger] run[k],
                        ) by {
                            lemma_int_run_cont(text, i0, i0 + k);
                        }
                        assert(int_run_end(text, prev) == int_run_end(text, prev + 1));
                        lemma_int_run_bounds(text, prev + 1);
                        assert(prev + 1 <= int_run_end(text, i0));
                        lemma_digits_value_prefix_le(run, prev + 1 - i0);
                        assert(run.take(prev + 1 - i0) =~= text.subrange(i0, prev + 1));
                    }
                    return Err(
                        ParseError::new(
                            start.location,
                            String::from_str("integer literal is too large"),
                        ),
                    );
                },
            }
        }
    }
    proof {
        let run = text.subrange(i0, int_run_end(text, i0));
        lemma_digits_value_nonneg(run);
    }
    Ok(ParseSuccess { value: acc, span: cur.span_from(&start), src: cur })
}

/// Match an integer literal at the cursor, as an expression.
pub fn parse_integer<'a>(src: ParseSrc<'a>) -> (r: ParseResult<'a, Expression>)
    requires
        src.wf(),
    ensures
        ({
            let text = src.text@;
            let i0 = src.pos();
            let e = int_run_end(text, i0);
            let v = digits_value(text.subrange(i0, e));
            match r {
                Ok(s) => {
                    &&& i0 < text.len()
                    &&& is_digit(text[i0])
                    &&& v <= i128::MAX
                    &&& s.src.wf()
                    &&& s.src.text == src.text
                    &&& s.src.pos() == e
                    &&& s.value@ == SpecExpr::Integer(v)
                    &&& s.span == (Span { start: src.location, end: s.src.location })
                },
                Err(err) => {
                    &&& err.location == src.location
                    &&& if i0 < text.len() && is_digit(text[i0]) {
                        v > i128::MAX && err.message@ == msg_int_overflow()
                    } else {
                        err.message@ == msg_int_expected()
                    }
                },
            }
        }),
{
    match parse_integer_literal(src) {
        Ok(s) => {
            Ok(ParseSuccess { value: Expression::Integer(s.value), span: s.span, src: s.src })
        },
        Err(e) => Err(e),
    }
}

} // verus!
