//! Matching identifiers: an ASCII letter or underscore followed by ASCII
//! letters, digits or underscores.

use vstd::prelude::*;
use vstd::string::StringExecFns;

use crate::location::Span;
use crate::msg::{chars_to_string, join3c};
use crate::results::{ParseError, ParseResult, ParseSuccess};
use crate::source::{logical_at, ParseSrc};
use crate::text::{ident_cont_char, ident_start_char, is_ident_cont, is_ident_start};

verus! {

/// Where the identifier that continues at `i` ends: the first position at
/// or after `i` whose character no longer belongs to an identifier.
pub open spec fn ident_end(text: Seq<char>, i: int) -> int
    decreases text.len() - i,
{
    if 0 <= i < text.len() && is_ident_cont(text[i]) {
        ident_end(text, i + 1)
    } else {
        i
    }
}

pub proof fn lemma_ident_end_bounds(text: Seq<char>, i: int)
    requires
        0 <= i <= text.len(),
    ensures
        i <= ident_end(text, i) <= text.len(),
    decreases text.len() - i,
{
    if i < text.len() && is_ident_cont(text[i]) {
        lemma_ident_end_bounds(text, i + 1);
    }
}

/// A non-empty run of identifier characters opened by an identifier start.
pub open spec fn is_identifier(s: Seq<char>) -> bool {
    &&& s.len() > 0
    &&& is_ident_start(s[0])
    &&& forall|k: int| 1 <= k < s.len() ==> is_ident_cont(#[trigger] s[k])
}

/// The characters from an identifier start up to where the identifier run
/// ends form an identifier.
pub proof fn lemma_ident_span(text: Seq<char>, i: int)
    requires
        0 <= i < text.len(),
        is_ident_start(text[i]),
    ensures
        is_identifier(text.subrange(i, ident_end(text, i + 1))),
{
    lemma_ident_end_bounds(text, i + 1);
    let e = ident_end(text, i + 1);
    assert forall|k: int| 1 <= k < e - i implies is_ident_cont(
        #[trigger] text.subrange(i, e)[k],
    ) by {
        lemma_ident_end_cont(text, i + 1, i + k);
    }
}

/// Every character strictly before the end of an identifier run continues
/// an identifier.
pub proof fn lemma_ident_end_cont(text: Seq<char>, i: int, k: int)
    requires
        0 <= i <= text.len(),
        i <= k < ident_end(text, i),
    ensures
        is_ident_cont(text[k]),
    decreases text.len() - i,
{
    lemma_ident_end_bounds(text, i);
    if i < text.len() && is_ident_cont(text[i]) {
        if k > i {
            lemma_ident_end_cont(text, i + 1, k);
        }
    }
}

/// The message reported when the next character cannot open an identifier.
pub open spec fn msg_ident_bad_start(c: char) -> Seq<char> {
    "expected an identifier, but '"@ + seq![c] + "' is not a valid identifier start"@
}

/// The message reported when the text ends where an identifier is needed.
pub open spec fn msg_ident_ended() -> Seq<char> {
    "expected an identifier, but the source ended"@
}

/// Match one identifier at the cursor. Succeeds exactly when the next
/// logical character is an ASCII letter or underscore; the value is the
/// longest identifier run from there. On failure the error tells an
/// invalid opening character apart from the text simply ending.
pub fn parse_identifier<'a>(src: ParseSrc<'a>) -> (r: ParseResult<'a, String>)
    requires
        src.wf(),
    ensures
        ({
            let text = src.text@;
            let i0 = src.pos();
            match r {
                Ok(s) => {
                    &&& i0 < text.len()
                    &&& is_ident_start(logical_at(text, i0))
                    &&& s.src.wf()
                    &&& s.src.text == src.text
                    &&& s.src.pos() == ident_end(text, i0 + 1)
                    &&& s.value@ == text.subrange(i0, ident_end(text, i0 + 1))
                    &&& is_identifier(s.value@)
                    &&& s.span == (Span { start: src.location, end: s.src.location })
                },
                Err(e) => {
                    &&& !(i0 < text.len() && is_ident_start(logical_at(text, i0)))
                    &&& e.location == src.location
                    &&& e.message@ == if i0 < text.len() {
                        msg_ident_bad_start(logical_at(text, i0))
                    } else {
                        msg_ident_ended()
                    }
                },
            }
        }),
{
    let ghost text = src.text@;
    let ghost i0 = src.pos();
    let start = src;
    let mut cur = src;
    match cur.next() {
        Some(first) => {
            if !ident_start_char(first) {
                let m = join3c(
                    "expected an identifier, but '",
                    first,
                    "' is not a valid identifier start",
                );
                return Err(ParseError::new(start.location, m));
            }
        },
        None => {
            return Err(
                ParseError::new(
                    start.location,
                    String::from_str("expected an identifier, but the source ended"),
                ),
            );
        },
    }
    proof {
        assert(cur.pos() == i0 + 1);
    }
    loop
        invariant
            cur.wf(),
            cur.text == src.text,
            text == src.text@,
            i0 + 1 <= cur.pos() <= text.len(),
            i0 == src.pos(),
            src.wf(),
            ident_end(text, i0 + 1) == ident_end(text, cur.pos()),
        ensures
            cur.wf(),
            cur.text == src.text,
            cur.pos() == ident_end(text, i0 + 1),
        decreases text.len() - cur.pos(),
    {
        match cur.peek() {
            Some(next) => {
                if !ident_cont_char(next) {
                    proof {
                        assert(!is_ident_cont(text[cur.pos()]));
                    }
                    break ;
                }
                proof {
                    assert(!crate::source::crlf_at(text, cur.pos()));
                    assert(is_ident_cont(text[cur.pos()]));
                }
                let _ = cur.next();
            },
            None => {
                break ;
            },
        }
    }
    let span = cur.span_from(&start);
    let sl = cur.slice(span);
    let value = chars_to_string(sl);
    proof {
        lemma_ident_span(text, i0);
    }
    Ok(ParseSuccess { value, span, src: cur })
}

} // verus!
