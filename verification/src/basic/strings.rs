//! The primitive text combinators: match an exact literal, match one
//! character, and skip white space. Each consumes a cursor by value and
//! returns either an advanced cursor or an error anchored where matching
//! stopped; a failing combinator never hands back an advanced cursor.

use vstd::prelude::*;
use vstd::string::StringExecFns;

use crate::location::Span;
use crate::msg::{chars_to_string, join5, push_char};
use crate::results::{ParseError, ParseResult, ParseSuccess};
use crate::source::{logical_at, logical_char_at, logical_next_at, logical_step, ParseSrc};
use crate::text::is_space;

verus! {

/// The outcome of matching a literal against the text from position `i`:
/// the literal matched and ends at `end`; or the characters read, `seen`,
/// ended in a mismatch; or the text ran out after `seen`.
pub enum LitScan {
    Done { end: int },
    Mismatch { end: int, seen: Seq<char> },
    Ended { end: int, seen: Seq<char> },
}

/// Match the logical characters of `pat` from `j` against the logical
/// characters of `text` from `i`, in lockstep.
pub open spec fn lit_scan(text: Seq<char>, i: int, pat: Seq<char>, j: int) -> LitScan
    decreases pat.len() - j,
{
    if j < 0 || j >= pat.len() {
        LitScan::Done { end: i }
    } else if !(0 <= i < text.len()) {
        LitScan::Ended { end: i, seen: Seq::empty() }
    } else if logical_at(text, i) == logical_at(pat, j) {
        lit_scan_push(
            logical_at(text, i),
            lit_scan(text, logical_step(text, i), pat, logical_step(pat, j)),
        )
    } else {
        LitScan::Mismatch {
            end: logical_step(text, i),
            seen: seq![logical_at(text, i)],
        }
    }
}

/// Prepend one read character to a scan outcome's `seen`.
pub open spec fn lit_scan_push(c: char, sc: LitScan) -> LitScan {
    match sc {
        LitScan::Done { end } => LitScan::Done { end },
        LitScan::Mismatch { end, seen } => LitScan::Mismatch { end, seen: seq![c] + seen },
        LitScan::Ended { end, seen } => LitScan::Ended { end, seen: seq![c] + seen },
    }
}

/// The message reported when a literal meets different characters.
pub open spec fn msg_lit_mismatch(pat: Seq<char>, found: Seq<char>) -> Seq<char> {
    "expected \""@ + pat + "\", but found \""@ + found + "\""@
}

/// The message reported when the text runs out inside a literal.
pub open spec fn msg_lit_ended(pat: Seq<char>, found: Seq<char>) -> Seq<char> {
    "expected \""@ + pat + "\", but found \""@ + found + "\" then the source ended"@
}

/// Match the exact characters of `target` at the cursor. On success the
/// value is the target text and the cursor stands just past the matched
/// region; on failure the error is anchored at the cursor's own location
/// and reports what was found instead. Both sides are read logically, so a
/// carriage-return / line-feed pair matches a line feed.
#[verifier::loop_isolation(false)]
pub fn parse_str<'a>(target: &[char], src: ParseSrc<'a>) -> (r: ParseResult<'a, String>)
    requires
        src.wf(),
    ensures
        ({
            let sc = lit_scan(src.text@, src.pos(), target@, 0);
            match r {
                Ok(s) => {
                    &&& sc matches LitScan::Done { end }
                    &&& s.src.wf()
                    &&& s.src.text == src.text
                    &&& s.src.pos() == sc->Done_end
                    &&& s.value@ == target@
                    &&& s.span == (Span { start: src.location, end: s.src.location })
                },
                Err(e) => {
                    &&& !(sc is Done)
                    &&& e.location == src.location
                    &&& (sc matches LitScan::Mismatch { end, seen } ==> e.message@
                        == msg_lit_mismatch(target@, seen))
                    &&& (sc matches LitScan::Ended { end, seen } ==> e.message@ == msg_lit_ended(
                        target@,
                        seen,
                    ))
                },
            }
        }),
{
    let start = src;
    let mut cur = src;
    let mut ti: usize = 0;
    let mut found: Vec<char> = Vec::new();
    let ghost text = src.text@;
    let ghost pat = target@;
    loop
        invariant
            cur.wf(),
            cur.text == src.text,
            src.wf(),
            src.pos() <= cur.pos(),
            ti <= pat.len(),
            text == src.text@,
            pat == target@,
            lit_scan(text, src.pos(), pat, 0) == lit_scan_push_all(
                found@,
                lit_scan(text, cur.pos(), pat, ti as int),
            ),
        decreases pat.len() - ti,
    {
        if ti >= target.len() {
            proof {
                assert(lit_scan(text, cur.pos(), pat, ti as int) == LitScan::Done {
                    end: cur.pos(),
                });
                lemma_push_all_shape(found@, lit_scan(text, cur.pos(), pat, ti as int));
            }
            proof {
                assert(lit_scan(text, src.pos(), pat, 0) == (LitScan::Done { end: cur.pos() }));
            }
            return Ok(
                ParseSuccess {
                    value: chars_to_string(target),
                    span: cur.span_from(&start),
                    src: cur,
                },
            );
        }
        let tc = logical_char_at(target, ti);
        match cur.peek() {
            None => {
                proof {
                    assert(lit_scan(text, cur.pos(), pat, ti as int) == LitScan::Ended {
                        end: cur.pos(),
                        seen: Seq::<char>::empty(),
                    });
                    lemma_push_all_shape(found@, lit_scan(text, cur.pos(), pat, ti as int));
                    assert(found@ + Seq::<char>::empty() =~= found@);
                }
                let m = join5(
                    "expected \"",
                    target,
                    "\", but found \"",
                    found.as_slice(),
                    "\" then the source ended",
                );
                return Err(ParseError::new(start.location, m));
            },
            Some(c) => {
                if c == tc {
                    let ghost prev = cur;
                    let ghost prev_ti = ti as int;
                    let ghost prev_found = found@;
                    let _ = cur.next();
                    found.push(c);
                    ti = logical_next_at(target, ti);
                    proof {
                        assert(cur.pos() == logical_step(text, prev.pos()));
                        assert(ti as int == logical_step(pat, prev_ti));
                        assert(lit_scan(text, prev.pos(), pat, prev_ti) == lit_scan_push(
                            c,
                            lit_scan(text, cur.pos(), pat, ti as int),
                        ));
                        lemma_push_all_snoc(
                            prev_found,
                            c,
                            lit_scan(text, cur.pos(), pat, ti as int),
                        );
                        assert(found@ == prev_found.push(c));
                    }
                } else {
                    proof {
                        lemma_push_all_shape(
                            found@,
                            lit_scan(text, cur.pos(), pat, ti as int),
                        );
                        assert(found@ + seq![c] =~= found@.push(c));
                    }
                    found.push(c);
                    let m = join5(
                        "expected \"",
                        target,
                        "\", but found \"",
                        found.as_slice(),
                        "\"",
                    );
                    return Err(ParseError::new(start.location, m));
                }
            },
        }
    }
}

/// Prepend a whole sequence of read characters to a scan outcome's `seen`.
pub open spec fn lit_scan_push_all(cs: Seq<char>, sc: LitScan) -> LitScan {
    match sc {
        LitScan::Done { end } => LitScan::Done { end },
        LitScan::Mismatch { end, seen } => LitScan::Mismatch { end, seen: cs + seen },
        LitScan::Ended { end, seen } => LitScan::Ended { end, seen: cs + seen },
    }
}

proof fn lemma_push_all_shape(cs: Seq<char>, sc: LitScan)
    ensures
        lit_scan_push_all(cs, sc) is Done <==> (sc is Done),
        lit_scan_push_all(cs, sc) is Mismatch <==> (sc is Mismatch),
        lit_scan_push_all(cs, sc) is Ended <==> (sc is Ended),
        sc matches LitScan::Done { end } ==> lit_scan_push_all(cs, sc) == (LitScan::Done { end }),
        sc matches LitScan::Mismatch { end, seen } ==> lit_scan_push_all(cs, sc)
            == (LitScan::Mismatch { end, seen: cs + seen }),
        sc matches LitScan::Ended { end, seen } ==> lit_scan_push_all(cs, sc)
            == (LitScan::Ended { end, seen: cs + seen }),
{
}

proof fn lemma_push_all_snoc(cs: Seq<char>, c: char, sc: LitScan)
    ensures
        lit_scan_push_all(cs.push(c), sc) == lit_scan_push_all(cs, lit_scan_push(c, sc)),
{
    match sc {
        LitScan::Done { end } => {},
        LitScan::Mismatch { end, seen } => {
            assert(cs.push(c) + seen =~= cs + (seq![c] + seen));
        },
        LitScan::Ended { end, seen } => {
            assert(cs.push(c) + seen =~= cs + (seq![c] + seen));
        },
    }
}

/// Matching a two-character literal of ordinary characters (no carriage
/// return or line feed) succeeds exactly when those two raw characters
/// stand at the position, and ends just past them.
pub proof fn lemma_lit_scan_pair(text: Seq<char>, i: int, a: char, b: char)
    requires
        0 <= i <= text.len(),
        a != '\r' && a != '\n' && b != '\r' && b != '\n',
    ensures
        lit_scan(text, i, seq![a, b], 0) is Done <==> (i + 1 < text.len() && text[i] == a
            && text[i + 1] == b),
        lit_scan(text, i, seq![a, b], 0) is Done ==> lit_scan(text, i, seq![a, b], 0)
            == (LitScan::Done { end: i + 2 }),
{
    let pat = seq![a, b];
    assert(pat.len() == 2 && pat[0] == a && pat[1] == b);
    if i < text.len() && logical_at(text, i) == a {
        assert(!crate::source::crlf_at(text, i));
        assert(text[i] == a);
        let i1 = i + 1;
        assert(logical_step(text, i) == i1);
        assert(logical_step(pat, 0) == 1);
        if i1 < text.len() && logical_at(text, i1) == b {
            assert(!crate::source::crlf_at(text, i1));
            assert(text[i1] == b);
            assert(lit_scan(text, i1 + 1, pat, 2) == (LitScan::Done { end: i1 + 1 }));
            assert(lit_scan(text, i1, pat, 1) == lit_scan_push(
                b,
                lit_scan(text, i1 + 1, pat, 2),
            ));
            assert(lit_scan(text, i, pat, 0) == (LitScan::Done { end: i + 2 }));
        } else {
            assert(!(lit_scan(text, i1, pat, 1) is Done));
            assert(!(lit_scan(text, i, pat, 0) is Done));
        }
    } else {
        assert(!(lit_scan(text, i, pat, 0) is Done));
    }
}

/// Matching a literal of ordinary characters (no carriage return or line
/// feed anywhere in it) succeeds exactly when its raw characters stand at
/// the position, and ends just past them.
pub proof fn lemma_lit_scan_word(text: Seq<char>, i: int, pat: Seq<char>, j: int)
    requires
        0 <= i <= text.len(),
        0 <= j <= pat.len(),
        forall|k: int| 0 <= k < pat.len() ==> #[trigger] pat[k] != '\r' && pat[k] != '\n',
    ensures
        lit_scan(text, i, pat, j) is Done <==> (i + (pat.len() - j) <= text.len()
            && text.subrange(i, i + (pat.len() - j)) == pat.subrange(j, pat.len() as int)),
        lit_scan(text, i, pat, j) is Done ==> lit_scan(text, i, pat, j) == (LitScan::Done {
            end: i + (pat.len() - j),
        }),
    decreases pat.len() - j,
{
    if j >= pat.len() {
        assert(text.subrange(i, i) =~= pat.subrange(j, pat.len() as int));
    } else {
        assert(pat[j] != '\r' && pat[j] != '\n');
        assert(!crate::source::crlf_at(pat, j));
        assert(logical_at(pat, j) == pat[j]);
        assert(logical_step(pat, j) == j + 1);
        if i < text.len() && logical_at(text, i) == pat[j] {
            assert(!crate::source::crlf_at(text, i));
            assert(text[i] == pat[j]);
            assert(logical_step(text, i) == i + 1);
            lemma_lit_scan_word(text, i + 1, pat, j + 1);
            if lit_scan(text, i + 1, pat, j + 1) is Done {
                assert(text.subrange(i, i + (pat.len() - j)) =~= seq![text[i]] + text.subrange(
                    i + 1,
                    i + 1 + (pat.len() - (j + 1)),
                ));
                assert(pat.subrange(j, pat.len() as int) =~= seq![pat[j]] + pat.subrange(
                    j + 1,
                    pat.len() as int,
                ));
            } else {
                if i + (pat.len() - j) <= text.len() && text.subrange(i, i + (pat.len() - j))
                    == pat.subrange(j, pat.len() as int) {
                    assert(text.subrange(i + 1, i + 1 + (pat.len() - (j + 1))) =~= text.subrange(
                        i,
                        i + (pat.len() - j),
                    ).subrange(1, pat.len() - j));
                    assert(pat.subrange(j + 1, pat.len() as int) =~= pat.subrange(
                        j,
                        pat.len() as int,
                    ).subrange(1, pat.len() - j));
                    assert(false);
                }
            }
        } else {
            if i + (pat.len() - j) <= text.len() && text.subrange(i, i + (pat.len() - j))
                == pat.subrange(j, pat.len() as int) {
                assert(text.subrange(i, i + (pat.len() - j))[0] == text[i]);
                assert(pat.subrange(j, pat.len() as int)[0] == pat[j]);
                assert(text[i] == pat[j]);
                assert(!crate::source::crlf_at(text, i));
                assert(false);
            }
            assert(!(lit_scan(text, i, pat, j) is Done));
        }
    }
}

/// Matching a three-character literal of one repeated ordinary character
/// succeeds exactly when that character stands at the next three
/// positions, and ends just past them.
pub proof fn lemma_lit_scan_triple(text: Seq<char>, i: int, a: char)
    requires
        0 <= i <= text.len(),
        a != '\r' && a != '\n',
    ensures
        lit_scan(text, i, seq![a, a, a], 0) is Done <==> (i + 2 < text.len() && text[i] == a
            && text[i + 1] == a && text[i + 2] == a),
        lit_scan(text, i, seq![a, a, a], 0) is Done ==> lit_scan(text, i, seq![a, a, a], 0)
            == (LitScan::Done { end: i + 3 }),
{
    let pat = seq![a, a, a];
    assert(pat.len() == 3 && pat[0] == a && pat[1] == a && pat[2] == a);
    if i < text.len() && logical_at(text, i) == a {
        assert(!crate::source::crlf_at(text, i));
        if i + 1 < text.len() && logical_at(text, i + 1) == a {
            assert(!crate::source::crlf_at(text, i + 1));
            if i + 2 < text.len() && logical_at(text, i + 2) == a {
                assert(!crate::source::crlf_at(text, i + 2));
                assert(lit_scan(text, i + 3, pat, 3) == (LitScan::Done { end: i + 3 }));
                assert(lit_scan(text, i + 2, pat, 2) == lit_scan_push(
                    a,
                    lit_scan(text, i + 3, pat, 3),
                ));
                assert(lit_scan(text, i + 1, pat, 1) == lit_scan_push(
                    a,
                    lit_scan(text, i + 2, pat, 2),
                ));
                assert(lit_scan(text, i, pat, 0) == (LitScan::Done { end: i + 3 }));
            } else {
                assert(!(lit_scan(text, i + 2, pat, 2) is Done));
                assert(!(lit_scan(text, i + 1, pat, 1) is Done));
                assert(!(lit_scan(text, i, pat, 0) is Done));
            }
        } else {
            assert(!(lit_scan(text, i + 1, pat, 1) is Done));
            assert(!(lit_scan(text, i, pat, 0) is Done));
        }
    } else {
        assert(!(lit_scan(text, i, pat, 0) is Done));
    }
}

/// The message reported when a single character meets a different one.
pub open spec fn msg_char_mismatch(target: char, found: char) -> Seq<char> {
    "expected '"@ + seq![target] + "', but found '"@ + seq![found] + "'"@
}

/// Match one exact character at the cursor. At the end of the text this
/// succeeds without consuming anything; otherwise the logical character at
/// the cursor must equal `target`, and is consumed.
pub fn parse_char<'a>(target: char, src: ParseSrc<'a>) -> (r: ParseResult<'a, char>)
    requires
        src.wf(),
    ensures
        match r {
            Ok(s) => {
                &&& (src.pos() == src.text@.len() || logical_at(src.text@, src.pos())
                    == target)
                &&& s.src.wf()
                &&& s.src.text == src.text
                &&& s.src.pos() == if src.pos() == src.text@.len() {
                    src.pos()
                } else {
                    logical_step(src.text@, src.pos())
                }
                &&& s.value == target
                &&& s.span == (Span { start: src.location, end: s.src.location })
            },
            Err(e) => {
                &&& src.pos() < src.text@.len()
                &&& logical_at(src.text@, src.pos()) != target
                &&& e.location == src.location
                &&& e.message@ == msg_char_mismatch(target, logical_at(src.text@, src.pos()))
            },
        },
{
    let start = src;
    let mut cur = src;
    match cur.peek() {
        Some(next) => {
            if next != target {
                let mut m = String::from_str("expected '");
                push_char(&mut m, target);
                m.append("', but found '");
                push_char(&mut m, next);
                m.append("'");
                proof {
                    assert(m@ =~= msg_char_mismatch(target, next));
                }
                return Err(ParseError::new(start.location, m));
            }
            let _ = cur.next();
        },
        None => {},
    }
    Ok(ParseSuccess { value: target, span: cur.span_from(&start), src: cur })
}

/// The position reached by skipping white space from `i`.
pub open spec fn skip_ws(text: Seq<char>, i: int) -> int
    decreases text.len() - i,
{
    if 0 <= i < text.len() && is_space(logical_at(text, i)) {
        skip_ws(text, logical_step(text, i))
    } else {
        i
    }
}

pub proof fn lemma_skip_ws_bounds(text: Seq<char>, i: int)
    requires
        0 <= i <= text.len(),
    ensures
        i <= skip_ws(text, i) <= text.len(),
    decreases text.len() - i,
{
    if i < text.len() && is_space(logical_at(text, i)) {
        lemma_skip_ws_bounds(text, logical_step(text, i));
    }
}

/// Consume white space. Never fails; the cursor ends on the first
/// non-white-space character or at the end of the text.
pub fn parse_whitespace<'a>(src: ParseSrc<'a>) -> (r: ParseResult<'a, ()>)
    requires
        src.wf(),
    ensures
        match r {
            Ok(s) => {
                &&& s.src.wf()
                &&& s.src.text == src.text
                &&& s.src.pos() == skip_ws(src.text@, src.pos())
                &&& s.span == (Span { start: src.location, end: s.src.location })
            },
            Err(e) => false,
        },
{
    let start = src;
    let mut cur = src;
    loop
        invariant
            cur.wf(),
            cur.text == src.text,
            src.wf(),
            src.pos() <= cur.pos(),
            skip_ws(src.text@, src.pos()) == skip_ws(src.text@, cur.pos()),
        ensures
            cur.wf(),
            cur.text == src.text,
            src.pos() <= cur.pos(),
            cur.pos() == skip_ws(src.text@, src.pos()),
        decreases src.text@.len() - cur.pos(),
    {
        match cur.peek() {
            Some(next) => {
                if !crate::text::space_char(next) {
                    break ;
                }
                let _ = cur.next();
            },
            None => {
                break ;
            },
        }
    }
    Ok(ParseSuccess { value: (), span: cur.span_from(&start), src: cur })
}

/// Matching a literal that holds no carriage return or line feed
/// succeeds exactly when the text at the position starts with exactly
/// that literal; on success the scan ends just past it, so the consumed
/// region is the literal itself and its byte length is the literal's
/// byte length.
pub proof fn lemma_literal_match_exact(text: Seq<char>, i: int, pat: Seq<char>)
    requires
        0 <= i <= text.len(),
        forall|k: int| 0 <= k < pat.len() ==> #[trigger] pat[k] != '\r' && pat[k] != '\n',
    ensures
        lit_scan(text, i, pat, 0) is Done <==> (i + pat.len() <= text.len() && text.subrange(
            i,
            i + pat.len(),
        ) == pat),
        lit_scan(text, i, pat, 0) is Done ==> lit_scan(text, i, pat, 0) == (LitScan::Done {
            end: i + pat.len(),
        }),
        lit_scan(text, i, pat, 0) is Done ==> crate::text::byte_len(
            text.subrange(i, i + pat.len()),
        ) == crate::text::byte_len(pat),
{
    lemma_lit_scan_word(text, i, pat, 0);
    assert(pat.subrange(0, pat.len() as int) =~= pat);
    if lit_scan(text, i, pat, 0) is Done {
        assert(text.subrange(i, i + pat.len()) == pat);
    }
}


} // verus!
