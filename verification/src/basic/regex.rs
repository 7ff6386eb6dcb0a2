//! Matching a regular expression at the cursor. The pattern should be
//! anchored to the start of its input (`^...`): the cursor advances by
//! the byte length of the match, which for an anchored pattern is
//! exactly the matched region.

use vstd::prelude::*;
use vstd::string::StringExecFns;

use crate::location::Span;
use crate::results::{ParseError, ParseResult, ParseSuccess};
use crate::source::{advance_to_byte, ParseSrc};
use crate::text::{byte_len, lemma_byte_len_split, lemma_take_all};

verus! {

/// The leftmost match of the pattern in the haystack, as byte offsets,
/// if the pattern is a valid regular expression and matches anywhere.
/// The result depends on the two strings alone.
pub uninterp spec fn regex_find_spec(pattern: Seq<char>, hay: Seq<char>) -> Option<(int, int)>;

/// Relies on `regex::Regex::new` and `regex::Regex::find`: the leftmost
/// match of the pattern, reported as byte offsets into the haystack, so
/// that its end never exceeds the haystack's byte length. An invalid
/// pattern reports no match.
#[verifier::external_body]
fn regex_find(pattern: &str, hay: &str) -> (r: Option<(usize, usize)>)
    ensures
        r is Some <==> (regex_find_spec(pattern@, hay@) is Some),
        r matches Some(p) ==> regex_find_spec(pattern@, hay@) == Some((p.0 as int, p.1 as int))
            && p.0 <= p.1 && p.1 <= byte_len(hay@),
{
    let re = match regex::Regex::new(pattern) {
        Ok(re) => re,
        Err(_) => {
            return None;
        },
    };
    match re.find(hay) {
        Some(m) => Some((m.start(), m.end())),
        None => None,
    }
}

/// The message reported when the pattern does not match.
pub open spec fn msg_regex(pattern: Seq<char>) -> Seq<char> {
    "expected to find a match of the regular expression `"@ + pattern
        + "`, but didn't"@
}

/// Match `pattern` against the remaining text. On a match the cursor
/// advances by the match's byte length and the value is the text
/// advanced over; with a start-anchored pattern that is exactly the
/// matched region.
pub fn parse_regex<'a>(pattern: &str, src: ParseSrc<'a>) -> (r: ParseResult<'a, String>)
    requires
        src.wf(),
    ensures
        ({
            let text = src.text@;
            let i0 = src.pos();
            let found = regex_find_spec(pattern@, text.skip(i0));
            match r {
                Ok(s) => {
                    &&& found matches Some(p)
                    &&& s.src.wf()
                    &&& s.src.text == src.text
                    &&& s.src.pos() == advance_to_byte(
                        text,
                        i0,
                        byte_len(text.take(i0)) + (p.1 - p.0),
                    )
                    &&& s.value@ == text.subrange(i0, s.src.pos())
                    &&& s.span == (Span { start: src.location, end: s.src.location })
                },
                Err(e) => {
                    &&& found is None
                    &&& e.location == src.location
                    &&& e.message@ == msg_regex(pattern@)
                },
            }
        }),
{
    let ghost text = src.text@;
    let ghost i0 = src.pos();
    let start = src;
    let hay = src.remaining_str();
    match regex_find(pattern, hay.as_str()) {
        Some(m) => {
            let len = m.1 - m.0;
            let mut cur = src;
            proof {
                lemma_byte_len_split(text, i0);
                lemma_take_all(text);
            }
            cur.advance_bytes(len);
            proof {
                crate::text::lemma_byte_len_ge_len(text);
                crate::source::lemma_advance_to_byte_bounds(
                    text,
                    i0,
                    byte_len(text.take(i0)) + (m.1 - m.0),
                );
            }
            let piece = vstd::slice::slice_subrange(cur.text, start.location.index, cur.location.index);
            let value = crate::msg::chars_to_string(piece);
            Ok(ParseSuccess { value, span: cur.span_from(&start), src: cur })
        },
        None => {
            let mut msg = String::from_str("expected to find a match of the regular expression `");
            msg.append(pattern);
            msg.append("`, but didn't");
            proof {
                assert(msg@ =~= msg_regex(pattern@));
            }
            Err(ParseError::new(start.location, msg))
        },
    }
}

} // verus!
