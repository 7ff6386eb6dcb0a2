//! The parsing cursor: a view of the whole source text together with the
//! current `Location`. Cursors are cheap to copy; combinators that may fail
//! work on a copy and hand the caller back either an advanced cursor or an
//! error, never a partially advanced one.
//!
//! Reading folds a carriage return followed by a line feed into a single
//! logical line feed, so both line-ending conventions count as one line
//! terminator while byte offsets stay exact.

use vstd::prelude::*;

use crate::location::{lemma_advance_wf, loc_wf, Location, Span};
use crate::text::{byte_len, lemma_byte_len_mono, lemma_take_all};

verus! {

/// Whether a carriage-return / line-feed pair starts at `i`.
pub open spec fn crlf_at(text: Seq<char>, i: int) -> bool {
    &&& 0 <= i
    &&& i + 1 < text.len()
    &&& text[i] == '\r'
    &&& text[i + 1] == '\n'
}

/// The logical character at `i`: the raw character, except that a
/// carriage-return / line-feed pair reads as a line feed.
pub open spec fn logical_at(text: Seq<char>, i: int) -> char {
    if crlf_at(text, i) {
        '\n'
    } else {
        text[i]
    }
}

/// The position after consuming the logical character at `i`.
pub open spec fn logical_step(text: Seq<char>, i: int) -> int {
    if crlf_at(text, i) {
        i + 2
    } else {
        i + 1
    }
}

/// The logical character that starts at raw index `i` of `text`.
pub fn logical_char_at(text: &[char], i: usize) -> (r: char)
    requires
        i < text@.len(),
    ensures
        r == logical_at(text@, i as int),
{
    let c = text[i];
    if c == '\r' && i + 1 < text.len() && text[i + 1] == '\n' {
        '\n'
    } else {
        c
    }
}

/// The raw index just past the logical character at `i`.
pub fn logical_next_at(text: &[char], i: usize) -> (j: usize)
    requires
        i < text@.len(),
    ensures
        j == logical_step(text@, i as int),
        i < j <= text@.len(),
{
    let c = text[i];
    if c == '\r' && i + 1 < text.len() && text[i + 1] == '\n' {
        i + 2
    } else {
        i + 1
    }
}

/// The position-tracked view over the source text that drives parsing.
#[derive(Debug)]
pub struct ParseSrc<'a> {
    pub text: &'a [char],
    pub location: Location,
}

impl<'a> Clone for ParseSrc<'a> {
    fn clone(&self) -> (r: Self)
        ensures
            r == *self,
    {
        ParseSrc { text: self.text, location: self.location }
    }
}

impl<'a> Copy for ParseSrc<'a> {

}

impl<'a> ParseSrc<'a> {
    /// The cursor is a coordinate of its own text, and the whole text fits
    /// in the byte-offset arithmetic.
    pub open spec fn wf(&self) -> bool {
        &&& loc_wf(self.text@, self.location)
        &&& byte_len(self.text@) <= usize::MAX
    }

    /// The current position as a character index.
    pub open spec fn pos(&self) -> int {
        self.location.index as int
    }

    /// A cursor at the start of `text`.
    pub fn new(text: &'a [char]) -> (src: ParseSrc<'a>)
        requires
            byte_len(text@) <= usize::MAX,
        ensures
            src.wf(),
            src.text == text,
            src.pos() == 0,
            src.location == (Location { index: 0, byte_offset: 0, line: 0, column: 0 }),
    {
        proof {
            assert(text@.take(0) =~= Seq::<char>::empty());
        }
        ParseSrc { text, location: Location::new() }
    }

    /// Whether the whole text has been consumed.
    pub fn is_empty(&self) -> (r: bool)
        requires
            self.wf(),
        ensures
            r == (self.pos() == self.text@.len()),
    {
        self.location.index == self.text.len()
    }

    /// The span from an earlier cursor over the same text up to this one.
    pub fn span_from(&self, start: &ParseSrc<'a>) -> (s: Span)
        ensures
            s == (Span { start: start.location, end: self.location }),
    {
        Span::new(start.location, self.location)
    }

    /// The characters a span of this text covers.
    pub fn slice(&self, span: Span) -> (r: &'a [char])
        requires
            span.start.index <= span.end.index <= self.text@.len(),
        ensures
            r@ == self.text@.subrange(span.start.index as int, span.end.index as int),
    {
        span.slice(self.text)
    }

    /// The next logical character, if any, without advancing.
    pub fn peek(&self) -> (r: Option<char>)
        requires
            self.wf(),
        ensures
            r == if self.pos() < self.text@.len() {
                Some(logical_at(self.text@, self.pos()))
            } else {
                None::<char>
            },
    {
        if self.location.index < self.text.len() {
            let c = self.text[self.location.index];
            if c == '\r' && self.location.index + 1 < self.text.len()
                && self.text[self.location.index + 1] == '\n' {
                Some('\n')
            } else {
                Some(c)
            }
        } else {
            None
        }
    }

    /// Consume and return the next logical character, if any. A
    /// carriage-return / line-feed pair is consumed whole and counts as one
    /// line terminator.
    pub fn next(&mut self) -> (r: Option<char>)
        requires
            old(self).wf(),
        ensures
            final(self).text == old(self).text,
            final(self).wf(),
            r == if old(self).pos() < old(self).text@.len() {
                Some(logical_at(old(self).text@, old(self).pos()))
            } else {
                None::<char>
            },
            final(self).pos() == if old(self).pos() < old(self).text@.len() {
                logical_step(old(self).text@, old(self).pos())
            } else {
                old(self).pos()
            },
    {
        proof {
            lemma_take_all(self.text@);
        }
        if self.location.index < self.text.len() {
            let ghost pre = self.location;
            let i = self.location.index;
            let c = self.text[i];
            proof {
                lemma_byte_len_mono(self.text@, i + 1, self.text@.len() as int);
                crate::text::lemma_prefix_snoc(self.text@, i as int);
                crate::text::lemma_byte_len_ge_len(self.text@);
                crate::text::lemma_line_col_le_len(self.text@.take(i as int));
            }
            self.location.advance(c);
            proof {
                lemma_advance_wf(self.text@, pre, self.location);
            }
            if c == '\r' && self.location.index < self.text.len() {
                let c2 = self.text[self.location.index];
                if c2 == '\n' {
                    let ghost pre2 = self.location;
                    proof {
                        lemma_byte_len_mono(self.text@, i + 2, self.text@.len() as int);
                        crate::text::lemma_prefix_snoc(self.text@, i + 1);
                        crate::text::lemma_line_col_le_len(self.text@.take(i + 1));
                    }
                    self.location.advance(c2);
                    proof {
                        lemma_advance_wf(self.text@, pre2, self.location);
                    }
                    return Some('\n');
                }
            }
            Some(c)
        } else {
            None
        }
    }
}

/// The position reached by advancing from `i` until at least `target`
/// bytes of text lie behind the cursor, or the text ends.
pub open spec fn advance_to_byte(text: Seq<char>, i: int, target: int) -> int
    decreases text.len() - i,
{
    if !(0 <= i < text.len()) {
        i
    } else if byte_len(text.take(i)) >= target {
        i
    } else {
        advance_to_byte(text, logical_step(text, i), target)
    }
}

/// The advanced position stays within the text and past the start.
pub proof fn lemma_advance_to_byte_bounds(text: Seq<char>, i: int, target: int)
    requires
        0 <= i <= text.len(),
    ensures
        i <= advance_to_byte(text, i, target) <= text.len(),
    decreases text.len() - i,
{
    if 0 <= i < text.len() && byte_len(text.take(i)) < target {
        lemma_advance_to_byte_bounds(text, logical_step(text, i), target);
    }
}

impl<'a> ParseSrc<'a> {
    /// Advance until `bytes` more bytes of text lie behind the cursor, or
    /// the text ends.
    pub fn advance_bytes(&mut self, bytes: usize)
        requires
            old(self).wf(),
            old(self).location.byte_offset + bytes <= usize::MAX,
        ensures
            final(self).wf(),
            final(self).text == old(self).text,
            final(self).pos() == advance_to_byte(
                old(self).text@,
                old(self).pos(),
                old(self).location.byte_offset + bytes,
            ),
    {
        let ghost text = self.text@;
        let ghost target = self.location.byte_offset + bytes as int;
        let final_offset = self.location.byte_offset + bytes;
        loop
            invariant
                self.wf(),
                self.text == old(self).text,
                self.text@ == text,
                target == final_offset as int,
                advance_to_byte(text, old(self).pos(), target) == advance_to_byte(
                    text,
                    self.pos(),
                    target,
                ),
            ensures
                self.wf(),
                self.text == old(self).text,
                self.text@ == text,
                self.pos() == advance_to_byte(text, old(self).pos(), target),
            decreases text.len() - self.pos(),
        {
            if self.location.byte_offset >= final_offset {
                break ;
            }
            let stepped = self.next();
            if stepped.is_none() {
                break ;
            }
        }
    }

    /// The raw remaining text, as a string.
    pub fn remaining_str(&self) -> (r: String)
        requires
            self.wf(),
        ensures
            r@ == self.text@.skip(self.pos()),
    {
        proof {
            crate::text::lemma_byte_len_ge_len(self.text@);
        }
        let rest = vstd::slice::slice_subrange(self.text, self.location.index, self.text.len());
        proof {
            assert(self.text@.subrange(self.pos(), self.text@.len() as int) =~= self.text@.skip(
                self.pos(),
            ));
        }
        crate::msg::chars_to_string(rest)
    }

    /// Pair this cursor with another over possibly different text, to be
    /// read in lockstep.
    pub fn zip(self, b: ParseSrc<'a>) -> (z: ParseSrcZip<'a>)
        ensures
            z.a == self,
            z.b == b,
    {
        ParseSrcZip::new(self, b)
    }
}

/// Two cursors read in lockstep: a pair of characters is consumed from
/// both or from neither, so the two always stand the same number of
/// logical characters past where they started.
pub struct ParseSrcZip<'a> {
    pub a: ParseSrc<'a>,
    pub b: ParseSrc<'a>,
}

impl<'a> ParseSrcZip<'a> {
    pub fn new(a: ParseSrc<'a>, b: ParseSrc<'a>) -> (z: ParseSrcZip<'a>)
        ensures
            z.a == a,
            z.b == b,
    {
        ParseSrcZip { a, b }
    }

    /// Hand the two cursors back.
    pub fn get(self) -> (r: (ParseSrc<'a>, ParseSrc<'a>))
        ensures
            r.0 == self.a,
            r.1 == self.b,
    {
        (self.a, self.b)
    }

    /// Consume one logical character from each cursor, if both have one;
    /// otherwise consume nothing.
    pub fn next_pair(&mut self) -> (r: Option<(char, char)>)
        requires
            old(self).a.wf(),
            old(self).b.wf(),
        ensures
            final(self).a.wf(),
            final(self).b.wf(),
            final(self).a.text == old(self).a.text,
            final(self).b.text == old(self).b.text,
            ({
                let ta = old(self).a.text@;
                let tb = old(self).b.text@;
                let ia = old(self).a.pos();
                let ib = old(self).b.pos();
                if ia < ta.len() && ib < tb.len() {
                    &&& r == Some((logical_at(ta, ia), logical_at(tb, ib)))
                    &&& final(self).a.pos() == logical_step(ta, ia)
                    &&& final(self).b.pos() == logical_step(tb, ib)
                } else {
                    &&& r is None
                    &&& final(self).a == old(self).a
                    &&& final(self).b == old(self).b
                }
            }),
    {
        let ca = match self.a.peek() {
            Some(c) => c,
            None => {
                return None;
            },
        };
        let cb = match self.b.peek() {
            Some(c) => c,
            None => {
                return None;
            },
        };
        let _ = self.a.next();
        let _ = self.b.next();
        Some((ca, cb))
    }
}


} // verus!
