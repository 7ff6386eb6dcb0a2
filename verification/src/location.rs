//! Coordinates in source text. A `Location` is a point: the index of the
//! next character together with its byte offset, line and column. A `Span`
//! is a range between two locations over the same text, used both for
//! diagnostics and for slicing the text.

use vstd::prelude::*;

use crate::text::{byte_len, char_bytes, col_of, lemma_prefix_snoc, line_of};

verus! {

/// A point in source text. `index` counts characters from the start;
/// `byte_offset` counts the UTF-8 bytes of those characters; `line` counts
/// the line feeds read so far; `column` counts the characters since the
/// last line feed.
#[derive(Debug, Clone, Copy, PartialEq, Eq, Structural)]
pub struct Location {
    pub index: usize,
    pub byte_offset: usize,
    pub line: usize,
    pub column: usize,
}

/// `loc` is the coordinate of character `loc.index` of `text`: each derived
/// field agrees with the prefix read so far.
pub open spec fn loc_wf(text: Seq<char>, loc: Location) -> bool {
    &&& loc.index <= text.len()
    &&& loc.byte_offset == byte_len(text.take(loc.index as int))
    &&& loc.line == line_of(text.take(loc.index as int))
    &&& loc.column == col_of(text.take(loc.index as int))
}

impl Location {
    /// The origin: before the first character.
    pub fn new() -> (loc: Location)
        ensures
            loc == (Location { index: 0, byte_offset: 0, line: 0, column: 0 }),
    {
        Location { index: 0, byte_offset: 0, line: 0, column: 0 }
    }

    /// Step past one character: a line feed opens a new line, anything else
    /// widens the current one by a single column.
    pub fn advance(&mut self, c: char)
        requires
            old(self).index < usize::MAX,
            old(self).byte_offset + char_bytes(c) <= usize::MAX,
            old(self).line < usize::MAX,
            old(self).column < usize::MAX,
        ensures
            final(self).index == old(self).index + 1,
            final(self).byte_offset == old(self).byte_offset + char_bytes(c),
            final(self).line == old(self).line + if c == '\n' {
                1int
            } else {
                0int
            },
            final(self).column == if c == '\n' {
                0int
            } else {
                old(self).column + 1
            },
    {
        self.index = self.index + 1;
        self.byte_offset = self.byte_offset + crate::text::utf8_width(c);
        if c == '\n' {
            self.line = self.line + 1;
            self.column = 0;
        } else {
            self.column = self.column + 1;
        }
    }
}

/// Advancing past character `i` of the text keeps a location well formed.
pub proof fn lemma_advance_wf(text: Seq<char>, pre: Location, post: Location)
    requires
        loc_wf(text, pre),
        pre.index < text.len(),
        post.index == pre.index + 1,
        post.byte_offset == pre.byte_offset + char_bytes(text[pre.index as int]),
        post.line == pre.line + if text[pre.index as int] == '\n' {
            1int
        } else {
            0int
        },
        post.column == if text[pre.index as int] == '\n' {
            0int
        } else {
            pre.column + 1
        },
    ensures
        loc_wf(text, post),
{
    lemma_prefix_snoc(text, pre.index as int);
}

/// A matched range of source text, from `start` inclusive to `end`
/// exclusive, both over the same text.
#[derive(Debug, Clone, Copy, PartialEq, Eq, Structural)]
pub struct Span {
    pub start: Location,
    pub end: Location,
}

impl Span {
    pub fn new(start: Location, end: Location) -> (s: Span)
        ensures
            s == (Span { start, end }),
    {
        Span { start, end }
    }

    /// The characters of `text` the span covers.
    pub fn slice<'a>(&self, text: &'a [char]) -> (r: &'a [char])
        requires
            self.start.index <= self.end.index <= text@.len(),
        ensures
            r@ == text@.subrange(self.start.index as int, self.end.index as int),
    {
        vstd::slice::slice_subrange(text, self.start.index, self.end.index)
    }

    /// The span's extent in bytes.
    pub fn len(&self) -> (n: usize)
        requires
            self.start.byte_offset <= self.end.byte_offset,
        ensures
            n == self.end.byte_offset - self.start.byte_offset,
    {
        self.end.byte_offset - self.start.byte_offset
    }
}

} // verus!
