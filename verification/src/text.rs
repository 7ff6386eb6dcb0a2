//! Character-level facts about source text: UTF-8 widths, line and column
//! arithmetic over a prefix of the text, and the character classes the
//! grammar uses.

use vstd::prelude::*;

verus! {

/// The number of bytes the UTF-8 encoding of `c` occupies.
pub open spec fn char_bytes(c: char) -> int {
    if (c as u32) < 0x80 {
        1
    } else if (c as u32) < 0x800 {
        2
    } else if (c as u32) < 0x10000 {
        3
    } else {
        4
    }
}

/// The UTF-8 byte length of a whole sequence of characters.
pub open spec fn byte_len(s: Seq<char>) -> int
    decreases s.len(),
{
    if s.len() == 0 {
        0
    } else {
        byte_len(s.drop_last()) + char_bytes(s.last())
    }
}

/// How many line feeds occur in `s`: the line number after reading `s`.
pub open spec fn line_of(s: Seq<char>) -> int
    decreases s.len(),
{
    if s.len() == 0 {
        0
    } else if s.last() == '\n' {
        line_of(s.drop_last()) + 1
    } else {
        line_of(s.drop_last())
    }
}

/// How many characters follow the last line feed of `s`: the column after
/// reading `s`.
pub open spec fn col_of(s: Seq<char>) -> int
    decreases s.len(),
{
    if s.len() == 0 {
        0
    } else if s.last() == '\n' {
        0
    } else {
        col_of(s.drop_last()) + 1
    }
}

/// Extending a prefix by one character adds that character's width, and
/// steps the line and column by the single-character rule.
pub proof fn lemma_prefix_snoc(text: Seq<char>, i: int)
    requires
        0 <= i < text.len(),
    ensures
        byte_len(text.take(i + 1)) == byte_len(text.take(i)) + char_bytes(text[i]),
        line_of(text.take(i + 1)) == line_of(text.take(i)) + if text[i] == '\n' {
            1int
        } else {
            0int
        },
        col_of(text.take(i + 1)) == if text[i] == '\n' {
            0int
        } else {
            col_of(text.take(i)) + 1
        },
{
    assert(text.take(i + 1).drop_last() =~= text.take(i));
    assert(text.take(i + 1).last() == text[i]);
}

/// Every character is at least one byte wide.
pub proof fn lemma_byte_len_ge_len(s: Seq<char>)
    ensures
        byte_len(s) >= s.len(),
    decreases s.len(),
{
    if s.len() > 0 {
        lemma_byte_len_ge_len(s.drop_last());
    }
}

/// Line and column numbers never exceed the length of the prefix read.
pub proof fn lemma_line_col_le_len(s: Seq<char>)
    ensures
        line_of(s) <= s.len(),
        col_of(s) <= s.len(),
    decreases s.len(),
{
    if s.len() > 0 {
        lemma_line_col_le_len(s.drop_last());
    }
}

/// Byte length grows with the prefix.
pub proof fn lemma_byte_len_mono(text: Seq<char>, i: int, j: int)
    requires
        0 <= i <= j <= text.len(),
    ensures
        byte_len(text.take(i)) <= byte_len(text.take(j)),
    decreases j - i,
{
    if i < j {
        lemma_prefix_snoc(text, i);
        lemma_byte_len_mono(text, i + 1, j);
    }
}

pub proof fn lemma_take_all(text: Seq<char>)
    ensures
        byte_len(text.take(text.len() as int)) == byte_len(text),
        line_of(text.take(text.len() as int)) == line_of(text),
        col_of(text.take(text.len() as int)) == col_of(text),
{
    assert(text.take(text.len() as int) =~= text);
}

/// Byte length splits across a cut of the sequence.
pub proof fn lemma_byte_len_split(s: Seq<char>, i: int)
    requires
        0 <= i <= s.len(),
    ensures
        byte_len(s) == byte_len(s.take(i)) + byte_len(s.skip(i)),
    decreases s.len() - i,
{
    if i == s.len() {
        assert(s.take(i) =~= s);
        assert(s.skip(i) =~= Seq::<char>::empty());
    } else {
        lemma_byte_len_split(s, i + 1);
        lemma_prefix_snoc(s, i);
        assert(s.skip(i).drop_first() =~= s.skip(i + 1));
        assert(s.skip(i) =~= seq![s[i]] + s.skip(i + 1));
        lemma_byte_len_cons(s[i], s.skip(i + 1));
    }
}

/// Byte length of a sequence with one character in front.
pub proof fn lemma_byte_len_cons(c: char, s: Seq<char>)
    ensures
        byte_len(seq![c] + s) == char_bytes(c) + byte_len(s),
    decreases s.len(),
{
    if s.len() == 0 {
        assert(seq![c] + s =~= seq![c]);
        assert(seq![c].drop_last() =~= Seq::<char>::empty());
        assert(seq![c].last() == c);
        assert(byte_len(seq![c]) == byte_len(seq![c].drop_last()) + char_bytes(c));
        assert(byte_len(Seq::<char>::empty()) == 0);
    } else {
        assert((seq![c] + s).drop_last() =~= seq![c] + s.drop_last());
        assert((seq![c] + s).last() == s.last());
        lemma_byte_len_cons(c, s.drop_last());
    }
}

/// The executable counterpart of `char_bytes`.
pub fn utf8_width(c: char) -> (n: usize)
    ensures
        n == char_bytes(c),
{
    let u = c as u32;
    if u < 0x80 {
        1
    } else if u < 0x800 {
        2
    } else if u < 0x10000 {
        3
    } else {
        4
    }
}

/// The characters the grammar treats as white space: the ASCII white-space
/// characters together with the Unicode `White_Space` code points.
pub open spec fn is_space(c: char) -> bool {
    c == ' ' || c == '\t' || c == '\n' || c == '\r' || c == '\u{b}' || c == '\u{c}'
        || c == '\u{85}' || c == '\u{a0}' || c == '\u{1680}'
        || ('\u{2000}' <= c && c <= '\u{200a}') || c == '\u{2028}' || c == '\u{2029}'
        || c == '\u{202f}' || c == '\u{205f}' || c == '\u{3000}'
}

pub fn space_char(c: char) -> (r: bool)
    ensures
        r == is_space(c),
{
    c == ' ' || c == '\t' || c == '\n' || c == '\r' || c == '\u{b}' || c == '\u{c}'
        || c == '\u{85}' || c == '\u{a0}' || c == '\u{1680}'
        || ('\u{2000}' <= c && c <= '\u{200a}') || c == '\u{2028}' || c == '\u{2029}'
        || c == '\u{202f}' || c == '\u{205f}' || c == '\u{3000}'
}

/// An ASCII letter or underscore: what may open an identifier.
pub open spec fn is_ident_start(c: char) -> bool {
    ('a' <= c && c <= 'z') || ('A' <= c && c <= 'Z') || c == '_'
}

pub fn ident_start_char(c: char) -> (r: bool)
    ensures
        r == is_ident_start(c),
{
    ('a' <= c && c <= 'z') || ('A' <= c && c <= 'Z') || c == '_'
}

/// An ASCII letter, digit or underscore: what may continue an identifier.
pub open spec fn is_ident_cont(c: char) -> bool {
    is_ident_start(c) || ('0' <= c && c <= '9')
}

pub fn ident_cont_char(c: char) -> (r: bool)
    ensures
        r == is_ident_cont(c),
{
    ident_start_char(c) || ('0' <= c && c <= '9')
}

pub open spec fn is_digit(c: char) -> bool {
    '0' <= c && c <= '9'
}

pub fn digit_char(c: char) -> (r: bool)
    ensures
        r == is_digit(c),
{
    '0' <= c && c <= '9'
}

} // verus!
