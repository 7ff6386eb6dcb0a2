//! Comments: a line comment runs from `//` to the end of the line
//! (exclusive of the terminating line feed); a block comment runs from
//! `/*` to the first following `*/`, without nesting, and an unterminated
//! one runs to the end of the text. The value of a comment parse is its
//! content with surrounding white space trimmed.

use vstd::prelude::*;

use crate::location::Span;
use crate::msg::{chars_to_string, str_to_chars};
use crate::results::{ParseResult, ParseSuccess};
use crate::source::{logical_at, logical_step, ParseSrc};
use crate::basic::strings::{lemma_lit_scan_pair, lit_scan, msg_lit_ended, msg_lit_mismatch, parse_str, LitScan};
use crate::text::is_space;

verus! {

/// The first position at or after `i` that does not sit inside leading
/// white space.
pub open spec fn ltrim_idx(s: Seq<char>, i: int) -> int
    decreases s.len() - i,
{
    if 0 <= i < s.len() && is_space(s[i]) {
        ltrim_idx(s, i + 1)
    } else {
        i
    }
}

/// The position just past the last non-white-space character strictly
/// before `j`.
pub open spec fn rtrim_idx(s: Seq<char>, j: int) -> int
    decreases j,
{
    if 0 < j <= s.len() && is_space(s[j - 1]) {
        rtrim_idx(s, j - 1)
    } else {
        j
    }
}

/// `s` with white space removed from both ends.
pub open spec fn trim_spec(s: Seq<char>) -> Seq<char> {
    let a = ltrim_idx(s, 0);
    let b = rtrim_idx(s, s.len() as int);
    if a <= b {
        s.subrange(a, b)
    } else {
        Seq::empty()
    }
}

pub proof fn lemma_ltrim_bounds(s: Seq<char>, i: int)
    requires
        0 <= i <= s.len(),
    ensures
        i <= ltrim_idx(s, i) <= s.len(),
    decreases s.len() - i,
{
    if i < s.len() && is_space(s[i]) {
        lemma_ltrim_bounds(s, i + 1);
    }
}

pub proof fn lemma_rtrim_bounds(s: Seq<char>, j: int)
    requires
        0 <= j <= s.len(),
    ensures
        0 <= rtrim_idx(s, j) <= j,
    decreases j,
{
    if 0 < j && is_space(s[j - 1]) {
        lemma_rtrim_bounds(s, j - 1);
    }
}

/// A string of `cs` with white space removed from both ends.
pub fn trim_to_string(cs: &[char]) -> (r: String)
    ensures
        r@ == trim_spec(cs@),
{
    let n = cs.len();
    let mut lo: usize = 0;
    while lo < n && crate::text::space_char(cs[lo])
        invariant
            0 <= lo <= n,
            n == cs@.len(),
            ltrim_idx(cs@, 0) == ltrim_idx(cs@, lo as int),
        decreases n - lo,
    {
        lo = lo + 1;
    }
    let mut hi: usize = n;
    while hi > lo && crate::text::space_char(cs[hi - 1])
        invariant
            lo <= hi <= n,
            n == cs@.len(),
            ltrim_idx(cs@, 0) == ltrim_idx(cs@, lo as int),
            ltrim_idx(cs@, lo as int) == lo,
            rtrim_idx(cs@, n as int) == rtrim_idx(cs@, hi as int),
        decreases hi,
    {
        hi = hi - 1;
    }
    proof {
        lemma_rtrim_bounds(cs@, hi as int);
        if hi > lo {
            assert(rtrim_idx(cs@, hi as int) == hi);
        } else {
            assert(hi == lo);
        }
    }
    let piece = vstd::slice::slice_subrange(cs, lo, hi);
    chars_to_string(piece)
}

/// Whether a line comment opens at `i`.
pub open spec fn line_comment_at(text: Seq<char>, i: int) -> bool {
    &&& 0 <= i
    &&& i + 1 < text.len()
    &&& text[i] == '/'
    &&& text[i + 1] == '/'
}

/// Whether a block comment opens at `i`.
pub open spec fn block_comment_at(text: Seq<char>, i: int) -> bool {
    &&& 0 <= i
    &&& i + 1 < text.len()
    &&& text[i] == '/'
    &&& text[i + 1] == '*'
}

/// Where the line comment whose content starts at `i` ends: the next line
/// feed, or the end of the text.
pub open spec fn line_comment_end(text: Seq<char>, i: int) -> int
    decreases text.len() - i,
{
    if 0 <= i < text.len() && logical_at(text, i) != '\n' {
        line_comment_end(text, logical_step(text, i))
    } else {
        i
    }
}

pub proof fn lemma_line_comment_end_bounds(text: Seq<char>, i: int)
    requires
        0 <= i <= text.len(),
    ensures
        i <= line_comment_end(text, i) <= text.len(),
    decreases text.len() - i,
{
    if i < text.len() && logical_at(text, i) != '\n' {
        lemma_line_comment_end_bounds(text, logical_step(text, i));
    }
}

/// Whether a closing `*/` occurs at or after `i`.
pub open spec fn block_terminated(text: Seq<char>, i: int) -> bool
    decreases text.len() - i,
{
    if !(0 <= i < text.len()) {
        false
    } else if i + 1 < text.len() && text[i] == '*' && text[i + 1] == '/' {
        true
    } else {
        block_terminated(text, logical_step(text, i))
    }
}

/// Where the block comment whose content starts at `i` ends: just past the
/// first `*/` at or after `i`, or the end of the text.
pub open spec fn block_comment_end(text: Seq<char>, i: int) -> int
    decreases text.len() - i,
{
    if !(0 <= i < text.len()) {
        i
    } else if i + 1 < text.len() && text[i] == '*' && text[i + 1] == '/' {
        i + 2
    } else {
        block_comment_end(text, logical_step(text, i))
    }
}

pub proof fn lemma_block_comment_end_bounds(text: Seq<char>, i: int)
    requires
        0 <= i <= text.len(),
    ensures
        i <= block_comment_end(text, i) <= text.len(),
    decreases text.len() - i,
{
    if 0 <= i < text.len() && !(i + 1 < text.len() && text[i] == '*' && text[i + 1] == '/') {
        lemma_block_comment_end_bounds(text, logical_step(text, i));
    }
}

/// A terminated block comment ends at least two characters past where its
/// content starts.
pub proof fn lemma_block_end_terminated(text: Seq<char>, i: int)
    requires
        0 <= i <= text.len(),
        block_terminated(text, i),
    ensures
        i + 2 <= block_comment_end(text, i) <= text.len(),
    decreases text.len() - i,
{
    lemma_block_comment_end_bounds(text, i);
    if i + 1 < text.len() && text[i] == '*' && text[i + 1] == '/' {
    } else {
        lemma_block_end_terminated(text, logical_step(text, i));
    }
}

/// An unterminated block comment runs to the end of the text.
pub proof fn lemma_block_end_unterminated(text: Seq<char>, i: int)
    requires
        0 <= i <= text.len(),
        !block_terminated(text, i),
    ensures
        block_comment_end(text, i) == text.len(),
    decreases text.len() - i,
{
    if 0 <= i < text.len() && !(i + 1 < text.len() && text[i] == '*' && text[i + 1] == '/') {
        lemma_block_end_unterminated(text, logical_step(text, i));
    }
}

/// The error a failed two-character opener reports.
pub open spec fn opener_err_msg(text: Seq<char>, i: int, pat: Seq<char>) -> Seq<char> {
    match lit_scan(text, i, pat, 0) {
        LitScan::Done { end } => Seq::empty(),
        LitScan::Mismatch { end, seen } => msg_lit_mismatch(pat, seen),
        LitScan::Ended { end, seen } => msg_lit_ended(pat, seen),
    }
}

/// Where the content of a block comment whose content starts at `i` ends:
/// before the closing `*/` where there is one, else at the end of the
/// text.
pub open spec fn block_content_end(text: Seq<char>, i: int) -> int {
    if block_terminated(text, i) {
        block_comment_end(text, i) - 2
    } else {
        text.len() as int
    }
}

/// Match a line comment at the cursor: `//` through the end of the line,
/// exclusive of the terminating line feed. The value is the comment text
/// after the marker, trimmed.
pub fn parse_inline_comment<'a>(src: ParseSrc<'a>) -> (r: ParseResult<'a, String>)
    requires
        src.wf(),
    ensures
        ({
            let text = src.text@;
            let i0 = src.pos();
            match r {
                Ok(s) => {
                    &&& line_comment_at(text, i0)
                    &&& s.src.wf()
                    &&& s.src.text == src.text
                    &&& s.src.pos() == line_comment_end(text, i0 + 2)
                    &&& s.value@ == trim_spec(
                        text.subrange(i0 + 2, line_comment_end(text, i0 + 2)),
                    )
                    &&& s.span == (Span { start: src.location, end: s.src.location })
                },
                Err(e) => {
                    &&& !line_comment_at(text, i0)
                    &&& e.location == src.location
                    &&& e.message@ == opener_err_msg(text, i0, seq!['/', '/'])
                },
            }
        }),
{
    let ghost text = src.text@;
    let ghost i0 = src.pos();
    let start = src;
    let marker = str_to_chars("//");
    proof {
        reveal_strlit("//");
        assert(marker@ =~= seq!['/', '/']);
        lemma_lit_scan_pair(text, i0, '/', '/');
    }
    let mut cur = match parse_str(marker.as_slice(), src) {
        Ok(h) => h.src,
        Err(e) => {
            return Err(e);
        },
    };
    let content_start = cur;
    loop
        invariant
            cur.wf(),
            cur.text == src.text,
            text == src.text@,
            i0 + 2 <= cur.pos() <= text.len(),
            src.wf(),
            line_comment_end(text, i0 + 2) == line_comment_end(text, cur.pos()),
        ensures
            cur.wf(),
            cur.text == src.text,
            i0 + 2 <= cur.pos(),
            cur.pos() == line_comment_end(text, i0 + 2),
        decreases text.len() - cur.pos(),
    {
        match cur.peek() {
            Some(content) => {
                if content == '\n' {
                    break ;
                }
                let _ = cur.next();
            },
            None => {
                break ;
            },
        }
    }
    let content_span = cur.span_from(&content_start);
    let content = cur.slice(content_span);
    let value = trim_to_string(content);
    Ok(ParseSuccess { value, span: cur.span_from(&start), src: cur })
}

/// Match a block comment at the cursor: `/*` through the first following
/// `*/`, not nesting; one the text ends inside runs to the end of the
/// text. The value is the comment text between the markers, trimmed.
pub fn parse_multiline_comment<'a>(src: ParseSrc<'a>) -> (r: ParseResult<'a, String>)
    requires
        src.wf(),
    ensures
        ({
            let text = src.text@;
            let i0 = src.pos();
            match r {
                Ok(s) => {
                    &&& block_comment_at(text, i0)
                    &&& s.src.wf()
                    &&& s.src.text == src.text
                    &&& s.src.pos() == block_comment_end(text, i0 + 2)
                    &&& s.value@ == trim_spec(
                        text.subrange(i0 + 2, block_content_end(text, i0 + 2)),
                    )
                    &&& s.span == (Span { start: src.location, end: s.src.location })
                },
                Err(e) => {
                    &&& !block_comment_at(text, i0)
                    &&& e.location == src.location
                    &&& e.message@ == opener_err_msg(text, i0, seq!['/', '*'])
                },
            }
        }),
{
    let ghost text = src.text@;
    let ghost i0 = src.pos();
    let start = src;
    let opener = str_to_chars("/*");
    proof {
        reveal_strlit("/*");
        assert(opener@ =~= seq!['/', '*']);
        lemma_lit_scan_pair(text, i0, '/', '*');
    }
    let mut cur = match parse_str(opener.as_slice(), src) {
        Ok(h) => h.src,
        Err(e) => {
            return Err(e);
        },
    };
    let content_start = cur;
    let closer = str_to_chars("*/");
    proof {
        reveal_strlit("*/");
        assert(closer@ =~= seq!['*', '/']);
    }
    let mut terminated = false;
    loop
        invariant_except_break
            !terminated,
            block_comment_end(text, i0 + 2) == block_comment_end(text, cur.pos()),
            block_terminated(text, i0 + 2) == block_terminated(text, cur.pos()),
        invariant
            cur.wf(),
            cur.text == src.text,
            text == src.text@,
            i0 + 2 <= cur.pos() <= text.len(),
            src.wf(),
            closer@ == seq!['*', '/'],
        ensures
            cur.wf(),
            cur.text == src.text,
            i0 + 2 <= cur.pos(),
            cur.pos() == block_comment_end(text, i0 + 2),
            terminated == block_terminated(text, i0 + 2),
        decreases text.len() - cur.pos(),
    {
        proof {
            lemma_lit_scan_pair(text, cur.pos(), '*', '/');
        }
        match parse_str(closer.as_slice(), cur) {
            Ok(success) => {
                cur = success.src;
                terminated = true;
                break ;
            },
            Err(_) => {
                match cur.next() {
                    Some(_) => {},
                    None => {
                        break ;
                    },
                }
            },
        }
    }
    proof {
        lemma_block_comment_end_bounds(text, i0 + 2);
        if terminated {
            lemma_block_end_terminated(text, i0 + 2);
        } else {
            lemma_block_end_unterminated(text, i0 + 2);
        }
    }
    let content_end: usize = if terminated {
        cur.location.index - 2
    } else {
        cur.location.index
    };
    let content = vstd::slice::slice_subrange(
        cur.text,
        content_start.location.index,
        content_end,
    );
    proof {
        assert(content_start.location.index as int == i0 + 2);
        assert(content_end as int == block_content_end(text, i0 + 2));
        assert(content@ == text.subrange(i0 + 2, block_content_end(text, i0 + 2)));
    }
    let value = trim_to_string(content);
    Ok(ParseSuccess { value, span: cur.span_from(&start), src: cur })
}

/// Match either kind of comment at the cursor: a line comment, else a
/// block comment. A failure reports the block-comment opener it looked
/// for last.
pub fn parse_comment<'a>(src: ParseSrc<'a>) -> (r: ParseResult<'a, String>)
    requires
        src.wf(),
    ensures
        ({
            let text = src.text@;
            let i0 = src.pos();
            match r {
                Ok(s) => {
                    &&& line_comment_at(text, i0) || block_comment_at(text, i0)
                    &&& s.src.wf()
                    &&& s.src.text == src.text
                    &&& s.src.pos() == if line_comment_at(text, i0) {
                        line_comment_end(text, i0 + 2)
                    } else {
                        block_comment_end(text, i0 + 2)
                    }
                    &&& s.value@ == if line_comment_at(text, i0) {
                        trim_spec(text.subrange(i0 + 2, line_comment_end(text, i0 + 2)))
                    } else {
                        trim_spec(text.subrange(i0 + 2, block_content_end(text, i0 + 2)))
                    }
                    &&& s.span == (Span { start: src.location, end: s.src.location })
                },
                Err(e) => {
                    &&& !line_comment_at(text, i0)
                    &&& !block_comment_at(text, i0)
                    &&& e.location == src.location
                    &&& e.message@ == opener_err_msg(text, i0, seq!['/', '*'])
                },
            }
        }),
{
    match parse_inline_comment(src) {
        Ok(s) => Ok(s),
        Err(_) => parse_multiline_comment(src),
    }
}

/// Where the comment that opens at `i` ends, if one opens there: a line
/// comment runs to its end of line, a block comment past its closing
/// marker or to the end of the text.
pub open spec fn comment_end(text: Seq<char>, i: int) -> Option<int> {
    if line_comment_at(text, i) {
        Some(line_comment_end(text, i + 2))
    } else if block_comment_at(text, i) {
        Some(block_comment_end(text, i + 2))
    } else {
        None
    }
}

/// The comment regions of the text from `i`, in order: at each position a
/// comment either opens, and the scan resumes past it, or the scan steps
/// one logical character.
pub open spec fn comment_spans(text: Seq<char>, i: int) -> Seq<(int, int)>
    decreases text.len() - i,
{
    if !(0 <= i < text.len()) {
        Seq::empty()
    } else {
        match comment_end(text, i) {
            Some(e) => if i < e <= text.len() {
                seq![(i, e)] + comment_spans(text, e)
            } else {
                Seq::empty()
            },
            None => comment_spans(text, logical_step(text, i)),
        }
    }
}

/// Whether position `k` of the text lies inside a comment.
pub open spec fn in_comment(text: Seq<char>, k: int) -> bool {
    exists|n: int|
        0 <= n < comment_spans(text, 0).len() && (#[trigger] comment_spans(text, 0)[n]).0 <= k
            < comment_spans(text, 0)[n].1
}

/// The text with every comment blanked to spaces, character for
/// character: the length and the position of everything outside the
/// comments are untouched.
pub open spec fn stripped(text: Seq<char>) -> Seq<char> {
    Seq::new(text.len(), |k: int| if in_comment(text, k) { ' ' } else { text[k] })
}

/// Whether `k` lies in one of the first `m` spans.
pub open spec fn in_spans_prefix(spans: Seq<(int, int)>, m: int, k: int) -> bool {
    exists|n: int| 0 <= n < m && n < spans.len() && (#[trigger] spans[n]).0 <= k < spans[n].1
}

/// The collected span pairs, as mathematical integers.
pub open spec fn spans_int(s: Seq<(usize, usize)>) -> Seq<(int, int)>
    decreases s,
{
    if s.len() == 0 {
        Seq::empty()
    } else {
        spans_int(s.drop_last()).push((s.last().0 as int, s.last().1 as int))
    }
}

pub proof fn lemma_spans_int_elems(s: Seq<(usize, usize)>)
    ensures
        spans_int(s).len() == s.len(),
        forall|m: int|
            0 <= m < s.len() ==> spans_int(s)[m] == ((#[trigger] s[m]).0 as int, s[m].1 as int),
    decreases s.len(),
{
    if s.len() > 0 {
        lemma_spans_int_elems(s.drop_last());
        assert forall|m: int| 0 <= m < s.len() implies spans_int(s)[m] == ((
        #[trigger] s[m]).0 as int, s[m].1 as int) by {
            if m < s.len() - 1 {
                assert(s.drop_last()[m] == s[m]);
                assert(spans_int(s)[m] == spans_int(s.drop_last())[m]);
            } else {
                assert(s[m] == s.last());
            }
        }
    }
}

pub proof fn lemma_spans_int_push(s: Seq<(usize, usize)>, p: (usize, usize))
    ensures
        spans_int(s.push(p)) == spans_int(s).push((p.0 as int, p.1 as int)),
{
    assert(s.push(p).drop_last() =~= s);
    assert(s.push(p).last() == p);
}

/// Blank every comment of the text in place: scan once for the comment
/// regions, then overwrite each with spaces. Length and the line and
/// column arithmetic of everything outside the comments are preserved.
#[verifier::rlimit(60)]
pub fn strip_comments(t: &mut Vec<char>)
    requires
        crate::text::byte_len(old(t)@) <= usize::MAX,
    ensures
        final(t)@ == stripped(old(t)@),
{
    let ghost text = t@;
    let mut spans: Vec<(usize, usize)> = Vec::new();
    let mut cur = ParseSrc::new(t.as_slice());
    proof {
        assert(spans_int(spans@) =~= Seq::<(int, int)>::empty());
        assert(Seq::<(int, int)>::empty() + comment_spans(text, 0) =~= comment_spans(text, 0));
    }
    loop
        invariant
            cur.wf(),
            cur.text@ == text,
            text == old(t)@,
            t@ == text,
            0 <= cur.pos() <= text.len(),
            comment_spans(text, 0) == spans_int(spans@) + comment_spans(text, cur.pos()),
            forall|m: int|
                0 <= m < spans@.len() ==> 0 <= (#[trigger] spans@[m]).0 < spans@[m].1
                    <= text.len(),
        ensures
            spans_int(spans@) == comment_spans(text, 0),
            forall|m: int|
                0 <= m < spans@.len() ==> 0 <= (#[trigger] spans@[m]).0 < spans@[m].1
                    <= text.len(),
        decreases text.len() - cur.pos(),
    {
        let ghost j = cur.pos();
        match parse_comment(cur) {
            Ok(success) => {
                let ghost e = success.src.pos();
                proof {
                    if line_comment_at(text, j) {
                        lemma_line_comment_end_bounds(text, j + 2);
                    } else {
                        lemma_block_comment_end_bounds(text, j + 2);
                    }
                    lemma_spans_int_push(spans@, (success.span.start.index, success.span.end.index));
                    assert((spans_int(spans@) + seq![(j, e)]) + comment_spans(text, e)
                        =~= spans_int(spans@) + (seq![(j, e)] + comment_spans(text, e)));
                }
                spans.push((success.span.start.index, success.span.end.index));
                cur = success.src;
            },
            Err(_) => {
                match cur.next() {
                    Some(_) => {
                        proof {
                            assert(comment_spans(text, j) == comment_spans(text, cur.pos()));
                        }
                    },
                    None => {
                        proof {
                            assert(comment_spans(text, cur.pos()) =~= Seq::<(int, int)>::empty());
                            assert(spans_int(spans@) + Seq::<(int, int)>::empty() =~= spans_int(
                                spans@,
                            ));
                        }
                        break ;
                    },
                }
            },
        }
    }
    let total = spans.len();
    let mut si: usize = 0;
    while si < total
        invariant
            total == spans@.len(),
            si <= total,
            t@.len() == text.len(),
            spans_int(spans@) == comment_spans(text, 0),
            forall|m: int|
                0 <= m < spans@.len() ==> 0 <= (#[trigger] spans@[m]).0 < spans@[m].1
                    <= text.len(),
            forall|k: int|
                0 <= k < text.len() ==> #[trigger] t@[k] == if in_spans_prefix(
                    spans_int(spans@),
                    si as int,
                    k,
                ) {
                    ' '
                } else {
                    text[k]
                },
        decreases total - si,
    {
        let (a, b) = spans[si];
        let mut k = a;
        while k < b
            invariant
                total == spans@.len(),
                si < total,
                (a, b) == spans@[si as int],
                a <= k <= b,
                0 <= a < b <= text.len(),
                t@.len() == text.len(),
                spans_int(spans@) == comment_spans(text, 0),
                forall|m: int|
                    0 <= m < spans@.len() ==> 0 <= (#[trigger] spans@[m]).0 < spans@[m].1
                        <= text.len(),
                forall|q: int|
                    0 <= q < text.len() ==> #[trigger] t@[q] == if in_spans_prefix(
                        spans_int(spans@),
                        si as int,
                        q,
                    ) || (a <= q < k) {
                        ' '
                    } else {
                        text[q]
                    },
            decreases b - k,
        {
            t.set(k, ' ');
            k = k + 1;
        }
        proof {
            lemma_spans_int_elems(spans@);
            assert forall|q: int| 0 <= q < text.len() implies #[trigger] t@[q] == if
            in_spans_prefix(spans_int(spans@), si + 1, q) {
                ' '
            } else {
                text[q]
            } by {
                if in_spans_prefix(spans_int(spans@), si + 1, q) {
                    let n = choose|n: int|
                        0 <= n < si + 1 && n < spans_int(spans@).len() && (#[trigger] spans_int(
                            spans@,
                        )[n]).0 <= q < spans_int(spans@)[n].1;
                    if n == si {
                        assert(a <= q < b);
                    } else {
                        assert(in_spans_prefix(spans_int(spans@), si as int, q));
                    }
                } else {
                    assert(!in_spans_prefix(spans_int(spans@), si as int, q));
                    assert(!(a <= q < b));
                }
            }
        }
        si = si + 1;
    }
    proof {
        lemma_spans_int_elems(spans@);
        assert forall|k: int| 0 <= k < text.len() implies #[trigger] t@[k] == stripped(text)[k] by {
            if in_comment(text, k) {
                assert(in_spans_prefix(spans_int(spans@), total as int, k));
            } else {
                assert(!in_spans_prefix(spans_int(spans@), total as int, k));
            }
        }
        assert(t@ =~= stripped(text));
    }
}


/// A sequence without line feeds stays on its first line, with the
/// column counting every character.
pub proof fn lemma_no_newline_linecol(s: Seq<char>)
    requires
        forall|k: int| 0 <= k < s.len() ==> #[trigger] s[k] != '\n',
    ensures
        crate::text::line_of(s) == 0,
        crate::text::col_of(s) == s.len(),
    decreases s.len(),
{
    if s.len() > 0 {
        assert(forall|k: int|
            0 <= k < s.len() - 1 ==> #[trigger] s.drop_last()[k] == s[k]);
        lemma_no_newline_linecol(s.drop_last());
    }
}

/// A line comment's scan runs to the end of a text without line feeds.
proof fn lemma_line_end_no_newline(text: Seq<char>, i: int)
    requires
        0 <= i <= text.len(),
        forall|k: int| 0 <= k < text.len() ==> #[trigger] text[k] != '\n',
    ensures
        line_comment_end(text, i) == text.len(),
    decreases text.len() - i,
{
    if i < text.len() {
        assert(!crate::source::crlf_at(text, i));
        assert(logical_at(text, i) != '\n');
        lemma_line_end_no_newline(text, logical_step(text, i));
    }
}

/// A text consisting solely of a line comment marker through its end of
/// line strips to spaces of the same length, and every prefix keeps its
/// line and column coordinates: the comment region is replaced by
/// spaces only.
pub proof fn lemma_strip_line_comment_only(text: Seq<char>)
    requires
        line_comment_at(text, 0),
        forall|k: int| 0 <= k < text.len() ==> #[trigger] text[k] != '\n',
    ensures
        stripped(text).len() == text.len(),
        forall|k: int| 0 <= k < text.len() ==> stripped(text)[k] == ' ',
        forall|j: int|
            0 <= j <= text.len() ==> crate::text::line_of(#[trigger] stripped(text).take(j))
                == crate::text::line_of(text.take(j)) && crate::text::col_of(
                stripped(text).take(j),
            ) == crate::text::col_of(text.take(j)),
{
    lemma_line_end_no_newline(text, 2);
    assert(comment_end(text, 0) == Some(text.len() as int));
    assert(comment_spans(text, text.len() as int) =~= Seq::<(int, int)>::empty());
    assert(comment_spans(text, 0) =~= seq![(0int, text.len() as int)]);
    assert forall|k: int| 0 <= k < text.len() implies stripped(text)[k] == ' ' by {
        assert(comment_spans(text, 0)[0] == (0int, text.len() as int));
        assert(in_comment(text, k));
    }
    assert forall|j: int|
        0 <= j <= text.len() implies crate::text::line_of(#[trigger] stripped(text).take(j))
        == crate::text::line_of(text.take(j)) && crate::text::col_of(stripped(text).take(j))
        == crate::text::col_of(text.take(j)) by {
        assert(forall|k: int|
            0 <= k < j ==> #[trigger] stripped(text).take(j)[k] == ' ');
        assert(forall|k: int| 0 <= k < j ==> #[trigger] text.take(j)[k] != '\n');
        lemma_no_newline_linecol(stripped(text).take(j));
        lemma_no_newline_linecol(text.take(j));
    }
}

/// The spans the comment scan from a later position finds are among the
/// spans it finds from an earlier one; a position lying in none of the
/// spans of the earlier scan, holding a `/`, cannot open a comment.
proof fn lemma_scan_covers(text: Seq<char>, i: int, j: int)
    requires
        0 <= i <= j < text.len(),
        text[j] == '/',
        forall|n: int|
            0 <= n < comment_spans(text, i).len() ==> !((#[trigger] comment_spans(text, i)[n]).0
                <= j < comment_spans(text, i)[n].1),
    ensures
        comment_end(text, j) is None,
    decreases text.len() - i,
{
    match comment_end(text, i) {
        Some(e) => {
            if line_comment_at(text, i) {
                lemma_line_comment_end_bounds(text, i + 2);
            } else {
                lemma_block_comment_end_bounds(text, i + 2);
            }
            assert(comment_spans(text, i) =~= seq![(i, e)] + comment_spans(text, e));
            assert(comment_spans(text, i)[0] == (i, e));
            assert(!(i <= j < e));
            assert(j >= e);
            assert(forall|n: int|
                0 <= n < comment_spans(text, e).len() ==> #[trigger] comment_spans(text, e)[n]
                    == comment_spans(text, i)[n + 1]);
            lemma_scan_covers(text, e, j);
        },
        None => {
            if j == i {
            } else {
                assert(comment_spans(text, i) == comment_spans(text, logical_step(text, i)));
                if logical_step(text, i) > j {
                    assert(crate::source::crlf_at(text, i));
                    assert(j == i + 1);
                    assert(text[j] == '\n');
                    assert(false);
                }
                lemma_scan_covers(text, logical_step(text, i), j);
            }
        },
    }
}

/// After stripping, no comment marker survives anywhere in the text.
proof fn lemma_stripped_no_marker(text: Seq<char>, j: int)
    requires
        0 <= j < text.len(),
    ensures
        comment_end(stripped(text), j) is None,
{
    let out = stripped(text);
    if comment_end(out, j) is Some {
        assert(out[j] == '/');
        assert(out[j + 1] == '/' || out[j + 1] == '*');
        assert(!in_comment(text, j));
        assert(!in_comment(text, j + 1));
        assert(text[j] == '/');
        assert(text[j + 1] == '/' || text[j + 1] == '*');
        lemma_scan_covers(text, 0, j);
        assert(comment_end(text, j) is None);
        assert(!line_comment_at(text, j) && !block_comment_at(text, j));
        assert(false);
    }
}

/// The comment scan of a stripped text finds nothing.
proof fn lemma_stripped_spans_empty(text: Seq<char>, i: int)
    requires
        0 <= i,
    ensures
        comment_spans(stripped(text), i) =~= Seq::<(int, int)>::empty(),
    decreases text.len() - i,
{
    let out = stripped(text);
    if i < out.len() {
        lemma_stripped_no_marker(text, i);
        lemma_stripped_spans_empty(text, logical_step(out, i));
    }
}

/// Stripping is idempotent: the output of the comment stripper holds no
/// comment markers, so stripping it again changes nothing.
pub proof fn lemma_strip_idempotent(text: Seq<char>)
    ensures
        stripped(stripped(text)) == stripped(text),
{
    let out = stripped(text);
    lemma_stripped_spans_empty(text, 0);
    assert forall|k: int| 0 <= k < out.len() implies stripped(out)[k] == out[k] by {
        assert(!in_comment(out, k));
    }
    assert(stripped(out) =~= out);
}


} // verus!
