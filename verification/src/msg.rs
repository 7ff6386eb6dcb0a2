//! Building diagnostic messages. Messages are plain `String`s assembled
//! from literal pieces and previews of source text; each combinator's
//! contract states the exact character sequence of the message it reports.

use vstd::prelude::*;
use vstd::string::StringExecFns;

verus! {

/// Relies on `String::push`: appends the given character to the end of the
/// string.
#[verifier::external_body]
pub fn push_char(s: &mut String, c: char)
    ensures
        final(s)@ == old(s)@.push(c),
{
    s.push(c);
}

/// Append every character of `cs` to `s`.
pub fn append_chars(s: &mut String, cs: &[char])
    ensures
        final(s)@ == old(s)@ + cs@,
{
    let n = cs.len();
    let mut i: usize = 0;
    while i < n
        invariant
            i <= n,
            n == cs@.len(),
            s@ == old(s)@ + cs@.take(i as int),
        decreases n - i,
    {
        push_char(s, cs[i]);
        proof {
            assert(old(s)@ + cs@.take(i + 1) =~= (old(s)@ + cs@.take(i as int)).push(
                cs@[i as int],
            ));
        }
        i = i + 1;
    }
    proof {
        assert(cs@.take(n as int) =~= cs@);
    }
}

/// A string of the characters of `cs`.
pub fn chars_to_string(cs: &[char]) -> (r: String)
    ensures
        r@ == cs@,
{
    let mut s = String::new();
    append_chars(&mut s, cs);
    proof {
        assert(Seq::<char>::empty() + cs@ =~= cs@);
    }
    s
}

/// The characters of `s`, as a vector.
pub fn str_to_chars(s: &str) -> (v: Vec<char>)
    ensures
        v@ == s@,
{
    let n = s.unicode_len();
    let mut v: Vec<char> = Vec::new();
    let mut i: usize = 0;
    while i < n
        invariant
            i <= n,
            n == s@.len(),
            v@ == s@.take(i as int),
        decreases n - i,
    {
        v.push(s.get_char(i));
        proof {
            assert(s@.take(i + 1) =~= s@.take(i as int).push(s@[i as int]));
        }
        i = i + 1;
    }
    proof {
        assert(s@.take(n as int) =~= s@);
    }
    v
}

/// `head ++ cs ++ tail`, for quoting a preview of source text.
pub fn join3(head: &str, cs: &[char], tail: &str) -> (r: String)
    ensures
        r@ == head@ + cs@ + tail@,
{
    let mut s = String::from_str(head);
    append_chars(&mut s, cs);
    s.append(tail);
    s
}

/// `head ++ c ++ tail`, for quoting a single character.
pub fn join3c(head: &str, c: char, tail: &str) -> (r: String)
    ensures
        r@ == head@ + seq![c] + tail@,
{
    let mut s = String::from_str(head);
    push_char(&mut s, c);
    proof {
        assert(s@ =~= head@ + seq![c]);
    }
    s.append(tail);
    s
}

/// `a ++ cs ++ b ++ ds ++ tail`, for messages quoting two previews.
pub fn join5(a: &str, cs: &[char], b: &str, ds: &[char], tail: &str) -> (r: String)
    ensures
        r@ == a@ + cs@ + b@ + ds@ + tail@,
{
    let mut s = String::from_str(a);
    append_chars(&mut s, cs);
    s.append(b);
    append_chars(&mut s, ds);
    proof {
        assert((a@ + cs@ + b@) + ds@ =~= a@ + cs@ + b@ + ds@);
    }
    s.append(tail);
    s
}

} // verus!
