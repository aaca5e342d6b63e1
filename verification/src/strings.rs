//! Conversions between strings and character vectors, and the few
//! character-class tests the scanner needs from the standard library.

use vstd::prelude::*;
use vstd::string::StrSliceExecFns;

verus! {

/// Whether a character has the Unicode `Alphabetic` property, in the
/// sense of `char::is_alphabetic`.
pub uninterp spec fn alphabetic(c: char) -> bool;

/// Whether a character has the Unicode `White_Space` property, in the
/// sense of `char::is_whitespace`.
pub uninterp spec fn whitespace(c: char) -> bool;

/// The Unicode lowercasing of a character sequence, in the sense of
/// `str::to_lowercase`.
pub uninterp spec fn lower_of(s: Seq<char>) -> Seq<char>;

/// Relies on char::is_alphabetic: true exactly for characters with the
/// Alphabetic property; on ASCII these are the letters a-z and A-Z.
#[verifier::external_body]
pub(crate) fn is_alphabetic_char(c: char) -> (r: bool)
    ensures
        r == alphabetic(c),
        (('a' as u32) <= (c as u32) && (c as u32) <= ('z' as u32)) ==> r,
        (('A' as u32) <= (c as u32) && (c as u32) <= ('Z' as u32)) ==> r,
        ((c as u32) < 128 && !(('a' as u32) <= (c as u32) && (c as u32) <= ('z' as u32)) && !(('A' as u32) <= (c as u32) && (c as u32) <= ('Z' as u32))) ==> !r,
{
    c.is_alphabetic()
}

/// Relies on char::is_whitespace: true exactly for characters with the
/// White_Space property; on ASCII these are space and the controls
/// U+0009 through U+000D.
#[verifier::external_body]
pub(crate) fn is_whitespace_char(c: char) -> (r: bool)
    ensures
        r == whitespace(c),
        (c == ' ' || (9 <= (c as u32) && (c as u32) <= 13)) ==> r,
        ((c as u32) < 128 && c != ' ' && !(9 <= (c as u32) && (c as u32) <= 13)) ==> !r,
{
    c.is_whitespace()
}

/// Relies on str::to_lowercase: the result is a function of the
/// characters alone.
#[verifier::external_body]
pub(crate) fn lowercase_chars(v: &Vec<char>) -> (r: Vec<char>)
    ensures
        r@ == lower_of(v@),
{
    let s: String = v.iter().collect();
    s.to_lowercase().chars().collect()
}

/// Relies on String: FromIterator<char>: collecting characters yields
/// the string of exactly those characters, in order.
#[verifier::external_body]
pub(crate) fn chars_to_string(v: &Vec<char>) -> (r: String)
    ensures
        r@ == v@,
{
    v.iter().collect()
}

/// The characters of a string, as a vector.
pub fn str_to_chars(s: &str) -> (r: Vec<char>)
    ensures
        r@ == s@,
{
    let n = s.unicode_len();
    let mut v: Vec<char> = Vec::new();
    let mut i: usize = 0;
    while i < n
        invariant
            0 <= i <= n,
            n == s@.len(),
            v@ == s@.take(i as int),
        decreases n - i,
    {
        let c = s.get_char(i);
        v.push(c);
        proof {
            assert(v@ =~= s@.take(i + 1));
        }
        i = i + 1;
    }
    proof {
        assert(s@.take(n as int) =~= s@);
    }
    v
}

/// Whether two character vectors hold the same characters.
pub(crate) fn chars_eq(a: &Vec<char>, b: &Vec<char>) -> (r: bool)
    ensures
        r == (a@ == b@),
{
    if a.len() != b.len() {
        return false;
    }
    let n = a.len();
    let mut i: usize = 0;
    while i < n
        invariant
            0 <= i <= n,
            n == a@.len() == b@.len(),
            forall|j: int| 0 <= j < i ==> a@[j] == b@[j],
        decreases n - i,
    {
        if a[i] != b[i] {
            return false;
        }
        i = i + 1;
    }
    proof {
        assert(a@ =~= b@);
    }
    true
}

/// Whether two strings hold the same characters.
pub fn str_eq(a: &str, b: &str) -> (r: bool)
    ensures
        r == (a@ == b@),
{
    let va = str_to_chars(a);
    let vb = str_to_chars(b);
    chars_eq(&va, &vb)
}

/// A copy of `v[a..b]`.
pub(crate) fn seq_slice(v: &Vec<char>, a: usize, b: usize) -> (r: Vec<char>)
    requires
        a <= b <= v@.len(),
    ensures
        r@ == v@.subrange(a as int, b as int),
{
    let mut out: Vec<char> = Vec::new();
    let mut i: usize = a;
    while i < b
        invariant
            a <= i <= b <= v@.len(),
            out@ == v@.subrange(a as int, i as int),
        decreases b - i,
    {
        out.push(v[i]);
        proof {
            assert(out@ =~= v@.subrange(a as int, i + 1));
        }
        i = i + 1;
    }
    out
}

/// Appends all of `v` to `out`.
pub(crate) fn append_vec(out: &mut Vec<char>, v: &Vec<char>)
    ensures
        final(out)@ == old(out)@ + v@,
{
    let n = v.len();
    append_slice(out, v, 0, n);
    proof {
        assert(v@.subrange(0, n as int) =~= v@);
    }
}

/// Appends `v[a..b]` to `out`.
pub(crate) fn append_slice(out: &mut Vec<char>, v: &Vec<char>, a: usize, b: usize)
    requires
        a <= b <= v@.len(),
    ensures
        final(out)@ == old(out)@ + v@.subrange(a as int, b as int),
{
    let mut i: usize = a;
    while i < b
        invariant
            a <= i <= b <= v@.len(),
            out@ == old(out)@ + v@.subrange(a as int, i as int),
        decreases b - i,
    {
        out.push(v[i]);
        proof {
            assert(out@ =~= old(out)@ + v@.subrange(a as int, i + 1));
        }
        i = i + 1;
    }
    proof {
        if a == b {
            assert(out@ =~= old(out)@ + v@.subrange(a as int, b as int));
        }
    }
}

} // verus!
