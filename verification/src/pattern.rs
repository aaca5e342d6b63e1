//! Substring matching over character sequences: the specification of
//! "pattern occurs at position i", the first occurrence at or after a
//! starting offset, and a linear-scan finder.

use vstd::prelude::*;

verus! {

/// `pat` occurs in `h` starting at position `i`.
pub open spec fn is_match(h: Seq<char>, pat: Seq<char>, i: int) -> bool {
    0 <= i && i + pat.len() <= h.len() && h.subrange(i, i + pat.len() as int) == pat
}

/// Position of the first occurrence of `pat` in `h` at or after `from`,
/// or `None` when there is none whose end fits inside `h`.
pub open spec fn first_at(h: Seq<char>, pat: Seq<char>, from: int) -> Option<int>
    decreases h.len() - from,
{
    if from < 0 || from + pat.len() > h.len() {
        None
    } else if pat.len() == 0 || h.subrange(from, from + pat.len() as int) == pat {
        Some(from)
    } else {
        first_at(h, pat, from + 1)
    }
}

/// What a `Some` answer of `first_at` means: a match at the answer, and
/// no match strictly before it (at or after `from`).
pub proof fn lemma_first_at_some(h: Seq<char>, pat: Seq<char>, from: int, i: int)
    requires
        first_at(h, pat, from) == Some(i),
    ensures
        from <= i,
        is_match(h, pat, i),
        forall|j: int| from <= j < i ==> !is_match(h, pat, j),
    decreases h.len() - from,
{
    if from < 0 || from + pat.len() > h.len() {
    } else if pat.len() == 0 || h.subrange(from, from + pat.len() as int) == pat {
        assert(h.subrange(from, from + pat.len() as int) =~= pat) by {
            if pat.len() == 0 {
                assert(h.subrange(from, from) =~= pat);
            }
        }
    } else {
        lemma_first_at_some(h, pat, from + 1, i);
    }
}

/// Whether `pat` occurs at `i` in `h`, checked character by character.
fn match_at(h: &Vec<char>, pat: &Vec<char>, i: usize) -> (r: bool)
    requires
        i + pat@.len() <= h@.len(),
    ensures
        r == is_match(h@, pat@, i as int),
{
    let hn = h.len();
    let mut k: usize = 0;
    while k < pat.len()
        invariant
            i + pat@.len() <= h@.len(),
            h@.len() == hn,
            0 <= k <= pat@.len(),
            forall|m: int| 0 <= m < k ==> h@[i + m] == pat@[m],
        decreases pat@.len() - k,
    {
        if h[i + k] != pat[k] {
            assert(h@.subrange(i as int, i + pat@.len() as int)[k as int] != pat@[k as int]);
            return false;
        }
        k = k + 1;
    }
    assert(h@.subrange(i as int, i + pat@.len() as int) =~= pat@);
    true
}

/// First occurrence of `pat` in `h` at or after `from`: the executable
/// counterpart of `first_at`.
pub fn find_at(h: &Vec<char>, pat: &Vec<char>, from: usize) -> (r: Option<usize>)
    ensures
        match r {
            Some(i) => first_at(h@, pat@, from as int) == Some(i as int),
            None => first_at(h@, pat@, from as int) is None,
        },
{
    if pat.len() == 0 {
        proof {
            if from <= h@.len() {
                assert(h@.subrange(from as int, from as int) =~= pat@);
            }
        }
        if from <= h.len() {
            return Some(from);
        } else {
            return None;
        }
    }
    if pat.len() > h.len() {
        proof {
            lemma_first_at_short(h@, pat@, from as int);
        }
        return None;
    }
    let last = h.len() - pat.len();
    if from > last {
        return None;
    }
    let mut i: usize = from;
    while i <= last
        invariant
            1 <= pat@.len() <= h@.len(),
            h@.len() <= usize::MAX,
            last == h@.len() - pat@.len(),
            from <= i <= last + 1,
            first_at(h@, pat@, from as int) == first_at(h@, pat@, i as int),
        decreases h@.len() - i,
    {
        if match_at(h, pat, i) {
            return Some(i);
        }
        proof {
            assert(first_at(h@, pat@, i as int) == first_at(h@, pat@, i + 1));
        }
        i = i + 1;
    }
    None
}

/// `first_at` finds nothing when the pattern is longer than the text.
proof fn lemma_first_at_short(h: Seq<char>, pat: Seq<char>, from: int)
    requires
        pat.len() > h.len(),
    ensures
        first_at(h, pat, from) is None,
    decreases h.len() - from,
{
    if from < 0 || from + pat.len() > h.len() {
    } else {
        assert(false);
    }
}

} // verus!
