//! Counting pattern occurrences in a fragment, and how the count
//! behaves under the splices the transformers perform: the ground the
//! tag-conservation laws stand on.

use vstd::prelude::*;
use crate::pattern::is_match;

verus! {

/// How many positions of `h` a (nonempty) `pat` occurs at.
pub open spec fn occ(h: Seq<char>, pat: Seq<char>) -> nat
    decreases h.len(),
{
    if pat.len() == 0 || h.len() < pat.len() {
        0
    } else {
        (if h.subrange(0, pat.len() as int) == pat {
            1nat
        } else {
            0nat
        }) + occ(h.drop_first(), pat)
    }
}

/// Matching in the tail is matching one position later in the whole.
pub proof fn lemma_is_match_shift(h: Seq<char>, pat: Seq<char>, k: int)
    requires
        0 <= k,
        1 <= h.len(),
        1 <= pat.len(),
    ensures
        is_match(h.drop_first(), pat, k) == is_match(h, pat, k + 1),
{
    if 0 <= k && k + pat.len() <= h.len() - 1 {
        assert(h.drop_first().subrange(k, k + pat.len() as int) =~= h.subrange(
            k + 1,
            k + 1 + pat.len() as int,
        ));
    }
}

/// Matching in `y` is matching `x.len()` later in `x + y`.
pub proof fn lemma_is_match_offset(x: Seq<char>, y: Seq<char>, pat: Seq<char>, k: int)
    requires
        0 <= k,
    ensures
        is_match(y, pat, k) == is_match(x + y, pat, x.len() + k),
{
    if k + pat.len() <= y.len() {
        assert(y.subrange(k, k + pat.len() as int) =~= (x + y).subrange(
            x.len() + k,
            x.len() + k + pat.len() as int,
        ));
    }
}

/// A match fixes each character it covers.
pub proof fn lemma_match_char(h: Seq<char>, pat: Seq<char>, i: int, k: int)
    requires
        is_match(h, pat, i),
        i <= k < i + pat.len(),
    ensures
        h[k] == pat[k - i],
{
    assert(h.subrange(i, i + pat.len() as int)[k - i] == pat[k - i]);
}

/// Text without a single match has count zero.
pub proof fn lemma_occ_zero(h: Seq<char>, pat: Seq<char>)
    requires
        pat.len() >= 1,
        forall|k: int| !is_match(h, pat, k),
    ensures
        occ(h, pat) == 0,
    decreases h.len(),
{
    if h.len() >= pat.len() {
        assert(!is_match(h, pat, 0));
        assert forall|k: int| !is_match(h.drop_first(), pat, k) by {
            if k >= 0 {
                lemma_is_match_shift(h, pat, k);
            }
        }
        lemma_occ_zero(h.drop_first(), pat);
    }
}

/// When no match straddles the junction, counting splits over a
/// concatenation.
pub proof fn lemma_occ_concat(a: Seq<char>, b: Seq<char>, pat: Seq<char>)
    requires
        pat.len() >= 1,
        forall|k: int| a.len() - pat.len() < k < a.len() ==> !is_match(#[trigger] (a + b), pat, k),
    ensures
        occ(a + b, pat) == occ(a, pat) + occ(b, pat),
    decreases a.len(),
{
    let ab = a + b;
    if a.len() == 0 {
        assert(ab =~= b);
    } else {
        assert(ab.drop_first() =~= a.drop_first() + b);
        assert forall|k: int|
            a.drop_first().len() - pat.len() < k < a.drop_first().len() implies !is_match(
            #[trigger] (a.drop_first() + b),
            pat,
            k,
        ) by {
            if k >= 0 && is_match(a.drop_first() + b, pat, k) {
                lemma_is_match_shift(ab, pat, k);
                assert(is_match(ab, pat, k + 1));
                assert(false);
            }
        }
        lemma_occ_concat(a.drop_first(), b, pat);
        if ab.len() >= pat.len() {
            if pat.len() <= a.len() {
                assert((ab.subrange(0, pat.len() as int) == pat) == (a.subrange(
                    0,
                    pat.len() as int,
                ) == pat)) by {
                    assert(ab.subrange(0, pat.len() as int) =~= a.subrange(0, pat.len() as int));
                }
            } else {
                assert(!is_match(ab, pat, 0));
                assert(ab.subrange(0, pat.len() as int) != pat);
                assert(occ(a, pat) == 0);
            }
        } else {
            assert(occ(a, pat) == 0);
            assert(occ(b, pat) == 0);
        }
    }
}

/// Inserting `ins` at `j` adds exactly the matches inside `ins`, when
/// no match straddles the seams: none in the original across `j`, and
/// none in the result across either edge of the inserted text.
pub proof fn lemma_occ_insert(s: Seq<char>, j: int, ins: Seq<char>, pat: Seq<char>)
    requires
        pat.len() >= 1,
        0 <= j <= s.len(),
        forall|i: int| i < j < i + pat.len() ==> !is_match(s, pat, i),
        forall|i: int|
            j - pat.len() < i < j ==> !is_match(#[trigger] (s.take(j) + ins + s.skip(j)), pat, i),
        forall|i: int|
            j + ins.len() - pat.len() < i < j + ins.len() ==> !is_match(
                #[trigger] (s.take(j) + ins + s.skip(j)),
                pat,
                i,
            ),
    ensures
        occ(s.take(j) + ins + s.skip(j), pat) == occ(s, pat) + occ(ins, pat),
{
    let a = s.take(j);
    let c = s.skip(j);
    let s2 = a + ins + c;
    assert(a + c =~= s);
    // occ(s) splits at j
    assert forall|k: int| a.len() - pat.len() < k < a.len() implies !is_match(
        #[trigger] (a + c),
        pat,
        k,
    ) by {
        assert(a + c =~= s);
    }
    lemma_occ_concat(a, c, pat);
    // occ(ins + c) splits at the end of ins
    assert(a + (ins + c) =~= s2);
    assert forall|k: int| ins.len() - pat.len() < k < ins.len() implies !is_match(
        #[trigger] (ins + c),
        pat,
        k,
    ) by {
        if k >= 0 && is_match(ins + c, pat, k) {
            lemma_is_match_offset(a, ins + c, pat, k);
            assert(is_match(a + (ins + c), pat, a.len() + k));
            assert(is_match(s2, pat, j + k));
            assert(false);
        }
    }
    lemma_occ_concat(ins, c, pat);
    // occ(s2) splits at j
    assert forall|k: int| a.len() - pat.len() < k < a.len() implies !is_match(
        #[trigger] (a + (ins + c)),
        pat,
        k,
    ) by {
        assert(a + (ins + c) =~= s2);
    }
    lemma_occ_concat(a, ins + c, pat);
    assert(occ(s2, pat) == occ(a + (ins + c), pat));
}

/// Removing `s[a..b]` removes exactly the matches inside it, when no
/// match straddles either cut in the original and none straddles the
/// closed-up seam in the result.
pub proof fn lemma_occ_delete(s: Seq<char>, a: int, b: int, pat: Seq<char>)
    requires
        pat.len() >= 1,
        0 <= a <= b <= s.len(),
        forall|i: int| i < a < i + pat.len() ==> !is_match(s, pat, i),
        forall|i: int| i < b < i + pat.len() ==> !is_match(s, pat, i),
        forall|i: int| i < a < i + pat.len() ==> !is_match(#[trigger] (s.take(a) + s.skip(b)), pat, i),
    ensures
        occ(s.take(a) + s.skip(b), pat) == occ(s, pat) - occ(s.subrange(a, b), pat),
{
    let pre = s.take(a);
    let mid = s.subrange(a, b);
    let tail = s.skip(b);
    let out = pre + tail;
    assert(pre + (mid + tail) =~= s);
    assert(mid + tail =~= s.skip(a));
    // occ(s) = occ(pre) + occ(mid + tail)
    assert forall|k: int| pre.len() - pat.len() < k < pre.len() implies !is_match(
        #[trigger] (pre + (mid + tail)),
        pat,
        k,
    ) by {
        assert(pre + (mid + tail) =~= s);
    }
    lemma_occ_concat(pre, mid + tail, pat);
    // occ(mid + tail) = occ(mid) + occ(tail)
    assert forall|k: int| mid.len() - pat.len() < k < mid.len() implies !is_match(
        #[trigger] (mid + tail),
        pat,
        k,
    ) by {
        if k >= 0 && is_match(mid + tail, pat, k) {
            lemma_is_match_offset(pre, mid + tail, pat, k);
            assert(is_match(pre + (mid + tail), pat, a + k));
            assert(is_match(s, pat, a + k));
            assert(false);
        }
    }
    lemma_occ_concat(mid, tail, pat);
    // occ(out) = occ(pre) + occ(tail)
    assert forall|k: int| pre.len() - pat.len() < k < pre.len() implies !is_match(
        #[trigger] (pre + tail),
        pat,
        k,
    ) by {}
    lemma_occ_concat(pre, tail, pat);
}

} // verus!
