//! The low-level scanning passes: tag stripping, the month-token test
//! used to recognize printed-date paragraphs, and the locator that
//! finds the text between an opening and a closing marker.

use vstd::prelude::*;
use crate::markup::by_prefix;
use crate::pattern::{find_at, first_at, lemma_first_at_some};
use crate::strings::{
    alphabetic, whitespace, is_alphabetic_char, is_whitespace_char, chars_to_string, seq_slice,
    str_to_chars,
};

verus! {

/// `s` with its leading whitespace removed.
pub open spec fn trim_start_spec(s: Seq<char>) -> Seq<char>
    decreases s.len(),
{
    if s.len() > 0 && whitespace(s[0]) {
        trim_start_spec(s.drop_first())
    } else {
        s
    }
}

/// `s` with its trailing whitespace removed.
pub open spec fn trim_end_spec(s: Seq<char>) -> Seq<char>
    decreases s.len(),
{
    if s.len() > 0 && whitespace(s[s.len() - 1]) {
        trim_end_spec(s.drop_last())
    } else {
        s
    }
}

/// `s` with whitespace removed from both ends, as `str::trim` leaves it.
pub open spec fn trim_spec(s: Seq<char>) -> Seq<char> {
    trim_end_spec(trim_start_spec(s))
}

/// If the first `a` characters are whitespace and the one at `a` (when
/// there is one) is not, trimming the start drops exactly those `a`.
proof fn lemma_trim_start_at(s: Seq<char>, a: int)
    requires
        0 <= a <= s.len(),
        forall|j: int| 0 <= j < a ==> whitespace(s[j]),
        a < s.len() ==> !whitespace(s[a]),
    ensures
        trim_start_spec(s) == s.skip(a),
    decreases a,
{
    if a == 0 {
        assert(s.skip(0) =~= s);
    } else {
        assert(whitespace(s[0]));
        lemma_trim_start_at(s.drop_first(), a - 1);
        assert(s.drop_first().skip(a - 1) =~= s.skip(a));
    }
}

/// If every character from `e` on is whitespace and the one at `e - 1`
/// (when there is one) is not, trimming the end keeps exactly `e`.
proof fn lemma_trim_end_at(s: Seq<char>, e: int)
    requires
        0 <= e <= s.len(),
        forall|j: int| e <= j < s.len() ==> whitespace(s[j]),
        e > 0 ==> !whitespace(s[e - 1]),
    ensures
        trim_end_spec(s) == s.take(e),
    decreases s.len() - e,
{
    if e == s.len() {
        assert(s.take(e) =~= s);
    } else {
        assert(whitespace(s[s.len() - 1]));
        lemma_trim_end_at(s.drop_last(), e);
        assert(s.drop_last().take(e) =~= s.take(e));
    }
}

/// The characters of `s` that lie outside `<`...`>` regions: a `<`
/// opens a tag, a `>` closes one, and characters inside are dropped.
/// The flag says whether the scan is currently inside a tag.
pub open spec fn drop_tags_spec(s: Seq<char>, in_tag: bool) -> Seq<char>
    decreases s.len(),
{
    if s.len() == 0 {
        Seq::<char>::empty()
    } else if s[0] == '<' {
        drop_tags_spec(s.drop_first(), true)
    } else if s[0] == '>' {
        drop_tags_spec(s.drop_first(), false)
    } else if in_tag {
        drop_tags_spec(s.drop_first(), true)
    } else {
        seq![s[0]] + drop_tags_spec(s.drop_first(), false)
    }
}

/// What `strip_tags` returns: the text outside tags, trimmed.
pub open spec fn strip_tags_spec(s: Seq<char>) -> Seq<char> {
    trim_spec(drop_tags_spec(s, false))
}

/// Tag stripping on a character vector.
pub(crate) fn strip_tags_chars(v: &Vec<char>) -> (r: Vec<char>)
    ensures
        r@ == strip_tags_spec(v@),
{
    let n = v.len();
    let mut raw: Vec<char> = Vec::new();
    let mut in_tag = false;
    let mut i: usize = 0;
    proof {
        assert(v@.skip(0) =~= v@);
        assert(Seq::<char>::empty() + drop_tags_spec(v@, false) =~= drop_tags_spec(v@, false));
    }
    while i < n
        invariant
            0 <= i <= n,
            n == v@.len(),
            drop_tags_spec(v@, false) == raw@ + drop_tags_spec(v@.skip(i as int), in_tag),
        decreases n - i,
    {
        proof {
            assert(v@.skip(i as int).drop_first() =~= v@.skip(i + 1));
            assert(v@.skip(i as int)[0] == v@[i as int]);
        }
        let c = v[i];
        if c == '<' {
            in_tag = true;
        } else if c == '>' {
            in_tag = false;
        } else if !in_tag {
            raw.push(c);
            proof {
                assert(raw@ + drop_tags_spec(v@.skip(i + 1), false) =~= old_raw_plus(
                    raw@.drop_last(),
                    v@,
                    i as int,
                ));
            }
        }
        i = i + 1;
    }
    proof {
        assert(v@.skip(n as int) =~= Seq::<char>::empty());
        assert(raw@ + drop_tags_spec(v@.skip(n as int), in_tag) =~= raw@);
    }
    trim_chars(&raw)
}

/// Whitespace trimming on a character vector.
pub(crate) fn trim_chars(raw: &Vec<char>) -> (r: Vec<char>)
    ensures
        r@ == trim_spec(raw@),
{
    let m = raw.len();
    let mut a: usize = 0;
    while a < m
        invariant
            0 <= a <= m,
            m == raw@.len(),
            forall|j: int| 0 <= j < a ==> whitespace(raw@[j]),
        ensures
            0 <= a <= m,
            forall|j: int| 0 <= j < a ==> whitespace(raw@[j]),
            a < m ==> !whitespace(raw@[a as int]),
        decreases m - a,
    {
        if !is_whitespace_char(raw[a]) {
            break;
        }
        a = a + 1;
    }
    let mut e: usize = m;
    while e > a
        invariant
            a <= e <= m,
            m == raw@.len(),
            forall|j: int| e <= j < m ==> whitespace(raw@[j]),
        ensures
            a <= e <= m,
            forall|j: int| e <= j < m ==> whitespace(raw@[j]),
            e > a ==> !whitespace(raw@[e - 1]),
        decreases e,
    {
        if !is_whitespace_char(raw[e - 1]) {
            break;
        }
        e = e - 1;
    }
    proof {
        lemma_trim_start_at(raw@, a as int);
        let t = raw@.skip(a as int);
        if e == a {
            lemma_trim_end_at(t, 0);
        } else {
            lemma_trim_end_at(t, e - a);
        }
        assert(t.take(e - a) =~= raw@.subrange(a as int, e as int));
    }
    seq_slice(&raw, a, e)
}

/// Helper shape for the tag-stripping loop proof: the accumulator
/// after pushing `v[i]`, followed by the rest of the scan.
spec fn old_raw_plus(prefix: Seq<char>, v: Seq<char>, i: int) -> Seq<char> {
    prefix + (seq![v[i]] + drop_tags_spec(v.skip(i + 1), false))
}

/// Drops every character between `<` and `>` (inclusive) and trims the
/// result.
pub fn strip_tags(s: &str) -> (r: String)
    ensures
        r@ == strip_tags_spec(s@),
{
    let v = str_to_chars(s);
    let out = strip_tags_chars(&v);
    chars_to_string(&out)
}

/// The fixed table of recognized month tokens.
pub open spec fn month_spec(i: int) -> Seq<char> {
    if i == 0 {
        "Jan."@
    } else if i == 1 {
        "January"@
    } else if i == 2 {
        "Feb."@
    } else if i == 3 {
        "February"@
    } else if i == 4 {
        "Mar."@
    } else if i == 5 {
        "March"@
    } else if i == 6 {
        "Apr."@
    } else if i == 7 {
        "April"@
    } else if i == 8 {
        "May"@
    } else if i == 9 {
        "June"@
    } else if i == 10 {
        "July"@
    } else if i == 11 {
        "Aug."@
    } else if i == 12 {
        "August"@
    } else if i == 13 {
        "Sept."@
    } else if i == 14 {
        "September"@
    } else if i == 15 {
        "Oct."@
    } else if i == 16 {
        "October"@
    } else if i == 17 {
        "Nov."@
    } else if i == 18 {
        "November"@
    } else if i == 19 {
        "Dec."@
    } else {
        "December"@
    }
}

/// The month token `m` stands at the head of `s`, and the character
/// after it (when there is one) is not alphabetic.
pub open spec fn month_token_at(s: Seq<char>, m: Seq<char>) -> bool {
    &&& m.len() <= s.len()
    &&& s.take(m.len() as int) == m
    &&& (s.len() == m.len() || !alphabetic(s[m.len() as int]))
}

/// What `starts_with_month` tests: after leading whitespace, `s`
/// begins with one of the 21 month tokens at a word boundary.
pub open spec fn starts_with_month_spec(s: Seq<char>) -> bool {
    exists|i: int| 0 <= i < 21 && month_token_at(trim_start_spec(s), month_spec(i))
}

/// The month token at table position `i`.
fn month_str(i: usize) -> (r: &'static str)
    requires
        i < 21,
    ensures
        r@ == month_spec(i as int),
{
    match i {
        0 => "Jan.",
        1 => "January",
        2 => "Feb.",
        3 => "February",
        4 => "Mar.",
        5 => "March",
        6 => "Apr.",
        7 => "April",
        8 => "May",
        9 => "June",
        10 => "July",
        11 => "Aug.",
        12 => "August",
        13 => "Sept.",
        14 => "September",
        15 => "Oct.",
        16 => "October",
        17 => "Nov.",
        18 => "November",
        19 => "Dec.",
        _ => "December",
    }
}

/// The month test on a character vector.
pub(crate) fn starts_with_month_chars(v: &Vec<char>) -> (r: bool)
    ensures
        r == starts_with_month_spec(v@),
{
    let n = v.len();
    let mut st: usize = 0;
    while st < n
        invariant
            0 <= st <= n,
            n == v@.len(),
            forall|j: int| 0 <= j < st ==> whitespace(v@[j]),
        ensures
            0 <= st <= n,
            n == v@.len(),
            forall|j: int| 0 <= j < st ==> whitespace(v@[j]),
            st < n ==> !whitespace(v@[st as int]),
        decreases n - st,
    {
        if !is_whitespace_char(v[st]) {
            break;
        }
        st = st + 1;
    }
    proof {
        lemma_trim_start_at(v@, st as int);
    }
    let ghost t = v@.skip(st as int);
    let mut i: usize = 0;
    while i < 21
        invariant
            0 <= i <= 21,
            st <= n == v@.len(),
            t == v@.skip(st as int),
            t == trim_start_spec(v@),
            forall|j: int| 0 <= j < i ==> !month_token_at(t, month_spec(j)),
        decreases 21 - i,
    {
        let m = str_to_chars(month_str(i));
        let ml = m.len();
        if ml <= n - st {
            // prefix comparison against v at offset st
            let mut k: usize = 0;
            let mut is_prefix = true;
            while k < ml
                invariant
                    0 <= k <= ml,
                    st + ml <= n == v@.len(),
                    m@.len() == ml,
                    m@ == month_spec(i as int),
                    i < 21,
                    is_prefix ==> forall|j: int| 0 <= j < k ==> v@[st + j] == m@[j],
                    !is_prefix ==> exists|j: int| 0 <= j < ml && v@[st + j] != m@[j],
                ensures
                    0 <= k <= ml,
                    is_prefix ==> forall|j: int| 0 <= j < k ==> v@[st + j] == m@[j],
                    is_prefix ==> k == ml,
                    !is_prefix ==> exists|j: int| 0 <= j < ml && v@[st + j] != m@[j],
                decreases ml - k,
            {
                if v[st + k] != m[k] {
                    is_prefix = false;
                    proof {
                        assert(v@[st + k as int] != m@[k as int]);
                        assert(exists|j: int| 0 <= j < ml && v@[st + j] != m@[j]);
                    }
                    break;
                }
                k = k + 1;
            }
            if is_prefix {
                proof {
                    assert(t.take(ml as int) =~= m@) by {
                        assert forall|j: int| 0 <= j < ml implies t.take(ml as int)[j] == m@[j] by {
                            assert(t[j] == v@[st + j]);
                        }
                    }
                }
                if st + ml == n {
                    proof {
                        assert(month_token_at(t, month_spec(i as int)));
                    }
                    return true;
                } else {
                    let c = v[st + ml];
                    if !is_alphabetic_char(c) {
                        proof {
                            assert(t[ml as int] == v@[st + ml]);
                            assert(month_token_at(t, month_spec(i as int)));
                        }
                        return true;
                    }
                    proof {
                        assert(t[ml as int] == v@[st + ml]);
                        assert(!month_token_at(t, month_spec(i as int)));
                    }
                }
            } else {
                proof {
                    let j = choose|j: int| 0 <= j < ml && v@[st + j] != m@[j];
                    assert(t.take(ml as int)[j] == v@[st + j]);
                    assert(!month_token_at(t, month_spec(i as int)));
                }
            }
        } else {
            proof {
                assert(t.len() == n - st < ml);
                assert(!month_token_at(t, month_spec(i as int)));
            }
        }
        i = i + 1;
    }
    proof {
        assert(!starts_with_month_spec(v@));
    }
    false
}

/// Whether trimmed text begins with the byline prefix, executably.
pub(crate) fn is_byline_start(t: &Vec<char>) -> (r: bool)
    ensures
        r == (t@.len() >= by_prefix().len() && t@.take(by_prefix().len() as int) == by_prefix()),
{
    if t.len() < 3 {
        return false;
    }
    let r = t[0] == 'B' && t[1] == 'y' && t[2] == ' ';
    proof {
        if r {
            assert(t@.take(3) =~= by_prefix());
        } else {
            assert(t@.take(3)[0] == t@[0] && t@.take(3)[1] == t@[1] && t@.take(3)[2] == t@[2]);
        }
    }
    r
}

/// Whether the text, after leading whitespace, begins with a month
/// token ("May 3, 2024" does; "Mayhem ensues" does not).
pub fn starts_with_month(s: &str) -> (r: bool)
    ensures
        r == starts_with_month_spec(s@),
{
    let v = str_to_chars(s);
    starts_with_month_chars(&v)
}

/// What the locator returns: the text strictly between the end of the
/// first occurrence of `sp` at or after `from` and the start of the
/// next occurrence of `ep`, with the offset just past that occurrence.
pub open spec fn extract_between_spec(
    h: Seq<char>,
    sp: Seq<char>,
    ep: Seq<char>,
    from: int,
) -> Option<(Seq<char>, int)> {
    match first_at(h, sp, from) {
        Option::None => Option::None,
        Option::Some(si) => {
            let after = si + sp.len() as int;
            match first_at(h, ep, after) {
                Option::None => Option::None,
                Option::Some(ei) => Option::Some((h.subrange(after, ei), ei + ep.len() as int)),
            }
        },
    }
}

/// The locator on character vectors.
pub(crate) fn extract_between_chars(
    h: &Vec<char>,
    sp: &Vec<char>,
    ep: &Vec<char>,
    from: usize,
) -> (r: Option<(Vec<char>, usize)>)
    ensures
        match r {
            Option::Some(p) => extract_between_spec(h@, sp@, ep@, from as int) == Option::Some(
                (p.0@, p.1 as int),
            ) && p.1 <= h@.len(),
            Option::None => extract_between_spec(h@, sp@, ep@, from as int) is None,
        },
{
    let hn = h.len();
    match find_at(h, sp, from) {
        Option::None => Option::None,
        Option::Some(si) => {
            proof {
                lemma_first_at_some(h@, sp@, from as int, si as int);
            }
            let after = si + sp.len();
            proof {
                assert(after <= hn);
            }
            match find_at(h, ep, after) {
                Option::None => Option::None,
                Option::Some(ei) => {
                    proof {
                        lemma_first_at_some(h@, ep@, after as int, ei as int);
                    }
                    let inner = seq_slice(h, after, ei);
                    Option::Some((inner, ei + ep.len()))
                },
            }
        },
    }
}

/// The locator: the substring strictly between the first occurrence of
/// `start_pat` at or after `from` and the next occurrence of
/// `end_pat`, plus the offset just past `end_pat`; `None` when either
/// marker is absent.
pub fn extract_between(haystack: &str, start_pat: &str, end_pat: &str, from: usize) -> (r: Option<
    (String, usize),
>)
    ensures
        match r {
            Option::Some(p) => extract_between_spec(haystack@, start_pat@, end_pat@, from as int)
                == Option::Some((p.0@, p.1 as int)),
            Option::None => extract_between_spec(haystack@, start_pat@, end_pat@, from as int)
                is None,
        },
{
    let h = str_to_chars(haystack);
    let sp = str_to_chars(start_pat);
    let ep = str_to_chars(end_pat);
    match extract_between_chars(&h, &sp, &ep, from) {
        Option::None => Option::None,
        Option::Some(p) => Option::Some((chars_to_string(&p.0), p.1)),
    }
}

} // verus!
