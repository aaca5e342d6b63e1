//! The conservation laws of the transformers: a transformer only
//! wraps or rewrites existing content, so the counts of `<p`, `<h4`
//! and `<img` opening markers come through unchanged, save for the one
//! span that `strip_first_subhead` removes.

use vstd::prelude::*;
use crate::counts::{
    lemma_match_char, lemma_occ_concat, lemma_occ_delete, lemma_occ_insert, lemma_occ_zero, occ,
};
use crate::extract::extract_subhead_spec;
use crate::markup::{
    em_close, em_open, gt_mark, h4_close, h4_open, img_open, link_close, link_open_post,
    link_open_pre, p_close, p_open, strong_close, strong_open,
};
use crate::pattern::{first_at, is_match, lemma_first_at_some};
use crate::transform::{
    bold_from, format_cp_style_spec, img_src, is_byline_content, is_origin_content,
    italicize_from, linkify_from, replace_all_from, replace_date_from, strip_first_subhead_spec,
};
use crate::markup::{
    aug_abbr, aug_full, dec_abbr, dec_full, feb_abbr, feb_full, jan_abbr, jan_full, nov_abbr,
    nov_full, oct_abbr, oct_full, sept_abbr, sept_full,
};
use crate::extract::paragraph_text;
use crate::markup::date_p_open;
use crate::scan::starts_with_month_spec;

verus! {

/// The three opening markers whose counts the laws speak of.
pub open spec fn counted_pat(pat: Seq<char>) -> bool {
    pat == p_open() || pat == h4_open() || pat == img_open()
}

/// A character that occurs after the `<` in some counted marker.
pub open spec fn pat_tail_char(c: char) -> bool {
    c == 'p' || c == 'h' || c == '4' || c == 'i' || c == 'm' || c == 'g'
}

/// The shape shared by the counted markers: a `<`, then marker-tail
/// characters.
proof fn lemma_counted_pat_chars(pat: Seq<char>)
    requires
        counted_pat(pat),
    ensures
        2 <= pat.len() <= 4,
        pat[0] == '<',
        forall|k: int| 1 <= k < pat.len() ==> pat_tail_char(#[trigger] pat[k]),
{
    if pat == p_open() {
        assert forall|k: int| 1 <= k < pat.len() implies pat_tail_char(#[trigger] pat[k]) by {
            assert(pat[1] == 'p');
        }
    } else if pat == h4_open() {
        assert forall|k: int| 1 <= k < pat.len() implies pat_tail_char(#[trigger] pat[k]) by {
            if k == 1 {
                assert(pat[1] == 'h');
            } else {
                assert(pat[2] == '4');
            }
        }
    } else {
        assert forall|k: int| 1 <= k < pat.len() implies pat_tail_char(#[trigger] pat[k]) by {
            if k == 1 {
                assert(pat[1] == 'i');
            } else if k == 2 {
                assert(pat[2] == 'm');
            } else {
                assert(pat[3] == 'g');
            }
        }
    }
}

/// No counted marker covers a character that is neither `<` nor a
/// marker-tail character.
proof fn lemma_no_cover(s: Seq<char>, pat: Seq<char>, k: int)
    requires
        counted_pat(pat),
        0 <= k < s.len(),
        s[k] != '<',
        !pat_tail_char(s[k]),
    ensures
        forall|i: int| i <= k < i + pat.len() ==> !is_match(s, pat, i),
{
    lemma_counted_pat_chars(pat);
    assert forall|i: int| i <= k < i + pat.len() implies !is_match(s, pat, i) by {
        if is_match(s, pat, i) {
            lemma_match_char(s, pat, i, k);
        }
    }
}

/// No counted marker covers a `<` anywhere but at its head.
proof fn lemma_no_cover_lt(s: Seq<char>, pat: Seq<char>, k: int)
    requires
        counted_pat(pat),
        0 <= k < s.len(),
        s[k] == '<',
    ensures
        forall|i: int| i < k < i + pat.len() ==> !is_match(s, pat, i),
{
    lemma_counted_pat_chars(pat);
    assert forall|i: int| i < k < i + pat.len() implies !is_match(s, pat, i) by {
        if is_match(s, pat, i) {
            lemma_match_char(s, pat, i, k);
        }
    }
}

/// The markup the transformers inject around a span: a `<` only at the
/// head, and a head no counted marker starts with.
proof fn lemma_wrap_occ_zero(w: Seq<char>, pat: Seq<char>)
    requires
        counted_pat(pat),
        w == strong_open() || w == strong_close() || w == em_open() || w == em_close() || w
            == link_open_pre() || w == link_close(),
    ensures
        occ(w, pat) == 0,
        forall|k: int| 1 <= k < w.len() ==> #[trigger] w[k] != '<',
{
    lemma_counted_pat_chars(pat);
    assert forall|k: int| 1 <= k < w.len() implies #[trigger] w[k] != '<' by {}
    assert forall|k: int| !is_match(w, pat, k) by {
        if is_match(w, pat, k) {
            if k == 0 {
                lemma_match_char(w, pat, 0, 1);
                assert(pat_tail_char(pat[1]));
                assert(w[1] != 'p' && w[1] != 'h' && w[1] != '4' && w[1] != 'i' && w[1] != 'm'
                    && w[1] != 'g');
            } else {
                lemma_match_char(w, pat, k, k);
            }
        }
    }
    lemma_occ_zero(w, pat);
}

/// Wrapping the span `s[cs..ce]` in one of the emphasis pairs keeps
/// every counted-marker count: the span sits right after a `>` and
/// right before a `</p>`.
proof fn lemma_wrap_splice_occ(
    s: Seq<char>,
    cs: int,
    ce: int,
    wo: Seq<char>,
    wc: Seq<char>,
    pat: Seq<char>,
)
    requires
        counted_pat(pat),
        (wo == strong_open() && wc == strong_close()) || (wo == em_open() && wc == em_close()),
        1 <= cs <= ce,
        ce + 4 <= s.len(),
        s[cs - 1] == '>',
        s[ce] == '<',
        s[ce + 1] == '/',
        s[ce + 2] == 'p',
        s[ce + 3] == '>',
    ensures
        occ(s.take(cs) + wo + s.subrange(cs, ce) + wc + s.skip(ce), pat) == occ(s, pat),
{
    lemma_counted_pat_chars(pat);
    lemma_wrap_occ_zero(wo, pat);
    lemma_wrap_occ_zero(wc, pat);
    let u = s.take(ce) + wc + s.skip(ce);
    // inserting the closing markup at ce
    lemma_no_cover_lt(s, pat, ce);
    assert(u.len() == s.len() + wc.len());
    assert(u[ce] == wc[0]);
    assert(u[ce] == '<');
    lemma_no_cover_lt(u, pat, ce);
    assert forall|i: int| ce + wc.len() - pat.len() < i < ce + wc.len() implies !is_match(
        u,
        pat,
        i,
    ) by {
        if is_match(u, pat, i) {
            lemma_match_char(u, pat, i, i);
            assert(u[i] == wc[i - ce]);
            assert(u[i] != '<');
        }
    }
    lemma_occ_insert(s, ce, wc, pat);
    assert(occ(u, pat) == occ(s, pat));
    // inserting the opening markup at cs
    let s2 = u.take(cs) + wo + u.skip(cs);
    assert(u[cs - 1] == s[cs - 1]);
    lemma_no_cover(u, pat, cs - 1);
    assert(s2.len() == u.len() + wo.len());
    assert(s2[cs - 1] == u[cs - 1]);
    lemma_no_cover(s2, pat, cs - 1);
    assert forall|i: int| cs + wo.len() - pat.len() < i < cs + wo.len() implies !is_match(
        s2,
        pat,
        i,
    ) by {
        if is_match(s2, pat, i) {
            lemma_match_char(s2, pat, i, i);
            if i >= cs {
                assert(s2[i] == wo[i - cs]);
                assert(s2[i] != '<');
            } else {
                assert(s2[i] == u[i]);
                assert(i == cs - 1 || i + pat.len() <= cs - 1 || is_match(s2, pat, i));
                assert(s2[cs - 1] == '>');
                lemma_match_char(s2, pat, i, cs - 1);
            }
        }
    }
    lemma_occ_insert(u, cs, wo, pat);
    assert(occ(s2, pat) == occ(u, pat));
    assert(u.take(cs) =~= s.take(cs));
    assert(u.skip(cs) =~= s.subrange(cs, ce) + wc + s.skip(ce));
    assert(s2 =~= s.take(cs) + wo + s.subrange(cs, ce) + wc + s.skip(ce));
}

/// The byline transformer never creates or removes a counted opening
/// marker: the count of each of `<p`, `<h4` and `<img` in
/// `bold_byline`'s output equals its count in the input.
pub proof fn lemma_bold_byline_counts(s: Seq<char>, pos: int, pat: Seq<char>)
    requires
        counted_pat(pat),
    ensures
        occ(bold_from(s, pos), pat) == occ(s, pat),
    decreases s.len() - pos,
{
    match first_at(s, p_open(), pos) {
        Option::None => {},
        Option::Some(o) => {
            lemma_first_at_some(s, p_open(), pos, o);
            match first_at(s, gt_mark(), o) {
                Option::None => {
                    lemma_bold_byline_counts(s, o + p_open().len() as int, pat);
                },
                Option::Some(g) => {
                    lemma_first_at_some(s, gt_mark(), o, g);
                    let cs = g + 1;
                    match first_at(s, p_close(), cs) {
                        Option::None => {},
                        Option::Some(ce) => {
                            lemma_first_at_some(s, p_close(), cs, ce);
                            let content = s.subrange(cs, ce);
                            if is_byline_content(content) {
                                lemma_match_char(s, gt_mark(), g, g);
                                lemma_match_char(s, p_close(), ce, ce);
                                lemma_match_char(s, p_close(), ce, ce + 1);
                                lemma_match_char(s, p_close(), ce, ce + 2);
                                lemma_match_char(s, p_close(), ce, ce + 3);
                                lemma_wrap_splice_occ(
                                    s,
                                    cs,
                                    ce,
                                    strong_open(),
                                    strong_close(),
                                    pat,
                                );
                                let s2 = s.take(cs) + strong_open() + content + strong_close()
                                    + s.skip(ce);
                                lemma_bold_byline_counts(
                                    s2,
                                    cs + strong_open().len() + content.len()
                                        + strong_close().len() + p_close().len(),
                                    pat,
                                );
                            } else {
                                lemma_bold_byline_counts(s, ce + p_close().len() as int, pat);
                            }
                        },
                    }
                },
            }
        },
    }
}

/// The origin-line transformer never creates or removes a counted
/// opening marker.
pub proof fn lemma_italicize_counts(s: Seq<char>, pos: int, pat: Seq<char>)
    requires
        counted_pat(pat),
    ensures
        occ(italicize_from(s, pos), pat) == occ(s, pat),
    decreases s.len() - pos,
{
    match first_at(s, p_open(), pos) {
        Option::None => {},
        Option::Some(o) => {
            lemma_first_at_some(s, p_open(), pos, o);
            match first_at(s, gt_mark(), o) {
                Option::None => {
                    lemma_italicize_counts(s, o + p_open().len() as int, pat);
                },
                Option::Some(g) => {
                    lemma_first_at_some(s, gt_mark(), o, g);
                    let cs = g + 1;
                    match first_at(s, p_close(), cs) {
                        Option::None => {},
                        Option::Some(ce) => {
                            lemma_first_at_some(s, p_close(), cs, ce);
                            let content = s.subrange(cs, ce);
                            if is_origin_content(content) {
                                lemma_match_char(s, gt_mark(), g, g);
                                lemma_match_char(s, p_close(), ce, ce);
                                lemma_match_char(s, p_close(), ce, ce + 1);
                                lemma_match_char(s, p_close(), ce, ce + 2);
                                lemma_match_char(s, p_close(), ce, ce + 3);
                                lemma_wrap_splice_occ(s, cs, ce, em_open(), em_close(), pat);
                                let s2 = s.take(cs) + em_open() + content + em_close() + s.skip(
                                    ce,
                                );
                                lemma_italicize_counts(
                                    s2,
                                    cs + em_open().len() + content.len() + em_close().len()
                                        + p_close().len(),
                                    pat,
                                );
                            } else {
                                lemma_italicize_counts(s, ce + p_close().len() as int, pat);
                            }
                        },
                    }
                },
            }
        },
    }
}

/// A fragment containing no `<h4` marker has no subhead to extract
/// and passes through `strip_first_subhead` unchanged.
pub proof fn lemma_no_subhead_inert(h: Seq<char>)
    requires
        forall|i: int| !is_match(h, h4_open(), i),
    ensures
        extract_subhead_spec(h) is None,
        strip_first_subhead_spec(h) == h,
{
    match first_at(h, h4_open(), 0) {
        Option::None => {},
        Option::Some(i) => {
            lemma_first_at_some(h, h4_open(), 0, i);
            assert(false);
        },
    }
}

/// A fragment with no `<img` marker passes through `linkify_images`
/// unchanged, so a second application returns the first one's result.
pub proof fn lemma_linkify_no_images(s: Seq<char>)
    requires
        forall|i: int| !is_match(s, img_open(), i),
    ensures
        linkify_from(s, 0) == s,
        linkify_from(linkify_from(s, 0), 0) == linkify_from(s, 0),
{
    match first_at(s, img_open(), 0) {
        Option::None => {},
        Option::Some(i) => {
            lemma_first_at_some(s, img_open(), 0, i);
            assert(false);
        },
    }
}

/// The anchor tail the image transformer injects holds no `<` at all.
proof fn lemma_link_open_post_no_lt()
    ensures
        forall|k: int| 0 <= k < link_open_post().len() ==> #[trigger] link_open_post()[k] != '<',
{
    assert forall|k: int| 0 <= k < link_open_post().len() implies #[trigger] link_open_post()[k]
        != '<' by {}
}

/// Every image source the scan would copy into an anchor is free of
/// the counted marker: the inputs on which the image transformer
/// keeps every count.
pub open spec fn linkify_srcs_clean(s: Seq<char>, pos: int, pat: Seq<char>) -> bool
    decreases s.len() - pos,
    via linkify_srcs_clean_dec
{
    match first_at(s, img_open(), pos) {
        Option::None => true,
        Option::Some(o) => match first_at(s, gt_mark(), o) {
            Option::None => linkify_srcs_clean(s, o + img_open().len() as int, pat),
            Option::Some(g) => {
                let c = g + 1;
                let tag = s.subrange(o, c);
                match img_src(tag) {
                    Option::None => linkify_srcs_clean(s, c, pat),
                    Option::Some(url) => {
                        let rep = link_open_pre() + url + link_open_post() + tag + link_close();
                        let s2 = s.take(o) + rep + s.skip(c);
                        &&& forall|i: int| !is_match(url, pat, i)
                        &&& linkify_srcs_clean(s2, o + rep.len(), pat)
                    },
                }
            },
        },
    }
}

#[via_fn]
proof fn linkify_srcs_clean_dec(s: Seq<char>, pos: int, pat: Seq<char>) {
    if let Option::Some(o) = first_at(s, img_open(), pos) {
        lemma_first_at_some(s, img_open(), pos, o);
        if let Option::Some(g) = first_at(s, gt_mark(), o) {
            lemma_first_at_some(s, gt_mark(), o, g);
        }
    }
}

/// Wrapping the tag `s[o..c]` in an anchor that repeats its clean
/// source keeps every counted-marker count.
proof fn lemma_linkify_splice_occ(s: Seq<char>, o: int, c: int, url: Seq<char>, pat: Seq<char>)
    requires
        counted_pat(pat),
        0 <= o < c <= s.len(),
        s[o] == '<',
        s[c - 1] == '>',
        forall|i: int| !is_match(url, pat, i),
    ensures
        occ(
            s.take(o) + (link_open_pre() + url + link_open_post() + s.subrange(o, c)
                + link_close()) + s.skip(c),
            pat,
        ) == occ(s, pat),
{
    lemma_counted_pat_chars(pat);
    lemma_link_open_post_no_lt();
    let ac = link_close();
    let pre = link_open_pre();
    let post = link_open_post();
    lemma_wrap_occ_zero(ac, pat);
    lemma_wrap_occ_zero(pre, pat);
    // closing anchor at c
    let u = s.take(c) + ac + s.skip(c);
    lemma_no_cover(s, pat, c - 1);
    assert(u.len() == s.len() + ac.len());
    assert(u[c - 1] == s[c - 1]);
    lemma_no_cover(u, pat, c - 1);
    assert forall|i: int| c + ac.len() - pat.len() < i < c + ac.len() implies !is_match(
        u,
        pat,
        i,
    ) by {
        if is_match(u, pat, i) {
            lemma_match_char(u, pat, i, i);
            if i >= c {
                assert(u[i] == ac[i - c]);
                assert(u[i] != '<');
            } else {
                lemma_match_char(u, pat, i, c - 1);
            }
        }
    }
    lemma_occ_insert(s, c, ac, pat);
    assert(occ(u, pat) == occ(s, pat));
    // opening anchor with the copied source at o
    let a = pre + url + post;
    assert(a.len() == url.len() + 54);
    let s2 = u.take(o) + a + u.skip(o);
    assert(u[o] == s[o]);
    lemma_no_cover_lt(u, pat, o);
    assert(s2.len() == u.len() + a.len());
    assert(s2[o] == a[0]);
    assert(s2[o] == '<');
    lemma_no_cover_lt(s2, pat, o);
    assert forall|i: int| o + a.len() - pat.len() < i < o + a.len() implies !is_match(
        s2,
        pat,
        i,
    ) by {
        if is_match(s2, pat, i) {
            lemma_match_char(s2, pat, i, i);
            assert(s2[i] == a[i - o]);
            let k = i - o - 9 - url.len();
            assert(a[i - o] == post[k]);
            assert(42 <= k < 45);
            if k == 42 {
                assert(post[42] == 'n');
            } else if k == 43 {
                assert(post[43] == 'k');
            } else {
                assert(post[44] == '>');
            }
        }
    }
    // the inserted run holds no marker of its own
    assert forall|k: int| !is_match(post, pat, k) by {
        if is_match(post, pat, k) {
            lemma_match_char(post, pat, k, k);
        }
    }
    lemma_occ_zero(post, pat);
    lemma_occ_zero(url, pat);
    let up = url + post;
    assert forall|k: int| up.len() >= 1 && url.len() - pat.len() < k < url.len() implies
        !is_match(#[trigger] (url + post), pat, k) by {
        if is_match(url + post, pat, k) {
            assert(up[url.len() as int] == post[0]);
            assert(post[0] == '"');
            lemma_no_cover(up, pat, url.len() as int);
        }
    }
    lemma_occ_concat(url, post, pat);
    assert forall|k: int| pre.len() - pat.len() < k < pre.len() implies !is_match(
        #[trigger] (pre + (url + post)),
        pat,
        k,
    ) by {
        if is_match(pre + (url + post), pat, k) {
            lemma_match_char(pre + (url + post), pat, k, k);
            assert((pre + (url + post))[k] == pre[k]);
            if k == 6 {
                assert(pre[6] == 'f');
            } else if k == 7 {
                assert(pre[7] == '=');
            } else {
                assert(pre[8] == '"');
            }
        }
    }
    lemma_occ_concat(pre, url + post, pat);
    assert(a =~= pre + (url + post));
    assert(occ(a, pat) == 0);
    lemma_occ_insert(u, o, a, pat);
    assert(occ(s2, pat) == occ(u, pat));
    assert(u.take(o) =~= s.take(o));
    assert(u.skip(o) =~= s.subrange(o, c) + ac + s.skip(c));
    assert(s2 =~= s.take(o) + (pre + url + post + s.subrange(o, c) + ac) + s.skip(c));
}

/// The image transformer keeps every counted-marker count, as long as
/// every source it copies into an anchor is itself free of the marker.
pub proof fn lemma_linkify_counts(s: Seq<char>, pos: int, pat: Seq<char>)
    requires
        counted_pat(pat),
        linkify_srcs_clean(s, pos, pat),
    ensures
        occ(linkify_from(s, pos), pat) == occ(s, pat),
    decreases s.len() - pos,
{
    match first_at(s, img_open(), pos) {
        Option::None => {},
        Option::Some(o) => {
            lemma_first_at_some(s, img_open(), pos, o);
            match first_at(s, gt_mark(), o) {
                Option::None => {
                    lemma_linkify_counts(s, o + img_open().len() as int, pat);
                },
                Option::Some(g) => {
                    lemma_first_at_some(s, gt_mark(), o, g);
                    let c = g + 1;
                    let tag = s.subrange(o, c);
                    match img_src(tag) {
                        Option::None => {
                            lemma_linkify_counts(s, c, pat);
                        },
                        Option::Some(url) => {
                            lemma_match_char(s, img_open(), o, o);
                            lemma_match_char(s, gt_mark(), g, g);
                            lemma_linkify_splice_occ(s, o, c, url, pat);
                            let rep = link_open_pre() + url + link_open_post() + tag
                                + link_close();
                            let s2 = s.take(o) + rep + s.skip(c);
                            lemma_linkify_counts(s2, o + rep.len(), pat);
                        },
                    }
                },
            }
        },
    }
}

/// Removing the first subhead span removes exactly the counted
/// markers inside it, as long as closing the seam does not spell a
/// new marker across it.
pub proof fn lemma_strip_subhead_occ(s: Seq<char>, pat: Seq<char>)
    requires
        counted_pat(pat),
        first_at(s, h4_open(), 0) is Some,
        first_at(s, h4_close(), first_at(s, h4_open(), 0)->0) is Some,
        ({
            let st = first_at(s, h4_open(), 0)->0;
            forall|i: int| i < st < i + pat.len() ==> !is_match(strip_first_subhead_spec(s), pat, i)
        }),
    ensures
        ({
            let st = first_at(s, h4_open(), 0)->0;
            let e = first_at(s, h4_close(), st)->0;
            occ(strip_first_subhead_spec(s), pat) == occ(s, pat) - occ(
                s.subrange(st, e + h4_close().len() as int),
                pat,
            )
        }),
{
    lemma_counted_pat_chars(pat);
    let st = first_at(s, h4_open(), 0)->0;
    let e = first_at(s, h4_close(), st)->0;
    lemma_first_at_some(s, h4_open(), 0, st);
    lemma_first_at_some(s, h4_close(), st, e);
    let b = e + h4_close().len() as int;
    lemma_match_char(s, h4_open(), st, st);
    lemma_no_cover_lt(s, pat, st);
    lemma_match_char(s, h4_close(), e, e + 4);
    assert(s[b - 1] == '>');
    lemma_no_cover(s, pat, b - 1);
    assert(strip_first_subhead_spec(s) == s.take(st) + s.skip(b));
    lemma_occ_delete(s, st, b, pat);
}

/// The law `strip_first_subhead` obeys: with exactly one subhead
/// marker in the removed span and no other counted marker inside it,
/// the `<h4` count drops by one and the `<p` and `<img` counts stay.
pub proof fn lemma_strip_subhead_counts(s: Seq<char>, pat: Seq<char>)
    requires
        counted_pat(pat),
        first_at(s, h4_open(), 0) is Some,
        first_at(s, h4_close(), first_at(s, h4_open(), 0)->0) is Some,
        ({
            let st = first_at(s, h4_open(), 0)->0;
            let e = first_at(s, h4_close(), st)->0;
            occ(s.subrange(st, e + h4_close().len() as int), pat) == if pat == h4_open() {
                1nat
            } else {
                0nat
            }
        }),
        ({
            let st = first_at(s, h4_open(), 0)->0;
            forall|i: int| i < st < i + pat.len() ==> !is_match(strip_first_subhead_spec(s), pat, i)
        }),
    ensures
        occ(strip_first_subhead_spec(s), pat) == occ(s, pat) - (if pat == h4_open() {
            1nat
        } else {
            0nat
        }),
{
    lemma_strip_subhead_occ(s, pat);
}

/// The rewritten date paragraph holds exactly one `<p` marker and no
/// other counted marker, as long as the new date text is clean.
proof fn lemma_date_rep_occ(nd: Seq<char>, pat: Seq<char>)
    requires
        counted_pat(pat),
        forall|i: int| !is_match(nd, pat, i),
    ensures
        occ(date_p_open() + nd + p_close(), pat) == if pat == p_open() {
            1nat
        } else {
            0nat
        },
{
    lemma_counted_pat_chars(pat);
    let dpo = date_p_open();
    let pc = p_close();
    assert forall|k: int| 1 <= k < dpo.len() implies #[trigger] dpo[k] != '<' by {}
    // the styled opening tag holds one marker when the marker is `<p`
    assert forall|k: int| k != 0 implies !is_match(dpo, pat, k) by {
        if is_match(dpo, pat, k) {
            lemma_match_char(dpo, pat, k, k);
        }
    }
    if pat == p_open() {
        assert(dpo.subrange(0, 2) =~= p_open());
        assert(occ(dpo.drop_first(), pat) == 0) by {
            assert forall|k: int| !is_match(dpo.drop_first(), pat, k) by {
                if is_match(dpo.drop_first(), pat, k) {
                    lemma_match_char(dpo.drop_first(), pat, k, k);
                    assert(dpo.drop_first()[k] == dpo[k + 1]);
                }
            }
            lemma_occ_zero(dpo.drop_first(), pat);
        }
        assert(occ(dpo, pat) == 1);
    } else {
        assert forall|k: int| !is_match(dpo, pat, k) by {
            if is_match(dpo, pat, k) {
                if k == 0 {
                    lemma_match_char(dpo, pat, 0, 1);
                } else {
                    lemma_match_char(dpo, pat, k, k);
                }
            }
        }
        lemma_occ_zero(dpo, pat);
    }
    // the closing tag holds none
    assert forall|k: int| !is_match(pc, pat, k) by {
        if is_match(pc, pat, k) {
            if k == 0 {
                lemma_match_char(pc, pat, 0, 1);
            } else {
                lemma_match_char(pc, pat, k, k);
            }
        }
    }
    lemma_occ_zero(pc, pat);
    lemma_occ_zero(nd, pat);
    // no marker straddles the seams of the rewritten paragraph
    let ndpc = nd + pc;
    assert forall|k: int| nd.len() - pat.len() < k < nd.len() implies !is_match(
        #[trigger] (nd + pc),
        pat,
        k,
    ) by {
        if is_match(nd + pc, pat, k) {
            assert(ndpc[nd.len() as int] == pc[0]);
            lemma_no_cover_lt(ndpc, pat, nd.len() as int);
        }
    }
    lemma_occ_concat(nd, pc, pat);
    assert forall|k: int| dpo.len() - pat.len() < k < dpo.len() implies !is_match(
        #[trigger] (dpo + (nd + pc)),
        pat,
        k,
    ) by {
        if is_match(dpo + (nd + pc), pat, k) {
            lemma_match_char(dpo + (nd + pc), pat, k, k);
            assert((dpo + (nd + pc))[k] == dpo[k]);
        }
    }
    lemma_occ_concat(dpo, nd + pc, pat);
    assert(dpo + nd + pc =~= dpo + (nd + pc));
}

/// Replacing the span `s[si..next]` by the rewritten date paragraph
/// changes the count by the span's markers out and one `<p` in.
proof fn lemma_date_splice_occ(s: Seq<char>, si: int, next: int, nd: Seq<char>, pat: Seq<char>)
    requires
        counted_pat(pat),
        0 <= si,
        si + 1 < next <= s.len(),
        s[si] == '<',
        s[next - 1] == '>',
        forall|i: int| !is_match(nd, pat, i),
    ensures
        occ(s.take(si) + date_p_open() + nd + p_close() + s.skip(next), pat) == occ(s, pat) - occ(
            s.subrange(si, next),
            pat,
        ) + (if pat == p_open() {
            1nat
        } else {
            0nat
        }),
{
    lemma_counted_pat_chars(pat);
    lemma_date_rep_occ(nd, pat);
    let rep = date_p_open() + nd + p_close();
    let rl = rep.len() as int;
    assert(rep[0] == date_p_open()[0]);
    assert(rep[0] == '<');
    assert(rep[rl - 1] == p_close()[3]);
    assert(rep[rl - 1] == '>');
    // insert the rewritten paragraph at si
    let u = s.take(si) + rep + s.skip(si);
    lemma_no_cover_lt(s, pat, si);
    assert(u.len() == s.len() + rl);
    assert(u[si] == rep[0]);
    lemma_no_cover_lt(u, pat, si);
    assert forall|i: int| si + rl - pat.len() < i < si + rl implies !is_match(u, pat, i) by {
        if is_match(u, pat, i) {
            lemma_match_char(u, pat, i, i);
            assert(u[i] == rep[i - si]);
            let k = i - si - date_p_open().len() - nd.len();
            assert(rep[i - si] == p_close()[k]);
            assert(1 <= k < 4);
            if k == 1 {
                assert(p_close()[1] == '/');
            } else if k == 2 {
                assert(p_close()[2] == 'p');
            } else {
                assert(p_close()[3] == '>');
            }
        }
    }
    lemma_occ_insert(s, si, rep, pat);
    assert(occ(u, pat) == occ(s, pat) + occ(rep, pat));
    // delete the original span, which now sits right after it
    let a = si + rl;
    let b = next + rl;
    assert(u[a] == s[si]);
    lemma_no_cover_lt(u, pat, a);
    assert(u[b - 1] == s[next - 1]);
    lemma_no_cover(u, pat, b - 1);
    let out = u.take(a) + u.skip(b);
    assert(out[a - 1] == u[a - 1]);
    assert(u[a - 1] == rep[rl - 1]);
    lemma_no_cover(out, pat, a - 1);
    assert forall|i: int| i < a < i + pat.len() implies !is_match(
        #[trigger] (u.take(a) + u.skip(b)),
        pat,
        i,
    ) by {
        if is_match(u.take(a) + u.skip(b), pat, i) {
            lemma_match_char(u.take(a) + u.skip(b), pat, i, a - 1);
        }
    }
    lemma_occ_delete(u, a, b, pat);
    assert(u.subrange(a, b) =~= s.subrange(si, next));
    assert(out =~= s.take(si) + date_p_open() + nd + p_close() + s.skip(next));
}

/// The span the date rewrite replaces: the bounds of the first
/// date-shaped paragraph the scan from `pos` accepts, when one is
/// accepted within `fuel` paragraphs.
pub open spec fn replaced_date_span(s: Seq<char>, pos: int, fuel: nat) -> Option<(int, int)>
    decreases fuel,
{
    if fuel == 0 {
        Option::None
    } else {
        match first_at(s, p_open(), pos) {
            Option::None => Option::None,
            Option::Some(si) => {
                let after = si + p_open().len() as int;
                match first_at(s, p_close(), after) {
                    Option::None => Option::None,
                    Option::Some(ei) => {
                        let inner = s.subrange(after, ei);
                        let next = ei + p_close().len() as int;
                        if starts_with_month_spec(paragraph_text(inner)) {
                            Option::Some((si, next))
                        } else {
                            replaced_date_span(s, next, (fuel - 1) as nat)
                        }
                    },
                }
            },
        }
    }
}

/// The date rewrite keeps every counted-marker count except that the
/// replaced span's markers leave and the one `<p` of the styled
/// paragraph enters; a scan that accepts no paragraph changes
/// nothing. The new date text must itself be free of the marker.
pub proof fn lemma_replace_date_counts(
    s: Seq<char>,
    nd: Seq<char>,
    pos: int,
    fuel: nat,
    pat: Seq<char>,
)
    requires
        counted_pat(pat),
        forall|i: int| !is_match(nd, pat, i),
    ensures
        ({
            let out = replace_date_from(s, nd, pos, fuel);
            match replaced_date_span(s, pos, fuel) {
                Option::None => occ(out, pat) == occ(s, pat),
                Option::Some(sp) => occ(out, pat) == occ(s, pat) - occ(
                    s.subrange(sp.0, sp.1),
                    pat,
                ) + (if pat == p_open() {
                    1nat
                } else {
                    0nat
                }),
            }
        }),
    decreases fuel,
{
    if fuel > 0 {
        match first_at(s, p_open(), pos) {
            Option::None => {},
            Option::Some(si) => {
                lemma_first_at_some(s, p_open(), pos, si);
                let after = si + p_open().len() as int;
                match first_at(s, p_close(), after) {
                    Option::None => {},
                    Option::Some(ei) => {
                        lemma_first_at_some(s, p_close(), after, ei);
                        let inner = s.subrange(after, ei);
                        let next = ei + p_close().len() as int;
                        if starts_with_month_spec(paragraph_text(inner)) {
                            lemma_match_char(s, p_open(), si, si);
                            lemma_match_char(s, p_close(), ei, ei + 3);
                            lemma_date_splice_occ(s, si, next, nd, pat);
                        } else {
                            lemma_replace_date_counts(s, nd, next, (fuel - 1) as nat, pat);
                        }
                    },
                }
            },
        }
    }
}

/// A month rewrite of the newspaper-style pass: a full name and its
/// abbreviated form.
pub open spec fn month_pair(from: Seq<char>, to: Seq<char>) -> bool {
    ||| from == jan_full() && to == jan_abbr()
    ||| from == feb_full() && to == feb_abbr()
    ||| from == aug_full() && to == aug_abbr()
    ||| from == sept_full() && to == sept_abbr()
    ||| from == oct_full() && to == oct_abbr()
    ||| from == nov_full() && to == nov_abbr()
    ||| from == dec_full() && to == dec_abbr()
}

/// Month names and their abbreviations hold no `<`, and neither their
/// first nor their last character continues a counted marker.
proof fn lemma_month_pair_chars(from: Seq<char>, to: Seq<char>)
    requires
        month_pair(from, to),
    ensures
        4 <= from.len(),
        4 <= to.len(),
        forall|k: int| 0 <= k < from.len() ==> #[trigger] from[k] != '<',
        forall|k: int| 0 <= k < to.len() ==> #[trigger] to[k] != '<',
        !pat_tail_char(from[0]),
        !pat_tail_char(from[from.len() - 1]),
        !pat_tail_char(to[0]),
        !pat_tail_char(to[to.len() - 1]),
{
    assert forall|k: int| 0 <= k < from.len() implies #[trigger] from[k] != '<' by {}
    assert forall|k: int| 0 <= k < to.len() implies #[trigger] to[k] != '<' by {}
}

/// Rewriting one month name throughout keeps every counted-marker
/// count: the name holds no marker, and no marker can straddle either
/// end of the name or of its replacement.
proof fn lemma_replace_month_occ(
    s: Seq<char>,
    from: Seq<char>,
    to: Seq<char>,
    pos: int,
    pat: Seq<char>,
)
    requires
        counted_pat(pat),
        month_pair(from, to),
        0 <= pos,
    ensures
        occ(replace_all_from(s, from, to, pos), pat) == occ(s.skip(pos), pat),
    decreases s.len() - pos,
{
    lemma_counted_pat_chars(pat);
    lemma_month_pair_chars(from, to);
    match first_at(s, from, pos) {
        Option::None => {},
        Option::Some(i) => {
            lemma_first_at_some(s, from, pos, i);
            let flen = from.len() as int;
            lemma_replace_month_occ(s, from, to, i + flen, pat);
            let r = replace_all_from(s, from, to, i + flen);
            let pre = s.subrange(pos, i);
            let span = s.subrange(i, i + flen);
            let tail = s.skip(i + flen);
            assert(span =~= from);
            // the original suffix splits around the found name
            assert forall|k: int| span.len() - pat.len() < k < span.len() implies !is_match(
                #[trigger] (span + tail),
                pat,
                k,
            ) by {
                if is_match(span + tail, pat, k) {
                    assert((span + tail)[flen - 1] == from[flen - 1]);
                    lemma_no_cover(span + tail, pat, flen - 1);
                }
            }
            lemma_occ_concat(span, tail, pat);
            assert forall|k: int| pre.len() - pat.len() < k < pre.len() implies !is_match(
                #[trigger] (pre + (span + tail)),
                pat,
                k,
            ) by {
                if is_match(pre + (span + tail), pat, k) {
                    assert((pre + (span + tail))[i - pos] == from[0]);
                    lemma_no_cover(pre + (span + tail), pat, i - pos);
                }
            }
            lemma_occ_concat(pre, span + tail, pat);
            assert(pre + (span + tail) =~= s.skip(pos));
            // the name itself holds no marker
            assert forall|k: int| !is_match(from, pat, k) by {
                if is_match(from, pat, k) {
                    lemma_match_char(from, pat, k, k);
                }
            }
            lemma_occ_zero(from, pat);
            assert(occ(span, pat) == 0);
            // the result splits around the substituted form
            assert forall|k: int| !is_match(to, pat, k) by {
                if is_match(to, pat, k) {
                    lemma_match_char(to, pat, k, k);
                }
            }
            lemma_occ_zero(to, pat);
            assert forall|k: int| to.len() - pat.len() < k < to.len() implies !is_match(
                #[trigger] (to + r),
                pat,
                k,
            ) by {
                if is_match(to + r, pat, k) {
                    assert((to + r)[to.len() - 1] == to[to.len() - 1]);
                    lemma_no_cover(to + r, pat, to.len() - 1);
                }
            }
            lemma_occ_concat(to, r, pat);
            assert forall|k: int| pre.len() - pat.len() < k < pre.len() implies !is_match(
                #[trigger] (pre + (to + r)),
                pat,
                k,
            ) by {
                if is_match(pre + (to + r), pat, k) {
                    assert((pre + (to + r))[i - pos] == to[0]);
                    lemma_no_cover(pre + (to + r), pat, i - pos);
                }
            }
            lemma_occ_concat(pre, to + r, pat);
            assert(pre + to + r =~= pre + (to + r));
        },
    }
}

/// The newspaper-style date pass keeps every counted-marker count: it
/// only exchanges month names, which no marker can touch.
pub proof fn lemma_format_cp_counts(s: Seq<char>, pat: Seq<char>)
    requires
        counted_pat(pat),
    ensures
        occ(format_cp_style_spec(s), pat) == occ(s, pat),
{
    let s1 = replace_all_from(s, jan_full(), jan_abbr(), 0);
    let s2 = replace_all_from(s1, feb_full(), feb_abbr(), 0);
    let s3 = replace_all_from(s2, aug_full(), aug_abbr(), 0);
    let s4 = replace_all_from(s3, sept_full(), sept_abbr(), 0);
    let s5 = replace_all_from(s4, oct_full(), oct_abbr(), 0);
    let s6 = replace_all_from(s5, nov_full(), nov_abbr(), 0);
    lemma_replace_month_occ(s, jan_full(), jan_abbr(), 0, pat);
    assert(s.skip(0) =~= s);
    lemma_replace_month_occ(s1, feb_full(), feb_abbr(), 0, pat);
    assert(s1.skip(0) =~= s1);
    lemma_replace_month_occ(s2, aug_full(), aug_abbr(), 0, pat);
    assert(s2.skip(0) =~= s2);
    lemma_replace_month_occ(s3, sept_full(), sept_abbr(), 0, pat);
    assert(s3.skip(0) =~= s3);
    lemma_replace_month_occ(s4, oct_full(), oct_abbr(), 0, pat);
    assert(s4.skip(0) =~= s4);
    lemma_replace_month_occ(s5, nov_full(), nov_abbr(), 0, pat);
    assert(s5.skip(0) =~= s5);
    lemma_replace_month_occ(s6, dec_full(), dec_abbr(), 0, pat);
    assert(s6.skip(0) =~= s6);
}

} // verus!
