//! The rewriting transformers. Each takes a fragment, performs one
//! left-to-right scan with a moving cursor, splices replacement text
//! over the targeted spans, and leaves everything else unchanged.

use vstd::prelude::*;
use crate::extract::{after_subhead, paragraph_text};
use crate::markup::{
    by_prefix, date_p_open, date_p_open_chars, em_close, em_close_chars, em_open, em_open_chars,
    gt_mark, gt_mark_chars, h4_close, h4_close_chars, h4_open, h4_open_chars, img_open,
    img_open_chars, link_close, link_close_chars, link_open_post, link_open_post_chars,
    link_open_pre, link_open_pre_chars, origin_phrase, origin_phrase_chars, p_close,
    p_close_chars, p_open, p_open_chars, quote_mark, quote_mark_chars, src_marker,
    src_marker_chars, strong_close, strong_close_chars, strong_open, strong_open_chars, jan_full,
    jan_full_chars, jan_abbr, jan_abbr_chars, feb_full, feb_full_chars, feb_abbr, feb_abbr_chars,
    aug_full, aug_full_chars, aug_abbr, aug_abbr_chars, sept_full, sept_full_chars, sept_abbr,
    sept_abbr_chars, oct_full, oct_full_chars, oct_abbr, oct_abbr_chars, nov_full, nov_full_chars,
    nov_abbr, nov_abbr_chars, dec_full, dec_full_chars, dec_abbr, dec_abbr_chars,
};
use crate::pattern::{find_at, first_at, lemma_first_at_some};
use crate::scan::{
    is_byline_start, starts_with_month_chars, starts_with_month_spec, trim_chars, trim_spec,
};
use crate::strings::{
    append_slice, append_vec, chars_to_string, lower_of, lowercase_chars, seq_slice, str_to_chars,
};

verus! {

/// Whether a paragraph's inner span is a byline: its trimmed text
/// starts with the byline prefix and the span is shorter than 100
/// characters.
pub open spec fn is_byline_content(content: Seq<char>) -> bool {
    let t = trim_spec(content);
    &&& t.len() >= by_prefix().len()
    &&& t.take(by_prefix().len() as int) == by_prefix()
    &&& content.len() < 100
}

/// What `bold_byline` produces from the cursor position `pos` on:
/// each paragraph whose inner span is a byline has that span wrapped
/// in emphasis markup, and the cursor then skips past the rewritten
/// paragraph.
pub open spec fn bold_from(s: Seq<char>, pos: int) -> Seq<char>
    decreases s.len() - pos,
    via bold_from_dec
{
    match first_at(s, p_open(), pos) {
        Option::None => s,
        Option::Some(o) => match first_at(s, gt_mark(), o) {
            Option::None => bold_from(s, o + p_open().len() as int),
            Option::Some(g) => {
                let cs = g + 1;
                match first_at(s, p_close(), cs) {
                    Option::None => s,
                    Option::Some(ce) => {
                        let content = s.subrange(cs, ce);
                        if is_byline_content(content) {
                            let s2 = s.take(cs) + strong_open() + content + strong_close()
                                + s.skip(ce);
                            bold_from(
                                s2,
                                cs + strong_open().len() + content.len() + strong_close().len()
                                    + p_close().len(),
                            )
                        } else {
                            bold_from(s, ce + p_close().len() as int)
                        }
                    },
                }
            },
        },
    }
}

#[via_fn]
proof fn bold_from_dec(s: Seq<char>, pos: int) {
    if let Option::Some(o) = first_at(s, p_open(), pos) {
        lemma_first_at_some(s, p_open(), pos, o);
        match first_at(s, gt_mark(), o) {
            Option::Some(g) => {
                lemma_first_at_some(s, gt_mark(), o, g);
                if let Option::Some(ce) = first_at(s, p_close(), g + 1) {
                    lemma_first_at_some(s, p_close(), g + 1, ce);
                }
            },
            Option::None => {},
        }
    }
}

/// Whether a paragraph's inner span is a syndication notice: its
/// lowercasing contains the origin phrase.
pub open spec fn is_origin_content(content: Seq<char>) -> bool {
    first_at(lower_of(content), origin_phrase(), 0) is Some
}

/// What `italicize_origin_line` produces from `pos` on: each
/// paragraph whose inner span holds the origin phrase
/// (case-insensitively) has that span wrapped in italic markup.
pub open spec fn italicize_from(s: Seq<char>, pos: int) -> Seq<char>
    decreases s.len() - pos,
    via italicize_from_dec
{
    match first_at(s, p_open(), pos) {
        Option::None => s,
        Option::Some(o) => match first_at(s, gt_mark(), o) {
            Option::None => italicize_from(s, o + p_open().len() as int),
            Option::Some(g) => {
                let cs = g + 1;
                match first_at(s, p_close(), cs) {
                    Option::None => s,
                    Option::Some(ce) => {
                        let content = s.subrange(cs, ce);
                        if is_origin_content(content) {
                            let s2 = s.take(cs) + em_open() + content + em_close() + s.skip(ce);
                            italicize_from(
                                s2,
                                cs + em_open().len() + content.len() + em_close().len()
                                    + p_close().len(),
                            )
                        } else {
                            italicize_from(s, ce + p_close().len() as int)
                        }
                    },
                }
            },
        },
    }
}

#[via_fn]
proof fn italicize_from_dec(s: Seq<char>, pos: int) {
    if let Option::Some(o) = first_at(s, p_open(), pos) {
        lemma_first_at_some(s, p_open(), pos, o);
        match first_at(s, gt_mark(), o) {
            Option::Some(g) => {
                lemma_first_at_some(s, gt_mark(), o, g);
                if let Option::Some(ce) = first_at(s, p_close(), g + 1) {
                    lemma_first_at_some(s, p_close(), g + 1, ce);
                }
            },
            Option::None => {},
        }
    }
}

/// The value of the first `src="..."` attribute inside a located
/// image tag, when there is one.
pub open spec fn img_src(tag: Seq<char>) -> Option<Seq<char>> {
    match first_at(tag, src_marker(), 0) {
        Option::None => Option::None,
        Option::Some(sr) => {
            let a = sr + src_marker().len() as int;
            match first_at(tag, quote_mark(), a) {
                Option::None => Option::None,
                Option::Some(se) => Option::Some(tag.subrange(a, se)),
            }
        },
    }
}

/// What `linkify_images` produces from `pos` on: each self-contained
/// image tag with a source attribute is wrapped in an anchor pointing
/// at that same source, opening in a new browsing context.
pub open spec fn linkify_from(s: Seq<char>, pos: int) -> Seq<char>
    decreases s.len() - pos,
    via linkify_from_dec
{
    match first_at(s, img_open(), pos) {
        Option::None => s,
        Option::Some(o) => match first_at(s, gt_mark(), o) {
            Option::None => linkify_from(s, o + img_open().len() as int),
            Option::Some(g) => {
                let c = g + 1;
                let tag = s.subrange(o, c);
                match img_src(tag) {
                    Option::None => linkify_from(s, c),
                    Option::Some(url) => {
                        let rep = link_open_pre() + url + link_open_post() + tag + link_close();
                        let s2 = s.take(o) + rep + s.skip(c);
                        linkify_from(s2, o + rep.len())
                    },
                }
            },
        },
    }
}

#[via_fn]
proof fn linkify_from_dec(s: Seq<char>, pos: int) {
    if let Option::Some(o) = first_at(s, img_open(), pos) {
        lemma_first_at_some(s, img_open(), pos, o);
        if let Option::Some(g) = first_at(s, gt_mark(), o) {
            lemma_first_at_some(s, gt_mark(), o, g);
        }
    }
}

/// What `strip_first_subhead` produces: the fragment with the span
/// from the first `<h4` through its `</h4>` removed, or the fragment
/// unchanged when either marker is missing.
pub open spec fn strip_first_subhead_spec(s: Seq<char>) -> Seq<char> {
    match first_at(s, h4_open(), 0) {
        Option::None => s,
        Option::Some(st) => match first_at(s, h4_close(), st) {
            Option::None => s,
            Option::Some(e) => s.take(st) + s.skip(e + h4_close().len() as int),
        },
    }
}

/// What `replace_date_paragraph` produces from `pos` with `fuel`
/// paragraphs left to inspect: the first date-shaped paragraph is
/// replaced whole by a styled paragraph holding `nd`.
pub open spec fn replace_date_from(s: Seq<char>, nd: Seq<char>, pos: int, fuel: nat) -> Seq<char>
    decreases fuel,
{
    if fuel == 0 {
        s
    } else {
        match first_at(s, p_open(), pos) {
            Option::None => s,
            Option::Some(si) => {
                let after = si + p_open().len() as int;
                match first_at(s, p_close(), after) {
                    Option::None => s,
                    Option::Some(ei) => {
                        let inner = s.subrange(after, ei);
                        let next = ei + p_close().len() as int;
                        if starts_with_month_spec(paragraph_text(inner)) {
                            s.take(si) + date_p_open() + nd + p_close() + s.skip(next)
                        } else {
                            replace_date_from(s, nd, next, (fuel - 1) as nat)
                        }
                    },
                }
            },
        }
    }
}

/// What `replace_date_paragraph` returns: the scan starts after the
/// subhead and inspects at most five paragraphs.
pub open spec fn replace_date_paragraph_spec(s: Seq<char>, nd: Seq<char>) -> Seq<char> {
    replace_date_from(s, nd, after_subhead(s), 5)
}

/// Every occurrence of `from` (nonempty, found left to right, not
/// rescanning replacements) rewritten to `to`, from position `pos` on;
/// the prefix before `pos` is not part of the result.
pub open spec fn replace_all_from(s: Seq<char>, from: Seq<char>, to: Seq<char>, pos: int) -> Seq<
    char,
>
    decreases s.len() - pos,
    via replace_all_from_dec
{
    if from.len() == 0 {
        s.skip(pos)
    } else {
        match first_at(s, from, pos) {
            Option::None => s.skip(pos),
            Option::Some(i) => s.subrange(pos, i) + to + replace_all_from(
                s,
                from,
                to,
                i + from.len(),
            ),
        }
    }
}

#[via_fn]
proof fn replace_all_from_dec(s: Seq<char>, from: Seq<char>, to: Seq<char>, pos: int) {
    if from.len() > 0 {
        if let Option::Some(i) = first_at(s, from, pos) {
            lemma_first_at_some(s, from, pos, i);
        }
    }
}

/// What `format_cp_style` returns: the seven full month names that
/// newspaper style abbreviates, each rewritten throughout; March,
/// April, May, June and July stay as they are.
pub open spec fn format_cp_style_spec(s: Seq<char>) -> Seq<char> {
    let s1 = replace_all_from(s, jan_full(), jan_abbr(), 0);
    let s2 = replace_all_from(s1, feb_full(), feb_abbr(), 0);
    let s3 = replace_all_from(s2, aug_full(), aug_abbr(), 0);
    let s4 = replace_all_from(s3, sept_full(), sept_abbr(), 0);
    let s5 = replace_all_from(s4, oct_full(), oct_abbr(), 0);
    let s6 = replace_all_from(s5, nov_full(), nov_abbr(), 0);
    replace_all_from(s6, dec_full(), dec_abbr(), 0)
}

/// The byline transformer on a character vector.
pub(crate) fn bold_byline_chars(v: &Vec<char>) -> (r: Vec<char>)
    ensures
        r@ == bold_from(v@, 0),
{
    let po = p_open_chars();
    let pc = p_close_chars();
    let g = gt_mark_chars();
    let so = strong_open_chars();
    let sc = strong_close_chars();
    let vn = v.len();
    let mut out = seq_slice(v, 0, vn);
    let mut pos: usize = 0;
    proof {
        assert(v@.subrange(0, vn as int) =~= v@);
    }
    loop
        invariant
            pos <= out@.len(),
            po@ == p_open(),
            pc@ == p_close(),
            g@ == gt_mark(),
            so@ == strong_open(),
            sc@ == strong_close(),
            bold_from(v@, 0) == bold_from(out@, pos as int),
        decreases out@.len() - pos,
    {
        let ol = out.len();
        match find_at(&out, &po, pos) {
            Option::None => {
                return out;
            },
            Option::Some(o) => {
                proof {
                    lemma_first_at_some(out@, po@, pos as int, o as int);
                }
                match find_at(&out, &g, o) {
                    Option::None => {
                        pos = o + 2;
                    },
                    Option::Some(gt) => {
                        proof {
                            lemma_first_at_some(out@, g@, o as int, gt as int);
                        }
                        let cs = gt + 1;
                        match find_at(&out, &pc, cs) {
                            Option::None => {
                                return out;
                            },
                            Option::Some(ce) => {
                                proof {
                                    lemma_first_at_some(out@, pc@, cs as int, ce as int);
                                }
                                let content = seq_slice(&out, cs, ce);
                                let t = trim_chars(&content);
                                let byl = is_byline_start(&t);
                                if byl && content.len() < 100 {
                                    let mut nout = seq_slice(&out, 0, cs);
                                    append_vec(&mut nout, &so);
                                    append_vec(&mut nout, &content);
                                    append_vec(&mut nout, &sc);
                                    append_slice(&mut nout, &out, ce, ol);
                                    let nl = nout.len();
                                    proof {
                                        assert(out@.subrange(0, cs as int) =~= out@.take(
                                            cs as int,
                                        ));
                                        assert(out@.subrange(ce as int, ol as int) =~= out@.skip(
                                            ce as int,
                                        ));
                                        assert(nout@ =~= out@.take(cs as int) + strong_open()
                                            + out@.subrange(cs as int, ce as int) + strong_close()
                                            + out@.skip(ce as int));
                                    }
                                    let newpos = cs + so.len() + content.len() + sc.len()
                                        + pc.len();
                                    out = nout;
                                    pos = newpos;
                                } else {
                                    pos = ce + pc.len();
                                }
                            },
                        }
                    },
                }
            },
        }
    }
}

/// For each paragraph whose trimmed inner text starts with the byline
/// prefix and whose span is shorter than 100 characters, wraps the
/// span in emphasis markup; every other character is kept as it is.
pub fn bold_byline(html: &str) -> (r: String)
    ensures
        r@ == bold_from(html@, 0),
{
    let v = str_to_chars(html);
    let out = bold_byline_chars(&v);
    chars_to_string(&out)
}

/// The origin-line transformer on a character vector.
pub(crate) fn italicize_origin_line_chars(v: &Vec<char>) -> (r: Vec<char>)
    ensures
        r@ == italicize_from(v@, 0),
{
    let po = p_open_chars();
    let pc = p_close_chars();
    let g = gt_mark_chars();
    let eo = em_open_chars();
    let ec = em_close_chars();
    let ph = origin_phrase_chars();
    let vn = v.len();
    let mut out = seq_slice(v, 0, vn);
    let mut pos: usize = 0;
    proof {
        assert(v@.subrange(0, vn as int) =~= v@);
    }
    loop
        invariant
            pos <= out@.len(),
            po@ == p_open(),
            pc@ == p_close(),
            g@ == gt_mark(),
            eo@ == em_open(),
            ec@ == em_close(),
            ph@ == origin_phrase(),
            italicize_from(v@, 0) == italicize_from(out@, pos as int),
        decreases out@.len() - pos,
    {
        let ol = out.len();
        match find_at(&out, &po, pos) {
            Option::None => {
                return out;
            },
            Option::Some(o) => {
                proof {
                    lemma_first_at_some(out@, po@, pos as int, o as int);
                }
                match find_at(&out, &g, o) {
                    Option::None => {
                        pos = o + 2;
                    },
                    Option::Some(gt) => {
                        proof {
                            lemma_first_at_some(out@, g@, o as int, gt as int);
                        }
                        let cs = gt + 1;
                        match find_at(&out, &pc, cs) {
                            Option::None => {
                                return out;
                            },
                            Option::Some(ce) => {
                                proof {
                                    lemma_first_at_some(out@, pc@, cs as int, ce as int);
                                }
                                let content = seq_slice(&out, cs, ce);
                                let lowered = lowercase_chars(&content);
                                let found = match find_at(&lowered, &ph, 0) {
                                    Option::Some(_) => true,
                                    Option::None => false,
                                };
                                if found {
                                    let mut nout = seq_slice(&out, 0, cs);
                                    append_vec(&mut nout, &eo);
                                    append_vec(&mut nout, &content);
                                    append_vec(&mut nout, &ec);
                                    append_slice(&mut nout, &out, ce, ol);
                                    let nl = nout.len();
                                    proof {
                                        assert(out@.subrange(0, cs as int) =~= out@.take(
                                            cs as int,
                                        ));
                                        assert(out@.subrange(ce as int, ol as int) =~= out@.skip(
                                            ce as int,
                                        ));
                                        assert(nout@ =~= out@.take(cs as int) + em_open()
                                            + out@.subrange(cs as int, ce as int) + em_close()
                                            + out@.skip(ce as int));
                                    }
                                    let newpos = cs + eo.len() + content.len() + ec.len()
                                        + pc.len();
                                    out = nout;
                                    pos = newpos;
                                } else {
                                    pos = ce + pc.len();
                                }
                            },
                        }
                    },
                }
            },
        }
    }
}

/// For each paragraph whose inner text contains the syndication
/// phrase, case-insensitively, wraps the span in italic markup; every
/// other character is kept as it is.
pub fn italicize_origin_line(html: &str) -> (r: String)
    ensures
        r@ == italicize_from(html@, 0),
{
    let v = str_to_chars(html);
    let out = italicize_origin_line_chars(&v);
    chars_to_string(&out)
}

/// The image transformer on a character vector.
pub(crate) fn linkify_images_chars(v: &Vec<char>) -> (r: Vec<char>)
    ensures
        r@ == linkify_from(v@, 0),
{
    let im = img_open_chars();
    let g = gt_mark_chars();
    let sm = src_marker_chars();
    let q = quote_mark_chars();
    let lp = link_open_pre_chars();
    let lo = link_open_post_chars();
    let lc = link_close_chars();
    let vn = v.len();
    let mut out = seq_slice(v, 0, vn);
    let mut pos: usize = 0;
    proof {
        assert(v@.subrange(0, vn as int) =~= v@);
    }
    loop
        invariant
            pos <= out@.len(),
            im@ == img_open(),
            g@ == gt_mark(),
            sm@ == src_marker(),
            q@ == quote_mark(),
            lp@ == link_open_pre(),
            lo@ == link_open_post(),
            lc@ == link_close(),
            linkify_from(v@, 0) == linkify_from(out@, pos as int),
        decreases out@.len() - pos,
    {
        let ol = out.len();
        match find_at(&out, &im, pos) {
            Option::None => {
                return out;
            },
            Option::Some(o) => {
                proof {
                    lemma_first_at_some(out@, im@, pos as int, o as int);
                }
                match find_at(&out, &g, o) {
                    Option::None => {
                        pos = o + 4;
                    },
                    Option::Some(gt) => {
                        proof {
                            lemma_first_at_some(out@, g@, o as int, gt as int);
                        }
                        let c = gt + 1;
                        let tag = seq_slice(&out, o, c);
                        let tl = tag.len();
                        let src = match find_at(&tag, &sm, 0) {
                            Option::None => Option::None,
                            Option::Some(sr) => {
                                proof {
                                    lemma_first_at_some(tag@, sm@, 0, sr as int);
                                }
                                let a = sr + sm.len();
                                match find_at(&tag, &q, a) {
                                    Option::None => Option::None,
                                    Option::Some(se) => {
                                        proof {
                                            lemma_first_at_some(tag@, q@, a as int, se as int);
                                        }
                                        Option::Some(seq_slice(&tag, a, se))
                                    },
                                }
                            },
                        };
                        match src {
                            Option::None => {
                                pos = c;
                            },
                            Option::Some(url) => {
                                let mut nout = seq_slice(&out, 0, o);
                                append_vec(&mut nout, &lp);
                                append_vec(&mut nout, &url);
                                append_vec(&mut nout, &lo);
                                append_vec(&mut nout, &tag);
                                append_vec(&mut nout, &lc);
                                append_slice(&mut nout, &out, c, ol);
                                let nl = nout.len();
                                proof {
                                    assert(out@.subrange(0, o as int) =~= out@.take(o as int));
                                    assert(out@.subrange(c as int, ol as int) =~= out@.skip(
                                        c as int,
                                    ));
                                    assert(nout@ =~= out@.take(o as int) + (link_open_pre() + url@
                                        + link_open_post() + tag@ + link_close()) + out@.skip(
                                        c as int,
                                    ));
                                }
                                let newpos = o + lp.len() + url.len() + lo.len() + tl + lc.len();
                                out = nout;
                                pos = newpos;
                            },
                        }
                    },
                }
            },
        }
    }
}

/// For each self-contained image tag holding a source attribute,
/// wraps the whole tag in an anchor pointing at the same source,
/// opening in a new browsing context; tags without a source are left
/// untouched.
pub fn linkify_images(html: &str) -> (r: String)
    ensures
        r@ == linkify_from(html@, 0),
{
    let v = str_to_chars(html);
    let out = linkify_images_chars(&v);
    chars_to_string(&out)
}

/// Removes the literal span from the first `<h4` through its matching
/// `</h4>` (inclusive); a fragment with no subhead is returned
/// unchanged.
pub fn strip_first_subhead(html: &str) -> (r: String)
    ensures
        r@ == strip_first_subhead_spec(html@),
{
    let v = str_to_chars(html);
    let hn = v.len();
    let h4o = h4_open_chars();
    let h4c = h4_close_chars();
    match find_at(&v, &h4o, 0) {
        Option::None => chars_to_string(&v),
        Option::Some(st) => {
            proof {
                lemma_first_at_some(v@, h4o@, 0, st as int);
            }
            match find_at(&v, &h4c, st) {
                Option::None => chars_to_string(&v),
                Option::Some(e) => {
                    proof {
                        lemma_first_at_some(v@, h4c@, st as int, e as int);
                    }
                    let mut nout = seq_slice(&v, 0, st);
                    append_slice(&mut nout, &v, e + h4c.len(), hn);
                    proof {
                        assert(v@.subrange(0, st as int) =~= v@.take(st as int));
                        assert(v@.subrange(e + h4_close().len(), hn as int) =~= v@.skip(
                            e + h4_close().len(),
                        ));
                    }
                    chars_to_string(&nout)
                },
            }
        },
    }
}

/// Replaces the first date-shaped paragraph after the subhead (among
/// at most five inspected) by a styled paragraph holding `new_date`;
/// a fragment with no date paragraph is returned unchanged.
pub fn replace_date_paragraph(html: &str, new_date: &str) -> (r: String)
    ensures
        r@ == replace_date_paragraph_spec(html@, new_date@),
{
    let v = str_to_chars(html);
    let nd = str_to_chars(new_date);
    let hn = v.len();
    let po = p_open_chars();
    let pc = p_close_chars();
    let dp = date_p_open_chars();
    let mut pos: usize = crate::extract::after_subhead_pos(&v);
    let mut fuel: usize = 5;
    while fuel > 0
        invariant
            pos <= hn == v@.len(),
            v@ == html@,
            nd@ == new_date@,
            po@ == p_open(),
            pc@ == p_close(),
            dp@ == date_p_open(),
            fuel <= 5,
            replace_date_paragraph_spec(html@, new_date@) == replace_date_from(
                v@,
                nd@,
                pos as int,
                fuel as nat,
            ),
        ensures
            fuel == 0,
            replace_date_paragraph_spec(html@, new_date@) == replace_date_from(
                v@,
                nd@,
                pos as int,
                fuel as nat,
            ),
        decreases fuel,
    {
        match find_at(&v, &po, pos) {
            Option::None => {
                return chars_to_string(&v);
            },
            Option::Some(si) => {
                proof {
                    lemma_first_at_some(v@, po@, pos as int, si as int);
                }
                let after = si + po.len();
                match find_at(&v, &pc, after) {
                    Option::None => {
                        return chars_to_string(&v);
                    },
                    Option::Some(ei) => {
                        proof {
                            lemma_first_at_some(v@, pc@, after as int, ei as int);
                        }
                        let inner = seq_slice(&v, after, ei);
                        let next = ei + pc.len();
                        let text = crate::extract::paragraph_text_chars(&inner);
                        if starts_with_month_chars(&text) {
                            let mut nout = seq_slice(&v, 0, si);
                            append_vec(&mut nout, &dp);
                            append_vec(&mut nout, &nd);
                            append_vec(&mut nout, &pc);
                            append_slice(&mut nout, &v, next, hn);
                            proof {
                                assert(v@.subrange(0, si as int) =~= v@.take(si as int));
                                assert(v@.subrange(next as int, hn as int) =~= v@.skip(
                                    next as int,
                                ));
                            }
                            return chars_to_string(&nout);
                        }
                        pos = next;
                        fuel = fuel - 1;
                    },
                }
            },
        }
    }
    chars_to_string(&v)
}

/// One rewriting pass: every occurrence of `from` in `v`, found left
/// to right without rescanning replacements, becomes `to`.
fn replace_all_chars(v: &Vec<char>, from: &Vec<char>, to: &Vec<char>) -> (r: Vec<char>)
    requires
        from@.len() >= 1,
    ensures
        r@ == replace_all_from(v@, from@, to@, 0),
{
    let n = v.len();
    let mut out: Vec<char> = Vec::new();
    let mut i: usize = 0;
    proof {
        assert(Seq::<char>::empty() + replace_all_from(v@, from@, to@, 0) =~= replace_all_from(
            v@,
            from@,
            to@,
            0,
        ));
    }
    loop
        invariant
            i <= n == v@.len(),
            from@.len() >= 1,
            replace_all_from(v@, from@, to@, 0) == out@ + replace_all_from(
                v@,
                from@,
                to@,
                i as int,
            ),
        decreases n - i,
    {
        match find_at(v, from, i) {
            Option::None => {
                append_slice(&mut out, v, i, n);
                proof {
                    assert(v@.subrange(i as int, n as int) =~= v@.skip(i as int));
                }
                return out;
            },
            Option::Some(m) => {
                proof {
                    lemma_first_at_some(v@, from@, i as int, m as int);
                }
                append_slice(&mut out, v, i, m);
                append_vec(&mut out, to);
                proof {
                    assert(out@ + replace_all_from(v@, from@, to@, m + from@.len()) =~= out@.take(
                        out@.len() - to@.len() - (m - i),
                    ) + (v@.subrange(i as int, m as int) + to@ + replace_all_from(
                        v@,
                        from@,
                        to@,
                        m + from@.len(),
                    )));
                }
                i = m + from.len();
            },
        }
    }
}

/// Rewrites the seven abbreviated month names to their newspaper-style
/// forms; March, April, May, June and July are deliberately left
/// unabbreviated.
pub fn format_cp_style(date: &str) -> (r: String)
    ensures
        r@ == format_cp_style_spec(date@),
{
    let v = str_to_chars(date);
    let s1 = replace_all_chars(&v, &jan_full_chars(), &jan_abbr_chars());
    let s2 = replace_all_chars(&s1, &feb_full_chars(), &feb_abbr_chars());
    let s3 = replace_all_chars(&s2, &aug_full_chars(), &aug_abbr_chars());
    let s4 = replace_all_chars(&s3, &sept_full_chars(), &sept_abbr_chars());
    let s5 = replace_all_chars(&s4, &oct_full_chars(), &oct_abbr_chars());
    let s6 = replace_all_chars(&s5, &nov_full_chars(), &nov_abbr_chars());
    let s7 = replace_all_chars(&s6, &dec_full_chars(), &dec_abbr_chars());
    chars_to_string(&s7)
}

} // verus!
