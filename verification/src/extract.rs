//! The read-only extractors: subhead text, the first date-shaped
//! paragraph after the subhead, and the first real body paragraph.

use vstd::prelude::*;
use crate::markup::{
    by_prefix, gt_mark, gt_mark_chars, h4_close, h4_close_chars, h4_open, h4_open_chars, p_close,
    p_close_chars, p_open, p_open_chars,
};
use crate::pattern::{find_at, first_at, lemma_first_at_some};
use crate::scan::{
    extract_between_chars, extract_between_spec, is_byline_start, starts_with_month_chars,
    starts_with_month_spec, strip_tags_chars, strip_tags_spec, trim_chars, trim_spec,
};
use crate::strings::{chars_to_string, seq_slice, str_to_chars};

verus! {

/// The offset just past the first `</h4>`, or the start of the
/// fragment when there is none: where the paragraph scans begin.
pub open spec fn after_subhead(h: Seq<char>) -> int {
    match first_at(h, h4_close(), 0) {
        Option::Some(i) => i + h4_close().len() as int,
        Option::None => 0,
    }
}

/// The visible text of a located paragraph: everything after the `>`
/// that ends the opening tag (or the whole span when there is no `>`),
/// with nested tags dropped and whitespace trimmed.
pub open spec fn paragraph_text(inner: Seq<char>) -> Seq<char> {
    let oe = match first_at(inner, gt_mark(), 0) {
        Option::Some(i) => i + 1,
        Option::None => 0,
    };
    strip_tags_spec(inner.skip(oe))
}

/// What `extract_subhead` returns: the stripped inner text of the
/// first `<h4>`...`</h4>` span, or `None` when there is no such span
/// or its opening tag never ends.
pub open spec fn extract_subhead_spec(h: Seq<char>) -> Option<Seq<char>> {
    match extract_between_spec(h, h4_open(), h4_close(), 0) {
        Option::None => Option::None,
        Option::Some(p) => match first_at(p.0, gt_mark(), 0) {
            Option::None => Option::None,
            Option::Some(i) => Option::Some(strip_tags_spec(p.0.skip(i + 1))),
        },
    }
}

/// The date scan from offset `pos` with `fuel` paragraphs left to
/// inspect: the text of the first paragraph that starts with a month
/// token.
pub open spec fn printed_date_from(h: Seq<char>, pos: int, fuel: nat) -> Option<Seq<char>>
    decreases fuel,
{
    if fuel == 0 {
        Option::None
    } else {
        match extract_between_spec(h, p_open(), p_close(), pos) {
            Option::None => Option::None,
            Option::Some(p) => {
                let text = paragraph_text(p.0);
                if starts_with_month_spec(text) {
                    Option::Some(text)
                } else {
                    printed_date_from(h, p.1, (fuel - 1) as nat)
                }
            },
        }
    }
}

/// What `extract_printed_date` returns: the first date-shaped
/// paragraph among the five after the subhead.
pub open spec fn extract_printed_date_spec(h: Seq<char>) -> Option<Seq<char>> {
    printed_date_from(h, after_subhead(h), 5)
}

/// Whether trimmed paragraph text is a real body paragraph: not
/// empty, not a date line, not a byline.
pub open spec fn is_body_text(t: Seq<char>) -> bool {
    &&& t.len() > 0
    &&& !starts_with_month_spec(t)
    &&& !(t.len() >= by_prefix().len() && t.take(by_prefix().len() as int) == by_prefix())
}

/// The body-preview scan from offset `pos` with `fuel` paragraphs
/// left: the trimmed text of the first paragraph that is neither
/// empty, a date line, nor a byline.
pub open spec fn body_preview_from(h: Seq<char>, pos: int, fuel: nat) -> Option<Seq<char>>
    decreases fuel,
{
    if fuel == 0 {
        Option::None
    } else {
        match extract_between_spec(h, p_open(), p_close(), pos) {
            Option::None => Option::None,
            Option::Some(p) => {
                let t = trim_spec(paragraph_text(p.0));
                if is_body_text(t) {
                    Option::Some(t)
                } else {
                    body_preview_from(h, p.1, (fuel - 1) as nat)
                }
            },
        }
    }
}

/// What `extract_body_preview` returns: the first real body paragraph
/// among the twelve after the subhead.
pub open spec fn extract_body_preview_spec(h: Seq<char>) -> Option<Seq<char>> {
    body_preview_from(h, after_subhead(h), 12)
}

/// The offset just past the first `</h4>` (or 0), executably.
pub(crate) fn after_subhead_pos(v: &Vec<char>) -> (r: usize)
    ensures
        r as int == after_subhead(v@),
        r <= v@.len(),
{
    let hn = v.len();
    let h4c = h4_close_chars();
    match find_at(v, &h4c, 0) {
        Option::Some(i) => {
            proof {
                lemma_first_at_some(v@, h4c@, 0, i as int);
            }
            i + h4c.len()
        },
        Option::None => 0,
    }
}

/// The visible text of a located paragraph span, executably.
pub(crate) fn paragraph_text_chars(inner: &Vec<char>) -> (r: Vec<char>)
    ensures
        r@ == paragraph_text(inner@),
{
    let hn = inner.len();
    let g = gt_mark_chars();
    let oe = match find_at(inner, &g, 0) {
        Option::Some(i) => {
            proof {
                lemma_first_at_some(inner@, g@, 0, i as int);
            }
            i + 1
        },
        Option::None => 0,
    };
    let rest = seq_slice(inner, oe, hn);
    proof {
        assert(inner@.subrange(oe as int, hn as int) =~= inner@.skip(oe as int));
    }
    strip_tags_chars(&rest)
}

/// Locates the first `<h4>`...`</h4>` span, strips any nested tags
/// from its inner text, and returns the plain text; `None` when the
/// fragment has no subhead.
pub fn extract_subhead(html: &str) -> (r: Option<String>)
    ensures
        match r {
            Option::Some(t) => extract_subhead_spec(html@) == Option::Some(t@),
            Option::None => extract_subhead_spec(html@) is None,
        },
{
    let v = str_to_chars(html);
    let h4o = h4_open_chars();
    let h4c = h4_close_chars();
    let g = gt_mark_chars();
    match extract_between_chars(&v, &h4o, &h4c, 0) {
        Option::None => Option::None,
        Option::Some(p) => {
            let inner = p.0;
            let il = inner.len();
            match find_at(&inner, &g, 0) {
                Option::None => Option::None,
                Option::Some(i) => {
                    proof {
                        lemma_first_at_some(inner@, g@, 0, i as int);
                    }
                    let rest = seq_slice(&inner, i + 1, il);
                    proof {
                        assert(inner@.subrange(i + 1, inner@.len() as int) =~= inner@.skip(i + 1));
                    }
                    Option::Some(chars_to_string(&strip_tags_chars(&rest)))
                },
            }
        },
    }
}

/// Scans up to five paragraphs after the subhead and returns the text
/// of the first one that begins with a month token; `None` when none
/// of them does.
pub fn extract_printed_date(html: &str) -> (r: Option<String>)
    ensures
        match r {
            Option::Some(t) => extract_printed_date_spec(html@) == Option::Some(t@),
            Option::None => extract_printed_date_spec(html@) is None,
        },
{
    let v = str_to_chars(html);
    let hn = v.len();
    let po = p_open_chars();
    let pc = p_close_chars();
    let mut pos = after_subhead_pos(&v);
    let mut fuel: usize = 5;
    while fuel > 0
        invariant
            pos <= hn == v@.len(),
            v@ == html@,
            po@ == p_open(),
            pc@ == p_close(),
            fuel <= 5,
            extract_printed_date_spec(v@) == printed_date_from(v@, pos as int, fuel as nat),
        ensures
            fuel == 0,
            extract_printed_date_spec(v@) == printed_date_from(v@, pos as int, fuel as nat),
        decreases fuel,
    {
        match extract_between_chars(&v, &po, &pc, pos) {
            Option::None => {
                return Option::None;
            },
            Option::Some(p) => {
                let text = paragraph_text_chars(&p.0);
                if starts_with_month_chars(&text) {
                    return Option::Some(chars_to_string(&text));
                }
                pos = p.1;
                fuel = fuel - 1;
            },
        }
    }
    Option::None
}

/// Scans up to twelve paragraphs after the subhead, skipping empty,
/// date, and byline paragraphs, and returns the first remaining one;
/// `None` when every paragraph is skipped or the scan runs off the
/// fragment.
pub fn extract_body_preview(html: &str) -> (r: Option<String>)
    ensures
        match r {
            Option::Some(t) => extract_body_preview_spec(html@) == Option::Some(t@),
            Option::None => extract_body_preview_spec(html@) is None,
        },
{
    let v = str_to_chars(html);
    let hn = v.len();
    let po = p_open_chars();
    let pc = p_close_chars();
    let mut pos = after_subhead_pos(&v);
    let mut fuel: usize = 12;
    while fuel > 0
        invariant
            pos <= hn == v@.len(),
            v@ == html@,
            po@ == p_open(),
            pc@ == p_close(),
            fuel <= 12,
            extract_body_preview_spec(v@) == body_preview_from(v@, pos as int, fuel as nat),
        ensures
            fuel == 0,
            extract_body_preview_spec(v@) == body_preview_from(v@, pos as int, fuel as nat),
        decreases fuel,
    {
        match extract_between_chars(&v, &po, &pc, pos) {
            Option::None => {
                return Option::None;
            },
            Option::Some(p) => {
                let text = paragraph_text_chars(&p.0);
                let t = trim_chars(&text);
                let empty = t.len() == 0;
                let month = starts_with_month_chars(&t);
                let byline = is_byline_start(&t);
                if !empty && !month && !byline {
                    return Option::Some(chars_to_string(&t));
                }
                pos = p.1;
                fuel = fuel - 1;
            },
        }
    }
    Option::None
}

} // verus!
