//! The fixed markup tokens the scanners and transformers work with,
//! each as a transparent character sequence with its executable
//! builder.

use vstd::prelude::*;

verus! {

/// In specifications: the opening-paragraph marker `"<p"`.
pub open spec fn p_open() -> Seq<char> {
    seq!['<', 'p']
}

pub(crate) fn p_open_chars() -> (r: Vec<char>)
    ensures
        r@ == p_open(),
{
    let mut v: Vec<char> = Vec::new();
    v.push('<');v.push('p');
    proof {
        assert(v@ =~= p_open());
    }
    v
}

/// In specifications: the closing-paragraph tag `"</p>"`.
pub open spec fn p_close() -> Seq<char> {
    seq!['<', '/', 'p', '>']
}

pub(crate) fn p_close_chars() -> (r: Vec<char>)
    ensures
        r@ == p_close(),
{
    let mut v: Vec<char> = Vec::new();
    v.push('<');v.push('/');v.push('p');v.push('>');
    proof {
        assert(v@ =~= p_close());
    }
    v
}

/// In specifications: the opening-subhead marker `"<h4"`.
pub open spec fn h4_open() -> Seq<char> {
    seq!['<', 'h', '4']
}

pub(crate) fn h4_open_chars() -> (r: Vec<char>)
    ensures
        r@ == h4_open(),
{
    let mut v: Vec<char> = Vec::new();
    v.push('<');v.push('h');v.push('4');
    proof {
        assert(v@ =~= h4_open());
    }
    v
}

/// In specifications: the closing-subhead tag `"</h4>"`.
pub open spec fn h4_close() -> Seq<char> {
    seq!['<', '/', 'h', '4', '>']
}

pub(crate) fn h4_close_chars() -> (r: Vec<char>)
    ensures
        r@ == h4_close(),
{
    let mut v: Vec<char> = Vec::new();
    v.push('<');v.push('/');v.push('h');v.push('4');v.push('>');
    proof {
        assert(v@ =~= h4_close());
    }
    v
}

/// In specifications: the image-tag marker `"<img"`.
pub open spec fn img_open() -> Seq<char> {
    seq!['<', 'i', 'm', 'g']
}

pub(crate) fn img_open_chars() -> (r: Vec<char>)
    ensures
        r@ == img_open(),
{
    let mut v: Vec<char> = Vec::new();
    v.push('<');v.push('i');v.push('m');v.push('g');
    proof {
        assert(v@ =~= img_open());
    }
    v
}

/// In specifications: the end of an opening tag.
pub open spec fn gt_mark() -> Seq<char> {
    seq!['>']
}

pub(crate) fn gt_mark_chars() -> (r: Vec<char>)
    ensures
        r@ == gt_mark(),
{
    let mut v: Vec<char> = Vec::new();
    v.push('>');
    proof {
        assert(v@ =~= gt_mark());
    }
    v
}

/// In specifications: the double quote that ends an attribute value.
pub open spec fn quote_mark() -> Seq<char> {
    seq!['"']
}

pub(crate) fn quote_mark_chars() -> (r: Vec<char>)
    ensures
        r@ == quote_mark(),
{
    let mut v: Vec<char> = Vec::new();
    v.push('"');
    proof {
        assert(v@ =~= quote_mark());
    }
    v
}

/// In specifications: the start of an image source attribute, `src=\"`.
pub open spec fn src_marker() -> Seq<char> {
    seq!['s', 'r', 'c', '=', '"']
}

pub(crate) fn src_marker_chars() -> (r: Vec<char>)
    ensures
        r@ == src_marker(),
{
    let mut v: Vec<char> = Vec::new();
    v.push('s');v.push('r');v.push('c');v.push('=');v.push('"');
    proof {
        assert(v@ =~= src_marker());
    }
    v
}

/// In specifications: the byline prefix `"By "`.
pub open spec fn by_prefix() -> Seq<char> {
    seq!['B', 'y', ' ']
}

pub(crate) fn by_prefix_chars() -> (r: Vec<char>)
    ensures
        r@ == by_prefix(),
{
    let mut v: Vec<char> = Vec::new();
    v.push('B');v.push('y');v.push(' ');
    proof {
        assert(v@ =~= by_prefix());
    }
    v
}

/// In specifications: the lowercased syndication-notice phrase.
pub open spec fn origin_phrase() -> Seq<char> {
    seq!['o', 'r', 'i', 'g', 'i', 'n', 'a', 'l', 'l', 'y', ' ', 'a', 'p', 'p', 'e', 'a', 'r', 'e', 'd', ' ', 'i', 'n']
}

pub(crate) fn origin_phrase_chars() -> (r: Vec<char>)
    ensures
        r@ == origin_phrase(),
{
    let mut v: Vec<char> = Vec::new();
    v.push('o');v.push('r');v.push('i');v.push('g');v.push('i');v.push('n');v.push('a');
    v.push('l');v.push('l');v.push('y');v.push(' ');v.push('a');v.push('p');v.push('p');
    v.push('e');v.push('a');v.push('r');v.push('e');v.push('d');v.push(' ');v.push('i');
    v.push('n');
    proof {
        assert(v@ =~= origin_phrase());
    }
    v
}

/// In specifications: the emphasis markup wrapped around a byline.
pub open spec fn strong_open() -> Seq<char> {
    seq!['<', 's', 't', 'r', 'o', 'n', 'g', '>']
}

pub(crate) fn strong_open_chars() -> (r: Vec<char>)
    ensures
        r@ == strong_open(),
{
    let mut v: Vec<char> = Vec::new();
    v.push('<');v.push('s');v.push('t');v.push('r');v.push('o');v.push('n');v.push('g');
    v.push('>');
    proof {
        assert(v@ =~= strong_open());
    }
    v
}

/// In specifications: the end of the byline emphasis markup.
pub open spec fn strong_close() -> Seq<char> {
    seq!['<', '/', 's', 't', 'r', 'o', 'n', 'g', '>']
}

pub(crate) fn strong_close_chars() -> (r: Vec<char>)
    ensures
        r@ == strong_close(),
{
    let mut v: Vec<char> = Vec::new();
    v.push('<');v.push('/');v.push('s');v.push('t');v.push('r');v.push('o');v.push('n');
    v.push('g');v.push('>');
    proof {
        assert(v@ =~= strong_close());
    }
    v
}

/// In specifications: the italic markup wrapped around an origin line.
pub open spec fn em_open() -> Seq<char> {
    seq!['<', 'e', 'm', '>']
}

pub(crate) fn em_open_chars() -> (r: Vec<char>)
    ensures
        r@ == em_open(),
{
    let mut v: Vec<char> = Vec::new();
    v.push('<');v.push('e');v.push('m');v.push('>');
    proof {
        assert(v@ =~= em_open());
    }
    v
}

/// In specifications: the end of the origin-line italic markup.
pub open spec fn em_close() -> Seq<char> {
    seq!['<', '/', 'e', 'm', '>']
}

pub(crate) fn em_close_chars() -> (r: Vec<char>)
    ensures
        r@ == em_close(),
{
    let mut v: Vec<char> = Vec::new();
    v.push('<');v.push('/');v.push('e');v.push('m');v.push('>');
    proof {
        assert(v@ =~= em_close());
    }
    v
}

/// In specifications: the part of the image anchor before the URL.
pub open spec fn link_open_pre() -> Seq<char> {
    seq!['<', 'a', ' ', 'h', 'r', 'e', 'f', '=', '"']
}

pub(crate) fn link_open_pre_chars() -> (r: Vec<char>)
    ensures
        r@ == link_open_pre(),
{
    let mut v: Vec<char> = Vec::new();
    v.push('<');v.push('a');v.push(' ');v.push('h');v.push('r');v.push('e');v.push('f');
    v.push('=');v.push('"');
    proof {
        assert(v@ =~= link_open_pre());
    }
    v
}

/// In specifications: the part of the image anchor after the URL.
pub open spec fn link_open_post() -> Seq<char> {
    seq!['"', ' ', 't', 'a', 'r', 'g', 'e', 't', '=', '"', '_', 'b', 'l', 'a', 'n', 'k', '"', ' ', 'c', 'l', 'a', 's', 's', '=', '"', 'a', 'r', 't', 'i', 'c', 'l', 'e', '-', 'i', 'm', 'a', 'g', 'e', '-', 'l', 'i', 'n', 'k', '"', '>']
}

pub(crate) fn link_open_post_chars() -> (r: Vec<char>)
    ensures
        r@ == link_open_post(),
{
    let mut v: Vec<char> = Vec::new();
    v.push('"');v.push(' ');v.push('t');v.push('a');v.push('r');v.push('g');v.push('e');
    v.push('t');v.push('=');v.push('"');v.push('_');v.push('b');v.push('l');v.push('a');
    v.push('n');v.push('k');v.push('"');v.push(' ');v.push('c');v.push('l');v.push('a');
    v.push('s');v.push('s');v.push('=');v.push('"');v.push('a');v.push('r');v.push('t');
    v.push('i');v.push('c');v.push('l');v.push('e');v.push('-');v.push('i');v.push('m');
    v.push('a');v.push('g');v.push('e');v.push('-');v.push('l');v.push('i');v.push('n');
    v.push('k');v.push('"');v.push('>');
    proof {
        assert(v@ =~= link_open_post());
    }
    v
}

/// In specifications: the closing tag of the image anchor.
pub open spec fn link_close() -> Seq<char> {
    seq!['<', '/', 'a', '>']
}

pub(crate) fn link_close_chars() -> (r: Vec<char>)
    ensures
        r@ == link_close(),
{
    let mut v: Vec<char> = Vec::new();
    v.push('<');v.push('/');v.push('a');v.push('>');
    proof {
        assert(v@ =~= link_close());
    }
    v
}

/// In specifications: the opening tag of a rewritten date paragraph.
pub open spec fn date_p_open() -> Seq<char> {
    seq!['<', 'p', ' ', 'c', 'l', 'a', 's', 's', '=', '"', 't', 'e', 'x', 't', '-', 's', 'm', ' ', 't', 'e', 'x', 't', '-', 'g', 'r', 'a', 'y', '-', '5', '0', '0', ' ', 'm', 'b', '-', '6', ' ', 'm', 't', '-', '6', '"', '>']
}

pub(crate) fn date_p_open_chars() -> (r: Vec<char>)
    ensures
        r@ == date_p_open(),
{
    let mut v: Vec<char> = Vec::new();
    v.push('<');v.push('p');v.push(' ');v.push('c');v.push('l');v.push('a');v.push('s');
    v.push('s');v.push('=');v.push('"');v.push('t');v.push('e');v.push('x');v.push('t');
    v.push('-');v.push('s');v.push('m');v.push(' ');v.push('t');v.push('e');v.push('x');
    v.push('t');v.push('-');v.push('g');v.push('r');v.push('a');v.push('y');v.push('-');
    v.push('5');v.push('0');v.push('0');v.push(' ');v.push('m');v.push('b');v.push('-');
    v.push('6');v.push(' ');v.push('m');v.push('t');v.push('-');v.push('6');v.push('"');
    v.push('>');
    proof {
        assert(v@ =~= date_p_open());
    }
    v
}

/// In specifications: the date token `"January"` of the newspaper-style rewrite.
pub open spec fn jan_full() -> Seq<char> {
    seq!['J', 'a', 'n', 'u', 'a', 'r', 'y']
}

pub(crate) fn jan_full_chars() -> (r: Vec<char>)
    ensures
        r@ == jan_full(),
{
    let mut v: Vec<char> = Vec::new();
    v.push('J');v.push('a');v.push('n');v.push('u');v.push('a');v.push('r');v.push('y');
    proof {
        assert(v@ =~= jan_full());
    }
    v
}

/// In specifications: the date token `"Jan."` of the newspaper-style rewrite.
pub open spec fn jan_abbr() -> Seq<char> {
    seq!['J', 'a', 'n', '.']
}

pub(crate) fn jan_abbr_chars() -> (r: Vec<char>)
    ensures
        r@ == jan_abbr(),
{
    let mut v: Vec<char> = Vec::new();
    v.push('J');v.push('a');v.push('n');v.push('.');
    proof {
        assert(v@ =~= jan_abbr());
    }
    v
}

/// In specifications: the date token `"February"` of the newspaper-style rewrite.
pub open spec fn feb_full() -> Seq<char> {
    seq!['F', 'e', 'b', 'r', 'u', 'a', 'r', 'y']
}

pub(crate) fn feb_full_chars() -> (r: Vec<char>)
    ensures
        r@ == feb_full(),
{
    let mut v: Vec<char> = Vec::new();
    v.push('F');v.push('e');v.push('b');v.push('r');v.push('u');v.push('a');v.push('r');
    v.push('y');
    proof {
        assert(v@ =~= feb_full());
    }
    v
}

/// In specifications: the date token `"Feb."` of the newspaper-style rewrite.
pub open spec fn feb_abbr() -> Seq<char> {
    seq!['F', 'e', 'b', '.']
}

pub(crate) fn feb_abbr_chars() -> (r: Vec<char>)
    ensures
        r@ == feb_abbr(),
{
    let mut v: Vec<char> = Vec::new();
    v.push('F');v.push('e');v.push('b');v.push('.');
    proof {
        assert(v@ =~= feb_abbr());
    }
    v
}

/// In specifications: the date token `"August"` of the newspaper-style rewrite.
pub open spec fn aug_full() -> Seq<char> {
    seq!['A', 'u', 'g', 'u', 's', 't']
}

pub(crate) fn aug_full_chars() -> (r: Vec<char>)
    ensures
        r@ == aug_full(),
{
    let mut v: Vec<char> = Vec::new();
    v.push('A');v.push('u');v.push('g');v.push('u');v.push('s');v.push('t');
    proof {
        assert(v@ =~= aug_full());
    }
    v
}

/// In specifications: the date token `"Aug."` of the newspaper-style rewrite.
pub open spec fn aug_abbr() -> Seq<char> {
    seq!['A', 'u', 'g', '.']
}

pub(crate) fn aug_abbr_chars() -> (r: Vec<char>)
    ensures
        r@ == aug_abbr(),
{
    let mut v: Vec<char> = Vec::new();
    v.push('A');v.push('u');v.push('g');v.push('.');
    proof {
        assert(v@ =~= aug_abbr());
    }
    v
}

/// In specifications: the date token `"September"` of the newspaper-style rewrite.
pub open spec fn sept_full() -> Seq<char> {
    seq!['S', 'e', 'p', 't', 'e', 'm', 'b', 'e', 'r']
}

pub(crate) fn sept_full_chars() -> (r: Vec<char>)
    ensures
        r@ == sept_full(),
{
    let mut v: Vec<char> = Vec::new();
    v.push('S');v.push('e');v.push('p');v.push('t');v.push('e');v.push('m');v.push('b');
    v.push('e');v.push('r');
    proof {
        assert(v@ =~= sept_full());
    }
    v
}

/// In specifications: the date token `"Sept."` of the newspaper-style rewrite.
pub open spec fn sept_abbr() -> Seq<char> {
    seq!['S', 'e', 'p', 't', '.']
}

pub(crate) fn sept_abbr_chars() -> (r: Vec<char>)
    ensures
        r@ == sept_abbr(),
{
    let mut v: Vec<char> = Vec::new();
    v.push('S');v.push('e');v.push('p');v.push('t');v.push('.');
    proof {
        assert(v@ =~= sept_abbr());
    }
    v
}

/// In specifications: the date token `"October"` of the newspaper-style rewrite.
pub open spec fn oct_full() -> Seq<char> {
    seq!['O', 'c', 't', 'o', 'b', 'e', 'r']
}

pub(crate) fn oct_full_chars() -> (r: Vec<char>)
    ensures
        r@ == oct_full(),
{
    let mut v: Vec<char> = Vec::new();
    v.push('O');v.push('c');v.push('t');v.push('o');v.push('b');v.push('e');v.push('r');
    proof {
        assert(v@ =~= oct_full());
    }
    v
}

/// In specifications: the date token `"Oct."` of the newspaper-style rewrite.
pub open spec fn oct_abbr() -> Seq<char> {
    seq!['O', 'c', 't', '.']
}

pub(crate) fn oct_abbr_chars() -> (r: Vec<char>)
    ensures
        r@ == oct_abbr(),
{
    let mut v: Vec<char> = Vec::new();
    v.push('O');v.push('c');v.push('t');v.push('.');
    proof {
        assert(v@ =~= oct_abbr());
    }
    v
}

/// In specifications: the date token `"November"` of the newspaper-style rewrite.
pub open spec fn nov_full() -> Seq<char> {
    seq!['N', 'o', 'v', 'e', 'm', 'b', 'e', 'r']
}

pub(crate) fn nov_full_chars() -> (r: Vec<char>)
    ensures
        r@ == nov_full(),
{
    let mut v: Vec<char> = Vec::new();
    v.push('N');v.push('o');v.push('v');v.push('e');v.push('m');v.push('b');v.push('e');
    v.push('r');
    proof {
        assert(v@ =~= nov_full());
    }
    v
}

/// In specifications: the date token `"Nov."` of the newspaper-style rewrite.
pub open spec fn nov_abbr() -> Seq<char> {
    seq!['N', 'o', 'v', '.']
}

pub(crate) fn nov_abbr_chars() -> (r: Vec<char>)
    ensures
        r@ == nov_abbr(),
{
    let mut v: Vec<char> = Vec::new();
    v.push('N');v.push('o');v.push('v');v.push('.');
    proof {
        assert(v@ =~= nov_abbr());
    }
    v
}

/// In specifications: the date token `"December"` of the newspaper-style rewrite.
pub open spec fn dec_full() -> Seq<char> {
    seq!['D', 'e', 'c', 'e', 'm', 'b', 'e', 'r']
}

pub(crate) fn dec_full_chars() -> (r: Vec<char>)
    ensures
        r@ == dec_full(),
{
    let mut v: Vec<char> = Vec::new();
    v.push('D');v.push('e');v.push('c');v.push('e');v.push('m');v.push('b');v.push('e');
    v.push('r');
    proof {
        assert(v@ =~= dec_full());
    }
    v
}

/// In specifications: the date token `"Dec."` of the newspaper-style rewrite.
pub open spec fn dec_abbr() -> Seq<char> {
    seq!['D', 'e', 'c', '.']
}

pub(crate) fn dec_abbr_chars() -> (r: Vec<char>)
    ensures
        r@ == dec_abbr(),
{
    let mut v: Vec<char> = Vec::new();
    v.push('D');v.push('e');v.push('c');v.push('.');
    proof {
        assert(v@ =~= dec_abbr());
    }
    v
}

} // verus!
