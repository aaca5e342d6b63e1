//! The journalism article record and the loaded-article lookups that
//! the list and detail views run.

use vstd::prelude::*;
use crate::strings::{chars_eq, str_to_chars};

verus! {

/// One imported journalism article, as the data layer stores it.
#[derive(Debug, Clone)]
pub struct JournalismArticle {
    pub slug: String,
    pub title: String,
    pub iso_date: String,
    pub display_date: String,
    pub source_url: String,
    pub content_html: String,
    pub images: Vec<String>,
    pub captions: Vec<String>,
    pub excerpt: String,
    pub byline: Option<String>,
}

/// Two article records carrying the same data, field by field.
pub open spec fn article_like(a: JournalismArticle, b: JournalismArticle) -> bool {
    &&& a.slug == b.slug
    &&& a.title == b.title
    &&& a.iso_date == b.iso_date
    &&& a.display_date == b.display_date
    &&& a.source_url == b.source_url
    &&& a.content_html == b.content_html
    &&& a.images@ == b.images@
    &&& a.captions@ == b.captions@
    &&& a.excerpt == b.excerpt
    &&& a.byline == b.byline
}

/// The position of the first article at or after `i` whose slug reads
/// `slug`, or `None` when no article from `i` on matches.
pub open spec fn first_slug_match(arts: Seq<JournalismArticle>, slug: Seq<char>, i: int) -> Option<
    int,
>
    decreases arts.len() - i,
{
    if i < 0 || i >= arts.len() {
        Option::None
    } else if arts[i].slug@ == slug {
        Option::Some(i)
    } else {
        first_slug_match(arts, slug, i + 1)
    }
}

/// A copy of a vector of strings.
fn clone_string_vec(v: &Vec<String>) -> (r: Vec<String>)
    ensures
        r@ == v@,
{
    let n = v.len();
    let mut out: Vec<String> = Vec::new();
    let mut i: usize = 0;
    while i < n
        invariant
            0 <= i <= n,
            n == v@.len(),
            out@ == v@.take(i as int),
        decreases n - i,
    {
        out.push(v[i].clone());
        proof {
            assert(out@ =~= v@.take(i + 1));
        }
        i = i + 1;
    }
    proof {
        assert(v@.take(n as int) =~= v@);
    }
    out
}

/// A copy of an article record that carries the same data.
fn clone_article(a: &JournalismArticle) -> (r: JournalismArticle)
    ensures
        article_like(r, *a),
{
    JournalismArticle {
        slug: a.slug.clone(),
        title: a.title.clone(),
        iso_date: a.iso_date.clone(),
        display_date: a.display_date.clone(),
        source_url: a.source_url.clone(),
        content_html: a.content_html.clone(),
        images: clone_string_vec(&a.images),
        captions: clone_string_vec(&a.captions),
        excerpt: a.excerpt.clone(),
        byline: match &a.byline {
            Option::Some(s) => Option::Some(s.clone()),
            Option::None => Option::None,
        },
    }
}

/// The first article whose slug is `slug`, copied out; `None` when no
/// article matches.
pub fn find_article(articles: &Vec<JournalismArticle>, slug: &str) -> (r: Option<
    JournalismArticle,
>)
    ensures
        match r {
            Option::Some(a) => first_slug_match(articles@, slug@, 0) is Some && article_like(
                a,
                articles@[first_slug_match(articles@, slug@, 0)->0],
            ),
            Option::None => first_slug_match(articles@, slug@, 0) is None,
        },
{
    let sv = str_to_chars(slug);
    let n = articles.len();
    let mut i: usize = 0;
    while i < n
        invariant
            0 <= i <= n,
            n == articles@.len(),
            sv@ == slug@,
            first_slug_match(articles@, slug@, 0) == first_slug_match(articles@, slug@, i as int),
        decreases n - i,
    {
        let av = str_to_chars(articles[i].slug.as_str());
        if chars_eq(&av, &sv) {
            return Option::Some(clone_article(&articles[i]));
        }
        i = i + 1;
    }
    Option::None
}

/// The loaded article collection, as the data layer keeps it in
/// memory once per process.
pub struct ArticleStore {
    articles: Vec<JournalismArticle>,
}

impl View for ArticleStore {
    type V = Seq<JournalismArticle>;

    closed spec fn view(&self) -> Seq<JournalismArticle> {
        self.articles@
    }
}

impl ArticleStore {
    /// A store holding exactly the given articles, in order.
    pub fn new(articles: Vec<JournalismArticle>) -> (r: ArticleStore)
        ensures
            r@ == articles@,
    {
        ArticleStore { articles }
    }

    /// Every loaded article, in stored order.
    pub fn all_articles(&self) -> (r: &Vec<JournalismArticle>)
        ensures
            r@ == self@,
    {
        &self.articles
    }
}

} // verus!
