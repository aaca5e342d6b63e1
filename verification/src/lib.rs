//! Annotator for semi-structured HTML article fragments.
//!
//! The library scans article bodies imported from an external CMS and
//! (a) extracts metadata that is not stored as separate fields (printed
//! date, subhead, lead-paragraph preview) and (b) applies surgical text
//! transformations (bold a byline, italicize a syndication notice, wrap
//! images in outbound links) while leaving all other markup unchanged.

pub mod articles;
pub mod counts;
pub mod extract;
pub mod laws;
pub mod markup;
pub mod pattern;
pub mod records;
pub mod scan;
pub mod strings;
pub mod transform;

pub use articles::{find_article, ArticleStore, JournalismArticle};
pub use extract::{extract_body_preview, extract_printed_date, extract_subhead};
pub use laws::{
    counted_pat, lemma_bold_byline_counts, lemma_format_cp_counts, lemma_italicize_counts,
    lemma_linkify_counts, lemma_linkify_no_images, lemma_no_subhead_inert,
    lemma_replace_date_counts, lemma_strip_subhead_counts, lemma_strip_subhead_occ,
};
pub use records::{Claims, CreativeType, MediaCategory, MediaContext, ModelCount, Origin};
pub use pattern::find_at;
pub use scan::{extract_between, starts_with_month, strip_tags};
pub use strings::str_to_chars;
pub use transform::{
    bold_byline, format_cp_style, italicize_origin_line, linkify_images, replace_date_paragraph,
    strip_first_subhead,
};
