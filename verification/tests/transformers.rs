use article_annotator::{
    bold_byline, format_cp_style, italicize_origin_line, linkify_images, replace_date_paragraph,
    strip_first_subhead,
};

#[test]
fn italicize_origin_line_scenario() {
    let out = italicize_origin_line("<p>Originally appeared in Terrace Standard.</p>");
    assert_eq!(out, "<p><em>Originally appeared in Terrace Standard.</em></p>");
}

#[test]
fn italicize_matches_case_insensitively() {
    let out = italicize_origin_line("<p>ORIGINALLY APPEARED IN The Paper</p>");
    assert_eq!(out, "<p><em>ORIGINALLY APPEARED IN The Paper</em></p>");
}

#[test]
fn italicize_leaves_other_paragraphs_alone() {
    let html = "<p>Nothing syndicated here.</p><p>Or here.</p>";
    assert_eq!(italicize_origin_line(html), html);
}

#[test]
fn linkify_images_scenario() {
    let out = linkify_images("<img src=\"http://x/y.jpg\">");
    assert_eq!(
        out,
        "<a href=\"http://x/y.jpg\" target=\"_blank\" class=\"article-image-link\"><img src=\"http://x/y.jpg\"></a>"
    );
}

#[test]
fn linkify_wraps_each_image_and_keeps_surroundings() {
    let html = "a<img src=\"u\">b<img src=\"v\">c";
    let out = linkify_images(html);
    assert_eq!(
        out,
        "a<a href=\"u\" target=\"_blank\" class=\"article-image-link\"><img src=\"u\"></a>b<a href=\"v\" target=\"_blank\" class=\"article-image-link\"><img src=\"v\"></a>c"
    );
}

#[test]
fn linkify_skips_images_without_src() {
    let html = "<img alt=\"decorative\">";
    assert_eq!(linkify_images(html), html);
}

#[test]
fn linkify_without_images_is_identity() {
    let html = "<p>text only</p>";
    assert_eq!(linkify_images(html), html);
    assert_eq!(linkify_images(&linkify_images(html)), html);
}

#[test]
fn linkify_applied_twice_wraps_again() {
    // The scan does not recognize an already-wrapped image, so a second
    // pass re-wraps it: applying the transformer twice is NOT the same
    // as applying it once.
    let img = "<img src=\"http://x/y.jpg\">";
    let once = linkify_images(img);
    let twice = linkify_images(&once);
    assert_ne!(twice, once);
    let expected = format!(
        "<a href=\"http://x/y.jpg\" target=\"_blank\" class=\"article-image-link\">{}</a>",
        once
    );
    assert_eq!(twice, expected);
}

#[test]
fn bold_byline_wraps_short_byline_paragraphs() {
    let out = bold_byline("<p>By Jane Doe</p><p>Body text.</p>");
    assert_eq!(out, "<p><strong>By Jane Doe</strong></p><p>Body text.</p>");
}

#[test]
fn bold_byline_trims_before_testing_the_prefix() {
    let out = bold_byline("<p>  By J</p>");
    assert_eq!(out, "<p><strong>  By J</strong></p>");
}

#[test]
fn bold_byline_leaves_long_paragraphs_alone() {
    let long_tail = "x".repeat(100);
    let html = format!("<p>By {}</p>", long_tail);
    assert_eq!(bold_byline(&html), html);
}

#[test]
fn bold_byline_leaves_non_bylines_alone() {
    let html = "<p>Bylines start with a fixed prefix.</p>";
    assert_eq!(bold_byline(html), html);
}

#[test]
fn strip_first_subhead_removes_one_span() {
    assert_eq!(strip_first_subhead("<h4>Sub</h4><p>x</p>"), "<p>x</p>");
    assert_eq!(
        strip_first_subhead("a<h4 class=\"t\">Sub</h4>b<h4>Second</h4>"),
        "ab<h4>Second</h4>"
    );
}

#[test]
fn strip_first_subhead_without_subhead_is_identity() {
    let html = "<p>No heading here</p>";
    assert_eq!(strip_first_subhead(html), html);
    assert_eq!(strip_first_subhead("<h4>never closed"), "<h4>never closed");
}

#[test]
fn replace_date_paragraph_rewrites_the_date_line() {
    let html = "<h4>T</h4><p>May 3, 2024</p><p>x</p>";
    let out = replace_date_paragraph(html, "June 1, 2024");
    assert_eq!(
        out,
        "<h4>T</h4><p class=\"text-sm text-gray-500 mb-6 mt-6\">June 1, 2024</p><p>x</p>"
    );
}

#[test]
fn replace_date_paragraph_without_date_is_identity() {
    let html = "<h4>T</h4><p>no date</p>";
    assert_eq!(replace_date_paragraph(html, "June 1"), html);
}

#[test]
fn format_cp_style_scenario() {
    assert_eq!(format_cp_style("September 1, 2024"), "Sept. 1, 2024");
    assert_eq!(format_cp_style("June 1, 2024"), "June 1, 2024");
}

#[test]
fn format_cp_style_abbreviates_the_seven_long_months() {
    let input = "January February August September October November December";
    assert_eq!(format_cp_style(input), "Jan. Feb. Aug. Sept. Oct. Nov. Dec.");
}

#[test]
fn format_cp_style_keeps_short_months() {
    let input = "March April May June July";
    assert_eq!(format_cp_style(input), input);
}

#[test]
fn transformers_keep_tag_counts_on_a_full_article() {
    let html = "<h4>Head</h4><p>May 3, 2024</p><p>By Jane</p>\
                <p>Originally appeared in The Standard.</p><img src=\"u\"><p>Body</p>";
    let count = |s: &str, pat: &str| s.matches(pat).count();
    for pass in [
        italicize_origin_line(html),
        bold_byline(html),
        linkify_images(html),
        replace_date_paragraph(html, "June 1"),
        format_cp_style(html),
    ] {
        assert_eq!(count(&pass, "<p"), count(html, "<p"));
        assert_eq!(count(&pass, "<h4"), count(html, "<h4"));
        assert_eq!(count(&pass, "<img"), count(html, "<img"));
    }
    let stripped = strip_first_subhead(html);
    assert_eq!(count(&stripped, "<h4"), count(html, "<h4") - 1);
    assert_eq!(count(&stripped, "<p"), count(html, "<p"));
    assert_eq!(count(&stripped, "<img"), count(html, "<img"));
}

#[test]
fn render_pipeline_matches_expected_markup() {
    let html = "<h4>Head</h4><p>By Jane</p><p>Originally appeared in X.</p><img src=\"u\">";
    let s = strip_first_subhead(html);
    let s = italicize_origin_line(&s);
    let s = bold_byline(&s);
    let s = linkify_images(&s);
    assert_eq!(
        s,
        "<p><strong>By Jane</strong></p><p><em>Originally appeared in X.</em></p>\
         <a href=\"u\" target=\"_blank\" class=\"article-image-link\"><img src=\"u\"></a>"
    );
}

#[test]
fn transformers_tolerate_unterminated_markup() {
    assert_eq!(bold_byline("<p no closing"), "<p no closing");
    assert_eq!(italicize_origin_line("<p>half open"), "<p>half open");
    assert_eq!(linkify_images("<img src=\"u"), "<img src=\"u");
}

