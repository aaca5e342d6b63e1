use article_annotator::{
    extract_between, extract_body_preview, extract_printed_date, extract_subhead,
    starts_with_month, str_to_chars, strip_tags,
};
use article_annotator::find_at;
use article_annotator::strings::str_eq;

#[test]
fn month_boundary_cases() {
    assert!(!starts_with_month("Mayhem ensues"));
    assert!(starts_with_month("May 3, 2024"));
}

#[test]
fn month_at_end_of_text() {
    assert!(starts_with_month("May"));
    assert!(starts_with_month("May."));
    assert!(starts_with_month("  January 2, 1999"));
}

#[test]
fn every_month_token_is_recognized() {
    let months = [
        "Jan.", "January", "Feb.", "February", "Mar.", "March", "Apr.", "April", "May", "June",
        "July", "Aug.", "August", "Sept.", "September", "Oct.", "October", "Nov.", "November",
        "Dec.", "December",
    ];
    for m in months.iter() {
        let line = format!("{} 7, 2021", m);
        assert!(starts_with_month(&line));
    }
}

#[test]
fn non_month_text_is_rejected() {
    assert!(!starts_with_month("Tuesday, May 3"));
    assert!(!starts_with_month(""));
    assert!(!starts_with_month("   "));
    assert!(!starts_with_month("Junebug season"));
}

#[test]
fn printed_date_and_body_preview_scenario() {
    let html = "<h4>Sub</h4><p>May 3, 2024</p><p>By Jane Doe</p><p>Real text here.</p>";
    assert_eq!(extract_printed_date(html), Some("May 3, 2024".to_string()));
    assert_eq!(extract_body_preview(html), Some("Real text here.".to_string()));
}

#[test]
fn printed_date_without_subhead_scans_from_start() {
    let html = "<p>June 1, 2020</p>";
    assert_eq!(extract_printed_date(html), Some("June 1, 2020".to_string()));
}

#[test]
fn printed_date_gives_up_after_five_paragraphs() {
    let filler = "<p>a</p>".repeat(5);
    let html = format!("{}<p>May 1, 2020</p>", filler);
    assert_eq!(extract_printed_date(&html), None);
    let nearer = format!("{}<p>May 1, 2020</p>", "<p>a</p>".repeat(4));
    assert_eq!(extract_printed_date(&nearer), Some("May 1, 2020".to_string()));
}

#[test]
fn printed_date_absent_when_no_paragraph_matches() {
    assert_eq!(extract_printed_date("<h4>T</h4><p>no date</p>"), None);
    assert_eq!(extract_printed_date("plain text"), None);
}

#[test]
fn body_preview_skips_blank_date_and_byline_paragraphs() {
    let html = "<p>   </p><p>By X</p><p>May 1, 2020</p><p>Body text</p>";
    assert_eq!(extract_body_preview(html), Some("Body text".to_string()));
}

#[test]
fn body_preview_absent_when_everything_is_skipped() {
    assert_eq!(extract_body_preview("<p>By X</p><p>May 1, 2020</p>"), None);
}

#[test]
fn subhead_is_extracted_and_nested_tags_are_stripped() {
    let html = "<h4 class=\"x\"><b>Hello</b> world</h4><p>body</p>";
    assert_eq!(extract_subhead(html), Some("Hello world".to_string()));
}

#[test]
fn subhead_absent_without_h4() {
    assert_eq!(extract_subhead("<p>No heading</p>"), None);
    assert_eq!(extract_subhead(""), None);
}

#[test]
fn subhead_absent_when_closing_tag_is_missing() {
    assert_eq!(extract_subhead("<h4>never closed"), None);
}

#[test]
fn strip_tags_drops_markup_and_trims() {
    assert_eq!(strip_tags("a<b>c</b>d"), "acd");
    assert_eq!(strip_tags("<p>  hi  </p>"), "hi");
    assert_eq!(strip_tags("   "), "");
    assert_eq!(strip_tags("plain"), "plain");
}

#[test]
fn strip_tags_keeps_text_outside_unclosed_tags() {
    assert_eq!(strip_tags("ab<never closed"), "ab");
}

#[test]
fn strip_tags_passes_non_ascii_through() {
    assert_eq!(strip_tags("\u{e9}<b>\u{fc}</b>"), "\u{e9}\u{fc}");
}

#[test]
fn locator_returns_inner_text_and_resume_offset() {
    assert_eq!(
        extract_between("a<p>b</p>c", "<p", "</p>", 0),
        Some((">b".to_string(), 9))
    );
    assert_eq!(extract_between("a<p>b</p>c", "<p", "</p>", 2), None);
    assert_eq!(extract_between("no markers", "<p", "</p>", 0), None);
    assert_eq!(extract_between("<p>x", "<p", "</p>", 0), None);
}

#[test]
fn locator_offset_past_end_finds_nothing() {
    assert_eq!(extract_between("<p>b</p>", "<p", "</p>", 50), None);
}

#[test]
fn find_at_reports_first_occurrence() {
    let h: Vec<char> = "hello".chars().collect();
    let p: Vec<char> = "ll".chars().collect();
    assert_eq!(find_at(&h, &p, 0), Some(2));
    assert_eq!(find_at(&h, &p, 3), None);
    assert_eq!(find_at(&h, &str_to_chars("z"), 0), None);
}

#[test]
fn str_helpers_round_trip() {
    let v = str_to_chars("ab\u{e9}");
    assert_eq!(v, vec!['a', 'b', '\u{e9}']);
    assert!(str_eq("same text", "same text"));
    assert!(!str_eq("same text", "same text "));
}

#[test]
fn printed_date_tolerates_a_paragraph_tag_that_never_ends() {
    // the opening tag has no `>`, so the whole inner span is treated
    // as the paragraph text
    assert_eq!(
        extract_printed_date("<p May 1, 2020</p>"),
        Some("May 1, 2020".to_string())
    );
}

