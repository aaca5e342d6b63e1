use article_annotator::{
    find_article, ArticleStore, Claims, CreativeType, JournalismArticle, MediaCategory,
    MediaContext, ModelCount, Origin,
};

fn sample(slug: &str, title: &str) -> JournalismArticle {
    JournalismArticle {
        slug: slug.to_string(),
        title: title.to_string(),
        iso_date: "2024-05-03".to_string(),
        display_date: "May 3, 2024".to_string(),
        source_url: "http://example.test/a".to_string(),
        content_html: "<h4>Sub</h4><p>May 3, 2024</p><p>Body</p>".to_string(),
        images: vec!["http://example.test/i.jpg".to_string()],
        captions: vec![],
        excerpt: "Body".to_string(),
        byline: Some("Jane Doe".to_string()),
    }
}

#[test]
fn find_article_returns_the_first_match() {
    let articles = vec![sample("a", "first"), sample("b", "second"), sample("b", "shadowed")];
    let hit = find_article(&articles, "b").unwrap();
    assert_eq!(hit.title, "second");
    assert_eq!(hit.slug, "b");
    assert_eq!(hit.images, vec!["http://example.test/i.jpg".to_string()]);
    assert_eq!(hit.byline, Some("Jane Doe".to_string()));
}

#[test]
fn find_article_misses_unknown_slugs() {
    let articles = vec![sample("a", "first")];
    assert!(find_article(&articles, "zzz").is_none());
    assert!(find_article(&Vec::new(), "a").is_none());
}

#[test]
fn article_store_keeps_its_articles_in_order() {
    let store = ArticleStore::new(vec![sample("a", "first"), sample("b", "second")]);
    let all = store.all_articles();
    assert_eq!(all.len(), 2);
    assert_eq!(all[0].slug, "a");
    assert_eq!(all[1].slug, "b");
}

#[test]
fn claims_carry_subject_and_expiry() {
    let c = Claims::new("user-1".to_string(), 1735689600);
    assert_eq!(c.sub, "user-1");
    assert_eq!(c.exp, 1735689600);
}

#[test]
fn record_enums_compare_and_clone() {
    assert_eq!(MediaCategory::Photography, MediaCategory::Photography.clone());
    assert_ne!(MediaContext::Personal, MediaContext::Professional);
    assert_eq!(CreativeType::Novel, CreativeType::Novel);
    let count = ModelCount { count: 3 };
    assert_eq!(count.clone().count, 3);
    let origin = Origin::Imported;
    assert!(matches!(origin.clone(), Origin::Imported));
}
