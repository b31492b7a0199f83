use realworld_feed::error::FeedError;
use realworld_feed::feed::{ArticleRecord, ArticleStore};
use realworld_feed::search::{plan_search, MatchedArticles, SearchPlan, SearchResult, SnippetStyle};

fn style(context: usize) -> SnippetStyle {
    SnippetStyle {
        open: "<b>".to_string(),
        close: "</b>".to_string(),
        ellipsis: "...".to_string(),
        context,
    }
}

fn article(slug: &str, title: &str, description: &str, body: &str) -> ArticleRecord {
    ArticleRecord {
        slug: slug.to_string(),
        title: title.to_string(),
        description: description.to_string(),
        body: body.to_string(),
        created_at: String::new(),
        author: "alice".to_string(),
        author_image: None,
        tag_list: vec![],
        comments_count: 0,
    }
}

fn library() -> ArticleStore {
    let mut store = ArticleStore::new();
    store.add_article(article("s1", "On ethics", "plain", "nothing"));
    store.add_article(article("s2", "Cooking", "food", "no match here"));
    store.add_article(article("s3", "Notes", "ethics and ethics", "text"));
    store.add_article(article("s4", "Other", "more", "business ethics matter"));
    store
}

#[test]
fn empty_search_is_refused() {
    let store = library();
    assert_eq!(store.search("", 0, 10, &style(20)).unwrap_err(), FeedError::ValidationFailure);
    assert_eq!(plan_search("", 0, 10), Err(FeedError::ValidationFailure));
}

#[test]
fn search_counts_and_marks_matches() {
    let store = library();
    let r = store.search("ethics", 0, 10, &style(20)).unwrap();
    assert_eq!(r.total_count, 3);
    assert_eq!(r.matches.len(), 3);
    let slugs: Vec<&str> = r.matches.iter().map(|m| m.slug.as_str()).collect();
    assert_eq!(slugs, vec!["s4", "s3", "s1"]);
    let s4 = &r.matches[0];
    assert_eq!(s4.title.as_deref(), Some("Other"));
    assert_eq!(s4.body.as_deref(), Some("business <b>ethics</b> matter"));
    let s3 = &r.matches[1];
    assert_eq!(s3.description.as_deref(), Some("<b>ethics</b> and <b>ethics</b>"));
    assert_eq!(s3.title.as_deref(), Some("Notes"));
    let s1 = &r.matches[2];
    assert_eq!(s1.title.as_deref(), Some("On <b>ethics</b>"));
    assert_eq!(s1.description.as_deref(), Some("plain"));
}

#[test]
fn matched_field_is_cut_around_first_match() {
    let mut store = ArticleStore::new();
    store.add_article(article("long", "t", "d", "0123456789 ethics 0123456789 ethics end"));
    let r = store.search("ethics", 0, 10, &style(3)).unwrap();
    assert_eq!(r.matches[0].body.as_deref(), Some("...89 <b>ethics</b> 01..."));
    assert_eq!(r.matches[0].title.as_deref(), Some("t"));
    let head = store.search("0123", 0, 10, &style(2)).unwrap();
    assert_eq!(head.matches[0].body.as_deref(), Some("<b>0123</b>45..."));
    let whole = store.search("end", 0, 10, &style(100)).unwrap();
    assert_eq!(
        whole.matches[0].body.as_deref(),
        Some("0123456789 ethics 0123456789 ethics <b>end</b>")
    );
}

#[test]
fn search_page_stays_within_amount_and_total() {
    let store = library();
    for amount in 0..5u32 {
        for p in 0..4u32 {
            let r = store.search("ethics", p, amount, &style(20)).unwrap();
            assert!(r.matches.len() <= amount as usize);
            assert!(r.matches.len() as u64 <= r.total_count);
            assert_eq!(r.total_count, 3);
        }
    }
    let second = store.search("ethics", 1, 2, &style(20)).unwrap();
    assert_eq!(second.matches.len(), 1);
    assert_eq!(second.matches[0].slug, "s1");
    let none = store.search("absent", 0, 10, &style(20)).unwrap();
    assert_eq!(none.total_count, 0);
    assert!(none.matches.is_empty());
}

#[test]
fn plan_search_gives_limit_and_offset() {
    assert_eq!(plan_search("x", 2, 20), Ok(SearchPlan { limit: 20, offset: 40 }));
}

fn result(total: u64, page: u32, amount: u32) -> SearchResult {
    SearchResult { total_count: total, page, amount, matches: vec![MatchedArticles::default()] }
}

#[test]
fn result_window_arithmetic() {
    let r = result(25, 0, 10);
    assert_eq!((r.first_shown(), r.last_shown()), (1, 10));
    assert!(r.has_next_page() && !r.has_previous_page());
    let r = result(25, 2, 10);
    assert_eq!((r.first_shown(), r.last_shown()), (21, 25));
    assert!(!r.has_next_page() && r.has_previous_page());
    let r = result(3, 0, 10);
    assert_eq!((r.first_shown(), r.last_shown()), (1, 3));
    assert!(!r.has_next_page());
    let r = result(20, 1, 10);
    assert_eq!(r.last_shown(), 20);
    assert!(!r.has_next_page());
    let copy = r.matches[0].clone_matched();
    assert_eq!(copy.slug, "");
}
