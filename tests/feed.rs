use realworld_feed::error::FeedError;
use realworld_feed::feed::{
    may_have_next_page, plan_feed, ArticleRecord, ArticleStore, ArticleSummary, Author, FeedFilter,
    FeedPlan, FeedTarget,
};
use realworld_feed::pagination::Pagination;

fn record(slug: &str, author: &str, tags: &[&str]) -> ArticleRecord {
    ArticleRecord {
        slug: slug.to_string(),
        title: format!("Title {slug}"),
        description: format!("About {slug}"),
        body: format!("Body of {slug}"),
        created_at: "01/01/2025 10:00".to_string(),
        author: author.to_string(),
        author_image: if author == "bob" { Some("bob.png".to_string()) } else { None },
        tag_list: tags.iter().map(|t| t.to_string()).collect(),
        comments_count: 2,
    }
}

fn store_with(n: usize) -> ArticleStore {
    let mut store = ArticleStore::new();
    for i in 0..n {
        let author = if i % 2 == 0 { "alice" } else { "bob" };
        let tags: &[&str] = if i % 3 == 0 { &["rust", "web"] } else { &["go"] };
        assert!(store.add_article(record(&format!("a{i}"), author, tags)));
    }
    store
}

fn slugs(v: &[ArticleSummary]) -> Vec<String> {
    v.iter().map(|s| s.slug.clone()).collect()
}

fn page(page: u32, amount: u32) -> Pagination {
    Pagination::new(page, amount, String::new(), false)
}

#[test]
fn global_feed_pages_newest_first() {
    let store = store_with(25);
    let first = store.resolve_feed(&page(0, 10), None, &FeedTarget::Global).unwrap();
    let expected: Vec<String> = (15..25).rev().map(|i| format!("a{i}")).collect();
    assert_eq!(slugs(&first), expected);
    let second = store.resolve_feed(&page(1, 10), None, &FeedTarget::Global).unwrap();
    let expected: Vec<String> = (5..15).rev().map(|i| format!("a{i}")).collect();
    assert_eq!(slugs(&second), expected);
    let third = store.resolve_feed(&page(2, 10), None, &FeedTarget::Global).unwrap();
    let expected: Vec<String> = (0..5).rev().map(|i| format!("a{i}")).collect();
    assert_eq!(slugs(&third), expected);
    let beyond = store.resolve_feed(&page(3, 10), None, &FeedTarget::Global).unwrap();
    assert!(beyond.is_empty());
}

#[test]
fn favorited_profile_is_public_and_anonymous_has_no_favorites() {
    let mut store = store_with(6);
    assert_eq!(store.toggle_favorite(Some("bob"), "a1"), Ok(true));
    assert_eq!(store.toggle_favorite(Some("bob"), "a4"), Ok(true));
    assert_eq!(store.toggle_favorite(Some("carol"), "a4"), Ok(true));
    let target = FeedTarget::for_profile("bob".to_string(), true);
    let feed = store.resolve_feed(&page(0, 10), None, &target).unwrap();
    assert_eq!(slugs(&feed), vec!["a4".to_string(), "a1".to_string()]);
    assert!(feed.iter().all(|s| !s.fav));
    assert_eq!(feed[0].favorites_count, 2);
    assert_eq!(feed[1].favorites_count, 1);
}

#[test]
fn following_feed_needs_a_caller() {
    let store = store_with(4);
    let r = store.resolve_feed(&page(0, 10), None, &FeedTarget::Following);
    assert_eq!(r.unwrap_err(), FeedError::AuthorizationFailure);
    assert_eq!(
        plan_feed(&page(0, 10), None, &FeedTarget::Following),
        Err(FeedError::AuthorizationFailure)
    );
}

#[test]
fn following_feed_lists_followed_authors() {
    let mut store = store_with(6);
    assert_eq!(store.toggle_follow(Some("carol"), "bob"), Ok(true));
    let feed = store
        .resolve_feed(&page(0, 10), Some("carol"), &FeedTarget::Following)
        .unwrap();
    assert_eq!(slugs(&feed), vec!["a5", "a3", "a1"]);
    assert!(feed.iter().all(|s| s.author.following));
    assert_eq!(feed[0].author.image, Some("bob.png".to_string()));
    let none = store
        .resolve_feed(&page(0, 10), Some("dave"), &FeedTarget::Following)
        .unwrap();
    assert!(none.is_empty());
}

#[test]
fn tag_and_author_feeds() {
    let store = store_with(7);
    let tagged = store
        .resolve_feed(&page(0, 10), None, &FeedTarget::TagFiltered("rust".to_string()))
        .unwrap();
    assert_eq!(slugs(&tagged), vec!["a6", "a3", "a0"]);
    assert_eq!(tagged[0].tag_list, vec!["rust".to_string(), "web".to_string()]);
    let by_alice = store
        .resolve_feed(&page(1, 2), None, &FeedTarget::for_profile("alice".to_string(), false))
        .unwrap();
    assert_eq!(slugs(&by_alice), vec!["a2", "a0"]);
}

#[test]
fn target_from_params_prefers_tag() {
    let both = Pagination::new(0, 10, "rust".to_string(), true);
    assert!(matches!(FeedTarget::from_params(&both), FeedTarget::TagFiltered(t) if t == "rust"));
    let feed = Pagination::new(0, 10, String::new(), true);
    assert!(matches!(FeedTarget::from_params(&feed), FeedTarget::Following));
    assert!(matches!(FeedTarget::from_params(&page(0, 10)), FeedTarget::Global));
}

#[test]
fn caller_sees_own_favorites_and_never_follows_self() {
    let mut store = store_with(2);
    store.toggle_favorite(Some("alice"), "a0").unwrap();
    store.toggle_follow(Some("alice"), "alice").unwrap();
    store.toggle_follow(Some("alice"), "bob").unwrap();
    let feed = store.resolve_feed(&page(0, 10), Some("alice"), &FeedTarget::Global).unwrap();
    assert_eq!(slugs(&feed), vec!["a1", "a0"]);
    assert!(!feed[0].fav && feed[0].author.following);
    assert!(feed[1].fav && !feed[1].author.following);
    assert_eq!(feed[1].comments_count, 2);
    assert_eq!(feed[1].title, "Title a0");
}

#[test]
fn toggles_need_caller_and_article() {
    let mut store = store_with(1);
    assert_eq!(store.toggle_favorite(None, "a0"), Err(FeedError::AuthorizationFailure));
    assert_eq!(store.toggle_favorite(Some("bob"), "nope"), Err(FeedError::NotFound));
    assert_eq!(store.toggle_follow(None, "bob"), Err(FeedError::AuthorizationFailure));
    assert_eq!(store.toggle_favorite(Some("bob"), "a0"), Ok(true));
    assert!(store.is_favorite("bob", "a0"));
    assert_eq!(store.toggle_favorite(Some("bob"), "a0"), Ok(false));
    assert!(!store.is_favorite("bob", "a0"));
    assert_eq!(store.toggle_follow(Some("bob"), "alice"), Ok(true));
    assert!(store.is_following("bob", "alice"));
}

#[test]
fn duplicate_slug_is_refused() {
    let mut store = store_with(1);
    assert!(store.has_article("a0"));
    assert!(!store.add_article(record("a0", "bob", &[])));
    assert_eq!(store.article_count(), 1);
    assert_eq!(store.article(0).author, "alice");
}

#[test]
fn plan_gives_filter_limit_and_offset() {
    assert_eq!(
        plan_feed(&page(3, 20), None, &FeedTarget::Global),
        Ok(FeedPlan { filter: FeedFilter::All, limit: 20, offset: 60 })
    );
    assert_eq!(
        plan_feed(&page(u32::MAX, u32::MAX), Some("carol"), &FeedTarget::Following),
        Ok(FeedPlan {
            filter: FeedFilter::FollowedBy("carol".to_string()),
            limit: u32::MAX,
            offset: (u32::MAX as u64) * (u32::MAX as u64),
        })
    );
    let tag = FeedTarget::TagFiltered("rust".to_string());
    assert_eq!(plan_feed(&page(0, 5), None, &tag).unwrap().filter, FeedFilter::TaggedWith("rust".to_string()));
    let mine = FeedTarget::for_profile("bob".to_string(), false);
    assert_eq!(plan_feed(&page(0, 5), None, &mine).unwrap().filter, FeedFilter::AuthoredBy("bob".to_string()));
    let favs = FeedTarget::for_profile("bob".to_string(), true);
    assert_eq!(
        plan_feed(&page(0, 5), Some("x"), &favs).unwrap().filter,
        FeedFilter::FavoritedBy("bob".to_string())
    );
}

#[test]
fn next_page_offered_after_full_page_only() {
    assert!(may_have_next_page(10, 10));
    assert!(!may_have_next_page(9, 10));
    assert!(!may_have_next_page(0, 0));
    assert!(may_have_next_page(3, 0));
}

fn summary(count: u64, fav: bool) -> ArticleSummary {
    ArticleSummary {
        slug: "s".to_string(),
        title: String::new(),
        description: String::new(),
        created_at: String::new(),
        comments_count: 0,
        favorites_count: count,
        fav,
        tag_list: vec![],
        author: Author { username: "u".to_string(), image: None, following: false },
    }
}

#[test]
fn favorite_result_flips_fav_and_moves_count() {
    let mut s = summary(1, false);
    s.apply_favorite_result(true);
    assert!(s.fav);
    assert_eq!(s.favorites_count, 2);
    s.apply_favorite_result(false);
    assert!(!s.fav);
    assert_eq!(s.favorites_count, 1);
    // The local state flips even when it already matched the result.
    let mut t = summary(4, true);
    t.apply_favorite_result(true);
    assert!(!t.fav);
    assert_eq!(t.favorites_count, 5);
}

#[test]
fn unfavorite_results_stop_count_at_zero() {
    let mut s = summary(2, true);
    for _ in 0..5 {
        s.apply_favorite_result(false);
    }
    assert_eq!(s.favorites_count, 0);
    assert!(!s.fav);
}
