use realworld_feed::pagination::Pagination;

fn params(page: u32, amount: u32, tag: &str, my_feed: bool) -> Pagination {
    Pagination::new(page, amount, tag.to_string(), my_feed)
}

#[test]
fn decode_reads_page_amount_and_tag() {
    let p = Pagination::decode("page=2&amount=20&tag=rust");
    assert_eq!(p, params(2, 20, "rust", false));
    let again = Pagination::decode(&p.encode());
    assert_eq!(again, p);
}

#[test]
fn encode_gives_canonical_query() {
    assert_eq!(params(2, 20, "rust", false).encode(), "?page=2&amount=20&tag=rust");
    assert_eq!(params(0, 10, "", false).encode(), "?amount=10");
    assert_eq!(params(3, 5, "", true).encode(), "?page=3&amount=5&my_feed=true");
}

#[test]
fn empty_query_equals_explicit_defaults() {
    let empty = Pagination::decode("");
    let explicit = Pagination::decode("page=0&amount=10");
    assert_eq!(empty, explicit);
    assert_eq!(empty, params(0, 10, "", false));
    assert_eq!(Pagination::default(), empty);
}

#[test]
fn round_trip_of_several_parameter_sets() {
    let cases = vec![
        params(0, 10, "", false),
        params(7, 1, "", true),
        params(u32::MAX, u32::MAX, "a b&c=d%e+f", true),
        params(1, 100, "caf\u{e9}/?#", false),
        params(0, 0, "x", false),
    ];
    for p in cases {
        assert_eq!(Pagination::decode(&p.encode()), p);
    }
}

#[test]
fn tag_is_percent_encoded() {
    let p = params(0, 10, "a b&c", false);
    assert_eq!(p.encode(), "?amount=10&tag=a%20b%26c");
    assert_eq!(Pagination::decode("tag=a+b%2fc").get_tag(), "a b/c");
}

#[test]
fn non_ascii_tag_travels_as_utf8_escapes() {
    let p = params(0, 10, "caf\u{e9}", false);
    assert_eq!(p.encode(), "?amount=10&tag=caf%C3%A9");
    assert_eq!(Pagination::decode("tag=caf%C3%A9").get_tag(), "caf\u{e9}");
    assert_eq!(Pagination::decode("tag=caf%c3%a9").get_tag(), "caf\u{e9}");
    assert_eq!(Pagination::decode("tag=caf\u{e9}").get_tag(), "caf\u{e9}");
    assert_eq!(Pagination::decode("tag=%F0%9F%A6%80").get_tag(), "\u{1f980}");
}

#[test]
fn tag_of_invalid_utf8_takes_default() {
    assert_eq!(Pagination::decode("tag=%FF&page=2"), params(2, 10, "", false));
    assert_eq!(Pagination::decode("tag=%C3"), params(0, 10, "", false));
}

#[test]
fn leading_question_mark_and_unknown_keys() {
    let p = Pagination::decode("?favourites=true&page=4&x=1&amount=5");
    assert_eq!(p, params(4, 5, "", false));
}

#[test]
fn unreadable_values_take_defaults() {
    assert_eq!(Pagination::decode("page=abc&amount=-3"), params(0, 10, "", false));
    assert_eq!(Pagination::decode("page=99999999999"), params(0, 10, "", false));
    assert_eq!(Pagination::decode("page=5&page=x"), params(0, 10, "", false));
    assert_eq!(Pagination::decode("page&amount"), params(0, 10, "", false));
    assert_eq!(Pagination::decode("my_feed=yes"), params(0, 10, "", false));
    assert_eq!(Pagination::decode("my_feed=true").get_my_feed(), true);
    assert_eq!(Pagination::decode("tag=%zz%4").get_tag(), "%zz%4");
}

#[test]
fn later_pair_overrides_earlier() {
    assert_eq!(Pagination::decode("page=1&page=3").get_page(), 3);
    assert_eq!(Pagination::decode("amount=5&&amount=20").get_amount(), 20);
}

#[test]
fn amount_outside_usual_set_passes_through() {
    assert_eq!(Pagination::decode("amount=7").get_amount(), 7);
}

#[test]
fn previous_then_next_returns_to_page() {
    let p = params(3, 20, "rust", false);
    assert_eq!(p.clone().previous_page().next_page(), p);
    let first = params(0, 20, "rust", false);
    assert_eq!(first.clone().previous_page(), first);
    assert_eq!(p.clone().next_page().get_page(), 4);
}

#[test]
fn reset_with_page_and_set_amount() {
    let p = params(6, 5, "go", true);
    assert_eq!(p.clone().reset_page(), params(0, 5, "go", true));
    assert_eq!(p.clone().with_page(9), params(9, 5, "go", true));
    assert_eq!(p.reset_page().set_amount(100), params(0, 100, "go", true));
}

#[test]
fn set_tag_and_my_feed_keep_other_fields() {
    let p = params(3, 20, "", false);
    assert_eq!(p.clone().set_tag("rust".to_string()), params(3, 20, "rust", false));
    assert_eq!(p.set_my_feed(true), params(3, 20, "", true));
}

#[test]
fn favourites_flag_is_presence_only() {
    assert!(Pagination::favourites_requested("?page=1&favourites=true"));
    assert!(Pagination::favourites_requested("favourites"));
    assert!(Pagination::favourites_requested("amount=5&favourites=false"));
    assert!(!Pagination::favourites_requested("?page=1&amount=5"));
    assert!(!Pagination::favourites_requested(""));
    assert!(!Pagination::favourites_requested("tag=favourites&favourite=1"));
}
