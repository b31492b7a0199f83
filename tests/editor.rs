use realworld_feed::editor::{
    validate_article, BODY_TOO_SHORT, DESCRIPTION_TOO_SHORT, TITLE_TOO_SHORT,
};

fn s(x: &str) -> String {
    x.to_string()
}

#[test]
fn short_fields_are_refused_in_order() {
    let r = validate_article(s("abc"), s("x"), s("y"), s(""));
    assert_eq!(r.unwrap_err(), TITLE_TOO_SHORT);
    let r = validate_article(s("abcd"), s("xyz"), s("y"), s(""));
    assert_eq!(r.unwrap_err(), DESCRIPTION_TOO_SHORT);
    let r = validate_article(s("abcd"), s("wxyz"), s("123456789"), s(""));
    assert_eq!(r.unwrap_err(), BODY_TOO_SHORT);
    assert_eq!(TITLE_TOO_SHORT, "You need to provide a title with at least 4 characters");
}

#[test]
fn lengths_count_bytes() {
    // Two characters of two bytes each make four bytes.
    let r = validate_article(s("\u{e9}\u{e9}"), s("desc"), s("0123456789"), s(""));
    assert!(r.is_ok());
}

#[test]
fn tags_are_distinct_words() {
    let a = validate_article(s("Title"), s("Desc"), s("Long enough body"), s("  rust web\trust\n go  "))
        .unwrap();
    assert_eq!(a.title, "Title");
    assert_eq!(a.description, "Desc");
    assert_eq!(a.body, "Long enough body");
    let mut tags = a.tag_list.clone();
    tags.sort();
    assert_eq!(tags, vec![s("go"), s("rust"), s("web")]);
    let none = validate_article(s("Title"), s("Desc"), s("Long enough body"), s(" \t ")).unwrap();
    assert!(none.tag_list.is_empty());
}
