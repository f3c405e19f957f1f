use regex::Regex;
use rdocs::identifier::find_identifier;
use rdocs::parser::ContentMetadata;

#[test]
fn can_create_content_metadata() {
    assert_eq!(
        ContentMetadata::new("<id: second pattern >"),
        Some(ContentMetadata { id: "second pattern".to_string() })
    );
    assert!(ContentMetadata::new("<second pattern >").is_none());
}

#[test]
fn the_identifier_is_the_trimmed_value_of_the_first_token() {
    assert_eq!(find_identifier("//START <id:adding_numbers>"), Some("adding_numbers".to_string()));
    assert_eq!(find_identifier("<id:a><id:b>"), Some("a".to_string()));
    assert_eq!(find_identifier("<id:>"), Some(String::new()));
    assert_eq!(find_identifier("<id:   >"), Some(String::new()));
    assert_eq!(find_identifier("x <id:\u{a0}a b\t> y"), Some("a b".to_string()));
    assert_eq!(find_identifier("<id:<id:x>"), Some("<id:x".to_string()));
    assert_eq!(find_identifier("<<id:x>>"), Some("x".to_string()));
}

#[test]
fn a_line_without_a_closed_token_has_no_identifier() {
    assert_eq!(find_identifier(""), None);
    assert_eq!(find_identifier("//START MISSING ID"), None);
    assert_eq!(find_identifier("<id:open"), None);
    assert_eq!(find_identifier("<ID:x>"), None);
    assert_eq!(find_identifier("<id x>"), None);
    assert_eq!(find_identifier("<id"), None);
    assert_eq!(find_identifier("id:x>"), None);
}

#[test]
fn a_value_does_not_reach_over_a_line_feed() {
    assert_eq!(find_identifier("<id:a\nb>"), None);
    assert_eq!(find_identifier("<id:a\nb> <id:c>"), Some("c".to_string()));
    assert_eq!(find_identifier("<id:a\rb>"), Some("a\rb".to_string()));
}

#[test]
fn the_identifier_agrees_with_the_expression_of_the_token() {
    let token = Regex::new(r"(?:<id:(.*?)>)").unwrap();
    let samples = [
        "",
        "<id:x>",
        "<id: spaced out >",
        "<id:>",
        "<id:a><id:b>",
        "<id:<id:x>",
        "<id:a\nb>",
        "<id:a\nb> tail <id:c >",
        "<id:never closed",
        "<<id:x>>",
        "<i<id:d:>",
        "// 📖 #START <id:📖 emoji>",
        "<id:a>>",
        "<id:\n>",
        "<id",
        "<id:",
        ">:di<",
    ];
    for s in samples {
        let wanted = token
            .captures(s)
            .and_then(|c| c.get(1).map(|m| m.as_str().trim().to_string()));
        assert_eq!(find_identifier(s), wanted, "{:?}", s);
    }
}
