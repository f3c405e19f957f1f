use regex::Regex;
use rdocs::pattern::{Pattern, DEFAULT_CLEANUP, DEFAULT_END, DEFAULT_START};

#[test]
fn default_pattern() {
    let pattern = Pattern::default();
    assert_eq!(pattern.start.as_str(), r"//\s*📖\s*#START");
    assert_eq!(pattern.end.as_str(), r"//\s*📖\s*#END");
    assert_eq!(pattern.cleanups.len(), 1);
    assert_eq!(pattern.cleanups[0].as_str(), r"//!");
    assert_eq!(pattern.start.as_str(), DEFAULT_START);
    assert_eq!(pattern.end.as_str(), DEFAULT_END);
    assert_eq!(pattern.cleanups[0].as_str(), DEFAULT_CLEANUP);
}

#[test]
fn is_start_with() {
    let pattern = Pattern::default();
    assert!(pattern.start_with("   // 📖 #START"));
    assert!(pattern.start_with("// 📖   #START"));
    assert!(pattern.start_with("//📖#START <>"));
    assert!(!pattern.start_with("//📖"));
}

#[test]
fn is_end_with() {
    let pattern = Pattern::default();
    assert!(pattern.end_with("   // 📖 #END"));
    assert!(pattern.end_with("// 📖   #END"));
    assert!(pattern.end_with("//📖#END <>"));
    assert!(!pattern.end_with("//📖"));
}

#[test]
fn can_cleanup() {
    let pattern = Pattern::default();
    let text = ["//!"];
    assert_eq!(text.len(), pattern.cleanups.len());
    assert_eq!(pattern.cleanup(&text.join(" ")), "");
}

#[test]
fn cleanup_applies_the_rules_in_their_order() {
    let pattern = Pattern {
        start: Regex::new("S").unwrap(),
        end: Regex::new("E").unwrap(),
        cleanups: vec![Regex::new("ab").unwrap(), Regex::new("cd").unwrap()],
    };
    // The first rule brings `c` and `d` together for the second.
    assert_eq!(pattern.cleanup("xcabdy"), "xy");
    let turned = Pattern {
        start: Regex::new("S").unwrap(),
        end: Regex::new("E").unwrap(),
        cleanups: vec![Regex::new("cd").unwrap(), Regex::new("ab").unwrap()],
    };
    assert_eq!(turned.cleanup("xcabdy"), "xcdy");
}

#[test]
fn cleanup_removes_every_match() {
    let pattern = Pattern::default();
    assert_eq!(pattern.cleanup("//! a\n//! b\n//!"), " a\n b\n");
}

#[test]
fn cleanup_keeps_a_text_that_no_rule_matches() {
    let pattern = Pattern::default();
    for text in ["", "fn main() {}", "// plain comment\n/// doc", "/ / !"] {
        assert!(pattern.cleanups.iter().all(|rule| !rule.is_match(text)));
        assert_eq!(pattern.cleanup(text), text);
    }
    let none = Pattern {
        start: Regex::new("S").unwrap(),
        end: Regex::new("E").unwrap(),
        cleanups: vec![],
    };
    assert_eq!(none.cleanup("//! kept"), "//! kept");
}

#[test]
fn markers_are_searched_anywhere_in_the_line() {
    let pattern = Pattern {
        start: Regex::new(r"#START").unwrap(),
        end: Regex::new(r"^#END$").unwrap(),
        cleanups: vec![],
    };
    assert!(pattern.start_with("code(); // #START here"));
    assert!(!pattern.start_with("#start"));
    assert!(pattern.end_with("#END"));
    assert!(!pattern.end_with(" #END"));
}
