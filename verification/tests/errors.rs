use rdocs::errors::{decimal_text, ParseError, ReplacerError};

#[test]
fn a_number_is_written_in_decimal_notation() {
    assert_eq!(decimal_text(0), "0");
    assert_eq!(decimal_text(7), "7");
    assert_eq!(decimal_text(10), "10");
    assert_eq!(decimal_text(-1), "-1");
    assert_eq!(decimal_text(1203), "1203");
    assert_eq!(decimal_text(i32::MAX), "2147483647");
    assert_eq!(decimal_text(i32::MIN), "-2147483648");
    for n in [-100_000, -99, -10, -9, 9, 11, 99, 100, 101, 65_536, 999_999_999] {
        assert_eq!(decimal_text(n), n.to_string());
    }
}

#[test]
fn unbalanced_markers_are_reported_with_both_markers() {
    let error = ParseError::PatterNotEqual {
        pattern_start: ".*#START".to_string(),
        pattern_end: ".*#END".to_string(),
    };
    assert_eq!(error.message(), "Start: `.*#START`, End: `.*#END`");
}

#[test]
fn a_missing_group_is_reported_with_its_position() {
    assert_eq!(
        ReplacerError::CaptureNotFound { index: 3 }.message(),
        "Capture not found in position: 3"
    );
    assert_eq!(
        ReplacerError::CaptureNotFound { index: -12 }.message(),
        "Capture not found in position: -12"
    );
}

#[test]
fn an_expression_that_does_not_compile_is_reported_as_the_crate_reports_it() {
    let error = regex::Regex::new("a(b").unwrap_err();
    let wanted = error.to_string();
    assert!(wanted.contains("unclosed group"));
    assert_eq!(ReplacerError::Regex(error).message(), wanted);
}

#[test]
fn an_input_or_output_error_is_reported_as_the_system_reports_it() {
    let error = || std::io::Error::new(std::io::ErrorKind::NotFound, "no such document");
    assert_eq!(ParseError::IO(error()).message(), "no such document");
    assert_eq!(ReplacerError::IO(error()).message(), "no such document");
}
