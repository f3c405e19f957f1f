use regex::Regex;
use rdocs::errors::ParseError;
use rdocs::parser::{
    count_markers, finish, finish_all, tally, Config, Content, ContentBlock, ContentMetadata,
    ContentResults, MarkerCount, Parser,
};
use rdocs::pattern::Pattern;
use rdocs::scan::{classify, scan_lines, LineRole, PatternState};

fn get_test_pattern() -> Vec<Pattern> {
    vec![
        Pattern {
            start: Regex::new(r".*#START").unwrap(),
            end: Regex::new(r".*#END").unwrap(),
            cleanups: vec![Regex::new(r"```").unwrap()],
        },
        Pattern {
            start: Regex::new(r".*#PATTERN_2_START").unwrap(),
            end: Regex::new(r".*#PATTERN_2_END").unwrap(),
            cleanups: vec![Regex::new(r"//!").unwrap()],
        },
    ]
}

fn plain_pattern(start: &str, end: &str) -> Pattern {
    Pattern {
        start: Regex::new(start).unwrap(),
        end: Regex::new(end).unwrap(),
        cleanups: vec![],
    }
}

fn result(id: &str, data: &str) -> ContentResults {
    ContentResults { metadata: ContentMetadata { id: id.to_string() }, data: data.to_string() }
}

fn extract(text: &str, patterns: &Vec<Pattern>) -> Vec<ContentResults> {
    Content::new(text, patterns).unwrap().extract()
}

#[test]
fn can_create_new_content_instance() {
    let content = r"//#START
        pub fn test() {}
        //#END
        //#PATTERN_2_START
        pub fn test() bool{
           true
        }
        //#PATTERN_2_END
        #";
    let patterns = get_test_pattern();
    let created = Content::new(content, &patterns).unwrap();
    assert_eq!(created.expected_capture_count, 2);
    assert_eq!(created.text, content);
    assert_eq!(created.patterns.len(), 2);
    assert_eq!(created.patterns[0].start.as_str(), r".*#START");
    assert_eq!(created.patterns[1].end.as_str(), r".*#PATTERN_2_END");
}

#[test]
fn patter_not_equal() {
    let content = r"//#START
        pub fn test(){}
        //#
        //#PATTERN_2_START
        pub fn test() bool{
           true
        }
        //#PATTERN_2_END
        #";
    let patterns = get_test_pattern();
    match Content::new(content, &patterns) {
        Err(ParseError::PatterNotEqual { pattern_start, pattern_end }) => {
            assert_eq!(pattern_start, ".*#START");
            assert_eq!(pattern_end, ".*#END");
        }
        other => panic!("{:?}", other),
    }
}

#[test]
fn can_extract() {
    let content = r#"//#START <id: first example>
        pub fn test() {
             another_function(5);
        }
        fn another_function(x: i32) {
            println!("The value of x is: {x}");
        }
        //#END
        //#PATTERN_2_START <id: second pattern >
        pub fn test() bool{
           true
        }
        //#PATTERN_2_END
        //#START MISSING ID
        pub fn test() {}
        //#END
        "#;
    let patterns = get_test_pattern();
    let c = Content::new(content, &patterns).unwrap();
    assert_eq!(c.expected_capture_count, 3);
    assert_eq!(
        c.extract(),
        vec![
            result(
                "first example",
                "pub fn test() {\n             another_function(5);\n        }\n        fn another_function(x: i32) {\n            println!(\"The value of x is: {x}\");\n        }"
            ),
            result("second pattern", "pub fn test() bool{\n           true\n        }"),
        ]
    );
}

#[test]
fn one_block_with_its_identifier_and_content() {
    let patterns = vec![plain_pattern("//START", "//END")];
    let text = "//START <id:adding_numbers>\nfn add(a,b){a+b}\n//END";
    assert_eq!(extract(text, &patterns), vec![result("adding_numbers", "fn add(a,b){a+b}")]);
}

#[test]
fn results_come_by_pattern_and_then_by_occurrence() {
    let patterns = vec![plain_pattern("(?m)^#A", "(?m)^#a"), plain_pattern("(?m)^#B", "(?m)^#b")];
    let text = "#B <id:b1>\nfirst\n#b\n#A <id:a1>\nsecond\n#a\n#B <id:b2>\nthird\n#b\n#A <id:a2>\nfourth\n#a\n";
    assert_eq!(
        extract(text, &patterns),
        vec![
            result("a1", "second"),
            result("a2", "fourth"),
            result("b1", "first"),
            result("b2", "third"),
        ]
    );
}

#[test]
fn patterns_are_followed_independently() {
    let patterns = vec![plain_pattern("(?m)^#A", "(?m)^#a"), plain_pattern("(?m)^#B", "(?m)^#b")];
    // The markers of one pattern are plain lines to the other.
    let text = "#A <id:outer>\none\n#B <id:inner>\ntwo\n#b\nthree\n#a\n";
    assert_eq!(
        extract(text, &patterns),
        vec![result("outer", "one\n#B <id:inner>\ntwo\n#b\nthree"), result("inner", "two")]
    );
}

#[test]
fn there_is_one_result_for_each_labelled_start_marker() {
    let patterns = vec![plain_pattern("(?m)^#A", "(?m)^#a"), plain_pattern("(?m)^#B", "(?m)^#b")];
    let text = "#A <id:1>\n#a\n#A\n#a\n#B <id:2>\n#b\n#A <id:3>\nx\n#a\n#B no id\n#b\n";
    let labelled = text
        .lines()
        .filter(|line| line.contains("<id:"))
        .filter(|line| patterns.iter().any(|p| p.start_with(line)))
        .count();
    let results = extract(text, &patterns);
    assert_eq!(labelled, 3);
    assert_eq!(results.len(), labelled);
    assert_eq!(results, vec![result("1", ""), result("3", "x"), result("2", "")]);
}

#[test]
fn unbalanced_markers_fail_with_the_pattern_that_is_unbalanced() {
    let patterns = vec![plain_pattern("(?m)^#A", "(?m)^#a"), plain_pattern("(?m)^#B", "(?m)^#b")];
    let text = "#A <id:1>\nx\n#a\n#B <id:2>\ny\n";
    match Content::new(text, &patterns) {
        Err(ParseError::PatterNotEqual { pattern_start, pattern_end }) => {
            assert_eq!(pattern_start, "(?m)^#B");
            assert_eq!(pattern_end, "(?m)^#b");
        }
        other => panic!("{:?}", other),
    }
    let parser = Parser::with_config(Config { patterns });
    assert!(matches!(parser.extract_text(text), Err(ParseError::PatterNotEqual { .. })));
    assert!(parser.extract_content(&vec![text.to_string()]).is_empty());
}

#[test]
fn the_first_unbalanced_pattern_is_named() {
    let patterns = vec![
        plain_pattern("ok", "ok"),
        plain_pattern("one", "none"),
        plain_pattern("two", "never"),
    ];
    match Content::new("ok one two", &patterns) {
        Err(ParseError::PatterNotEqual { pattern_start, pattern_end }) => {
            assert_eq!(pattern_start, "one");
            assert_eq!(pattern_end, "none");
        }
        other => panic!("{:?}", other),
    }
}

#[test]
fn markers_are_counted_in_the_whole_text() {
    let patterns = vec![plain_pattern("S", "E")];
    let content = Content::new("S S E\nE S\nE", &patterns).unwrap();
    assert_eq!(content.expected_capture_count, 3);
    let none = Content::new("nothing here", &patterns).unwrap();
    assert_eq!(none.expected_capture_count, 0);
    let no_patterns: Vec<Pattern> = vec![];
    assert_eq!(Content::new("S", &no_patterns).unwrap().expected_capture_count, 0);
}

#[test]
fn a_start_marker_without_identifier_opens_nothing() {
    let patterns = vec![plain_pattern("(?m)^#A", "(?m)^#a")];
    assert!(extract("#A\nnot captured\n#a\n", &patterns).is_empty());
    assert!(extract("#A <id:open\nnot captured\n#a\n", &patterns).is_empty());
    assert_eq!(
        extract("#A\nlost\n#a\n#A <id:x>\nkept\n#a\n", &patterns),
        vec![result("x", "kept")]
    );
}

#[test]
fn a_start_marker_without_identifier_leaves_the_state_as_it_is() {
    let pattern = plain_pattern("(?m)^#A", "(?m)^#a");
    let mut state = PatternState::new();
    state.advance(classify(&pattern, "#A <id:x>"), "#A <id:x>", 0);
    state.advance(classify(&pattern, "one"), "one", 1);
    assert_eq!(state.counter(), 1);
    assert!(matches!(classify(&pattern, "#A"), LineRole::Skipped));
    state.advance(LineRole::Skipped, "#A", 2);
    assert_eq!(state.counter(), 1);
    assert_eq!(state.opened_at, Some(0));
    // The pattern is still open from the labelled marker, so the next line
    // goes to that block.
    state.advance(classify(&pattern, "two"), "two", 3);
    assert_eq!(
        state.blocks,
        vec![ContentBlock {
            metadata: ContentMetadata { id: "x".to_string() },
            lines: vec!["one".to_string(), "two".to_string()],
        }]
    );
}

#[test]
fn the_state_follows_the_roles_of_the_lines() {
    let mut state = PatternState::new();
    assert_eq!(state.counter(), 0);
    assert_eq!(state.opened_at, None);
    state.advance(LineRole::Plain, "before", 0);
    assert!(state.blocks.is_empty());
    state.advance(LineRole::Closes, "end", 1);
    assert!(state.blocks.is_empty());
    state.advance(LineRole::Opens(ContentMetadata { id: "a".to_string() }), "start", 2);
    assert_eq!(state.counter(), 1);
    assert_eq!(state.opened_at, Some(2));
    state.advance(LineRole::Plain, "x", 3);
    state.advance(LineRole::Closes, "end", 4);
    assert_eq!(state.opened_at, None);
    state.advance(LineRole::Plain, "between", 5);
    state.advance(LineRole::Opens(ContentMetadata { id: "b".to_string() }), "start", 6);
    state.advance(LineRole::Plain, "y", 7);
    assert_eq!(state.counter(), 2);
    assert_eq!(
        state.blocks,
        vec![
            ContentBlock {
                metadata: ContentMetadata { id: "a".to_string() },
                lines: vec!["x".to_string()],
            },
            ContentBlock {
                metadata: ContentMetadata { id: "b".to_string() },
                lines: vec!["y".to_string()],
            },
        ]
    );
}

#[test]
fn a_line_is_classified_by_the_start_marker_first() {
    let pattern = plain_pattern("#", "#END");
    assert!(matches!(classify(&pattern, "#END"), LineRole::Skipped));
    match classify(&pattern, "#END <id: both >") {
        LineRole::Opens(metadata) => assert_eq!(metadata.id, "both"),
        other => panic!("{:?}", other),
    }
    let pattern = plain_pattern("#START", "#END");
    assert!(matches!(classify(&pattern, "#END"), LineRole::Closes));
    assert!(matches!(classify(&pattern, "text <id:x>"), LineRole::Plain));
}

#[test]
fn a_start_marker_inside_an_open_block_ends_the_outer_block() {
    let patterns = vec![plain_pattern("(?m)^#A", "(?m)^#a")];
    let text = "#A <id:outer>\none\n#A <id:inner>\ntwo\n#a\nlost\n#a\n";
    assert_eq!(extract(text, &patterns), vec![result("outer", "one"), result("inner", "two")]);
}

#[test]
fn content_is_cleaned_and_then_trimmed() {
    let patterns = vec![Pattern::default()];
    let text = "// 📖 #START <id:intro>\n//! ## Introduction\n//!\n//!   indented\n// 📖 #END\n";
    assert_eq!(extract(text, &patterns), vec![result("intro", "## Introduction\n\n   indented")]);
}

#[test]
fn two_blocks_may_carry_the_same_identifier() {
    let patterns = vec![plain_pattern("(?m)^#A", "(?m)^#a")];
    let text = "#A <id:x>\none\n#a\n#A <id:x>\ntwo\n#a\n";
    assert_eq!(extract(text, &patterns), vec![result("x", "one"), result("x", "two")]);
}

#[test]
fn a_line_ends_with_a_line_feed_or_a_carriage_return_and_a_line_feed() {
    let patterns = vec![plain_pattern("(?m)^#A", "(?m)^#a")];
    let text = "#A <id:x>\r\none\r\ntwo\r\n#a\r\n";
    assert_eq!(extract(text, &patterns), vec![result("x", "one\ntwo")]);
}

#[test]
fn the_default_parser_extracts_by_the_default_pattern() {
    let text = "/// Function to add two numbers and return the result
//📖 #START <id:adding_numbers>
// remove this line
fn add_numbers(a: i32, b: i32) -> i32 {
    a + b
}
//📖 #END

// Function to greet a person by name
//📖 #START <id:greet_person>
fn greet_person(name: &str) {
    println!(\"Hello, {}! Welcome to the Rust example.\", name);
}
//📖 #END
";
    let wanted = vec![
        result(
            "adding_numbers",
            "// remove this line\nfn add_numbers(a: i32, b: i32) -> i32 {\n    a + b\n}",
        ),
        result(
            "greet_person",
            "fn greet_person(name: &str) {\n    println!(\"Hello, {}! Welcome to the Rust example.\", name);\n}",
        ),
    ];
    assert_eq!(Parser::new().extract_text(text).unwrap(), wanted);
    assert_eq!(Parser::default().extract_text(text).unwrap(), wanted);
    let config = Config::default();
    assert_eq!(config.patterns.len(), 1);
    assert_eq!(Parser::with_config(config).extract_text(text).unwrap(), wanted);
}

#[test]
fn a_file_without_start_markers_yields_nothing() {
    let parser = Parser::with_config(Config { patterns: vec![plain_pattern("^#A$", "^#a$")] });
    assert!(parser.extract_text("no markers\nat all\n").unwrap().is_empty());
    assert!(parser.extract_text("").unwrap().is_empty());
    // The markers are counted in the whole text, where `^` and `$` stand for
    // its two ends only: none is found, so the lines are not looked at.
    assert!(parser.extract_text("#A <id:x>\ncontent\n#a\n").unwrap().is_empty());
    let patterns = vec![plain_pattern("^#A$", "^#a$")];
    assert!(Content::new("x\n#A\n#a\n", &patterns).unwrap().extract().is_empty());
}

#[test]
fn files_are_extracted_each_on_its_own() {
    let parser = Parser::with_config(Config { patterns: vec![plain_pattern("#A", "#a")] });
    let files = vec![
        "#A <id:one>\n1\n#a\n".to_string(),
        "#A <id:broken>\nno end marker\n".to_string(),
        "nothing".to_string(),
        "#A <id:two>\n2\n#a\n#A <id:three>\n3\n#a\n".to_string(),
    ];
    assert_eq!(
        parser.extract_content(&files),
        vec![result("one", "1"), result("two", "2"), result("three", "3")]
    );
    assert!(parser.extract_content(&vec![]).is_empty());
}

fn block(id: &str, lines: &[&str]) -> ContentBlock {
    ContentBlock {
        metadata: ContentMetadata { id: id.to_string() },
        lines: lines.iter().map(|l| l.to_string()).collect(),
    }
}

#[test]
fn a_block_is_joined_cleaned_and_trimmed() {
    let pattern = Pattern::default();
    assert_eq!(finish(&pattern, &block("x", &[])), result("x", ""));
    assert_eq!(finish(&pattern, &block("x", &["//! one", "", "//!   two  "])), result("x", "one\n\n   two"));
    assert_eq!(finish(&pattern, &block("x", &["  ", "//!", " "])), result("x", ""));
    // A rule may match over the end of a line.
    let over_lines = Pattern {
        start: Regex::new("S").unwrap(),
        end: Regex::new("E").unwrap(),
        cleanups: vec![Regex::new("a\nb").unwrap()],
    };
    assert_eq!(finish(&over_lines, &block("x", &["1a", "b2"])), result("x", "12"));
    assert_eq!(
        finish_all(&pattern, &vec![block("a", &["//! 1"]), block("b", &["2 //!"])]),
        vec![result("a", "1"), result("b", "2")]
    );
    assert!(finish_all(&pattern, &vec![]).is_empty());
}

#[test]
fn the_content_of_a_result_is_trimmed() {
    let patterns = vec![Pattern::default()];
    let text = "// 📖 #START <id:a>\n\n  //! padded \t\n\n// 📖 #END\n// 📖 #START <id:b>\n// 📖 #END\n";
    let results = extract(text, &patterns);
    assert_eq!(results, vec![result("a", "padded"), result("b", "")]);
    for r in results {
        assert_eq!(r.data, r.data.trim());
    }
}

#[test]
fn one_pass_over_the_lines_serves_every_pattern() {
    let patterns = vec![plain_pattern("#A", "#a"), plain_pattern("#B", "#b")];
    let lines: Vec<String> =
        ["#A <id:1>", "x", "#B <id:2>", "#a", "y", "#B", "#b", "z"].iter().map(|l| l.to_string()).collect();
    let states = scan_lines(&patterns, &lines);
    assert_eq!(states.len(), 2);
    assert_eq!(states[0].blocks, vec![block("1", &["x", "#B <id:2>"])]);
    assert_eq!(states[0].opened_at, None);
    assert_eq!(states[1].blocks, vec![block("2", &["#a", "y"])]);
    assert_eq!(states[1].opened_at, None);
    let open = scan_lines(&patterns, &lines[..3].to_vec());
    assert_eq!(open[0].opened_at, Some(0));
    assert_eq!(open[1].opened_at, Some(2));
    assert!(scan_lines(&vec![], &lines).is_empty());
    let none = scan_lines(&patterns, &vec![]);
    assert!(none[0].blocks.is_empty() && none[1].blocks.is_empty());
}

#[test]
fn equal_counts_add_up_and_unequal_counts_fail() {
    let count = |start: usize, end: usize| MarkerCount { start, end };
    assert_eq!(tally(&vec![]), Ok(0));
    assert_eq!(tally(&vec![count(0, 0)]), Ok(0));
    assert_eq!(tally(&vec![count(1, 1), count(2, 2), count(0, 0)]), Ok(3));
    assert_eq!(tally(&vec![count(1, 1), count(2, 3), count(0, 1)]), Err(1));
    assert_eq!(tally(&vec![count(1, 0)]), Err(0));
    assert_eq!(tally(&vec![count(4, 4), count(0, 0), count(0, 7)]), Err(2));
    assert_eq!(tally(&vec![count(usize::MAX, usize::MAX), count(1, 1)]), Ok(usize::MAX));
    assert_eq!(tally(&vec![count(usize::MAX - 1, usize::MAX - 1), count(1, 1)]), Ok(usize::MAX));
}

#[test]
fn the_markers_of_each_pattern_are_counted() {
    let patterns = vec![plain_pattern("S", "E"), plain_pattern("(?m)^E", "x+")];
    assert_eq!(
        count_markers("S S E\nE S\nE xx x", &patterns),
        vec![MarkerCount { start: 3, end: 3 }, MarkerCount { start: 2, end: 2 }]
    );
    assert_eq!(
        count_markers("", &patterns),
        vec![MarkerCount { start: 0, end: 0 }, MarkerCount { start: 0, end: 0 }]
    );
    assert!(count_markers("S", &vec![]).is_empty());
}
