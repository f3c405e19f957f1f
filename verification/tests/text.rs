use rdocs::text::{chars_of, is_space, join_lines, same_chars, split_lines, trim, trim_bounds};

#[test]
fn trim_drops_white_space_at_both_ends() {
    assert_eq!(trim("  \t a b\u{3000}\n"), "a b");
    assert_eq!(trim(" \n "), "");
    assert_eq!(trim(""), "");
    assert_eq!(trim("x"), "x");
    assert_eq!(trim("\u{a0}x y\u{2028}"), "x y");
}

#[test]
fn trim_agrees_with_the_standard_library() {
    let samples = [
        "",
        " ",
        "a",
        " a",
        "a ",
        "\n\na\tb\r\n",
        "\u{85}\u{1680}word\u{2000}\u{200a}",
        "\u{200b}kept\u{200b}",
        "  //! doc  ",
        "\u{feff}bom",
        "\u{2029}\u{202f}\u{205f}x\u{3000}",
        "\u{b}\u{c}x\u{1c}",
    ];
    for s in samples {
        assert_eq!(trim(s), s.trim());
    }
}

#[test]
fn trimming_twice_is_trimming_once() {
    for s in ["  a  b  ", "\n\n", "x", "\t//!\t"] {
        let once = trim(s);
        assert_eq!(trim(&once), once);
    }
}

#[test]
fn white_space_is_what_the_standard_library_takes_for_it() {
    let mut n: u32 = 0;
    while n <= 0x10ffff {
        if let Some(c) = char::from_u32(n) {
            assert_eq!(is_space(c), c.is_whitespace(), "U+{:04X}", n);
        }
        n += 1;
    }
}

#[test]
fn trim_bounds_name_the_trimmed_part() {
    let text = chars_of("  ab c ");
    assert_eq!(trim_bounds(&text), (2, 6));
    let blank = chars_of("   ");
    let (a, b) = trim_bounds(&blank);
    assert_eq!(a, b);
    assert_eq!(trim_bounds(&[]), (0, 0));
}

#[test]
fn chars_of_keeps_every_character() {
    assert_eq!(chars_of("a📖b"), vec!['a', '📖', 'b']);
    assert!(chars_of("").is_empty());
}

#[test]
fn same_chars_compares_texts() {
    assert!(same_chars(&['a', 'b'], &['a', 'b']));
    assert!(!same_chars(&['a', 'b'], &['a', 'c']));
    assert!(!same_chars(&['a'], &['a', 'b']));
    assert!(same_chars(&[], &[]));
}

#[test]
fn lines_end_with_a_line_feed_or_with_the_text() {
    assert_eq!(split_lines("a\nb"), vec!["a", "b"]);
    assert_eq!(split_lines("a\nb\n"), vec!["a", "b"]);
    assert_eq!(split_lines("a\r\nb\r\n"), vec!["a", "b"]);
    assert_eq!(split_lines("\n\nx"), vec!["", "", "x"]);
    assert_eq!(split_lines("a\rb\n"), vec!["a\rb"]);
    assert_eq!(split_lines("a\r\r\n"), vec!["a\r"]);
    assert_eq!(split_lines("last\r"), vec!["last\r"]);
    assert!(split_lines("").is_empty());
    assert_eq!(split_lines("\n"), vec![""]);
}

#[test]
fn lines_agree_with_the_standard_library() {
    let samples = [
        "",
        "\n",
        "\r\n",
        "one",
        "one\n",
        "one\ntwo",
        "one\r\ntwo\r\n\r\n",
        "\r",
        "a\r\rb\n\r",
        "📖 #START\n//! text\n📖 #END\n",
    ];
    for s in samples {
        let wanted: Vec<String> = s.lines().map(|l| l.to_string()).collect();
        assert_eq!(split_lines(s), wanted);
    }
}

#[test]
fn join_puts_a_line_feed_between_lines() {
    let joined = |lines: &[&str]| -> String {
        let lines: Vec<String> = lines.iter().map(|l| l.to_string()).collect();
        join_lines(&lines).into_iter().collect()
    };
    assert_eq!(joined(&[]), "");
    assert_eq!(joined(&["a"]), "a");
    assert_eq!(joined(&["a", "b"]), "a\nb");
    assert_eq!(joined(&["", "", "x", ""]), "\n\nx\n");
}
