use errorvec::render::{decimal_string, render_messages, trim_end, white_space};

#[test]
fn decimal_string_writes_the_number() {
    assert_eq!(decimal_string(0), "0");
    assert_eq!(decimal_string(7), "7");
    assert_eq!(decimal_string(10), "10");
    assert_eq!(decimal_string(109), "109");
    assert_eq!(decimal_string(1234567890), "1234567890");
    assert_eq!(decimal_string(usize::MAX), format!("{}", usize::MAX));
}

#[test]
fn decimal_string_agrees_with_formatting() {
    for n in 0..2000usize {
        assert_eq!(decimal_string(n), format!("{}", n));
    }
}

#[test]
fn white_space_is_what_std_calls_so() {
    for c in '\0'..=char::MAX {
        assert_eq!(white_space(c), c.is_whitespace(), "at {:?}", c);
    }
}

#[test]
fn white_space_by_example() {
    assert!(white_space(' '));
    assert!(white_space('\n'));
    assert!(white_space('\t'));
    assert!(white_space('\u{85}'));
    assert!(white_space('\u{2028}'));
    assert!(!white_space('a'));
    assert!(!white_space('\u{200b}'));
    assert!(!white_space('\u{8}'));
}

#[test]
fn trim_end_cuts_only_the_end() {
    assert_eq!(trim_end(""), "");
    assert_eq!(trim_end("   "), "");
    assert_eq!(trim_end("abc"), "abc");
    assert_eq!(trim_end("  abc  "), "  abc");
    assert_eq!(trim_end("a b\tc\n\r\n"), "a b\tc");
    assert_eq!(trim_end("caf\u{e9} \u{2003}\u{3000}"), "caf\u{e9}");
    assert_eq!(trim_end("\u{1f600}\n"), "\u{1f600}");
    assert_eq!(trim_end("x\u{200b}"), "x\u{200b}");
}

#[test]
fn trim_end_agrees_with_std() {
    let samples = [
        "",
        " ",
        "\n",
        "a",
        "a ",
        " a",
        " a \n b \n",
        "tab\t",
        "\u{1680}x\u{1680}",
        "x\u{2000}\u{200a}\u{202f}\u{205f}",
        "\u{4e2d}\u{6587}\u{3000}",
        "no such file\r\n",
    ];
    for sample in samples {
        assert_eq!(trim_end(sample), sample.trim_end());
    }
}

#[test]
fn render_messages_labels_and_separates() {
    assert_eq!(render_messages(&Vec::new()), "");
    assert_eq!(render_messages(&vec!["a".to_string()]), "[error 1 of 1] a\n");
    assert_eq!(
        render_messages(&vec!["a\n".to_string(), "b".to_string(), " c ".to_string()]),
        "[error 1 of 3] a\n\n[error 2 of 3] b\n\n[error 3 of 3]  c\n",
    );
}

#[test]
fn render_messages_twice_gives_the_same_text() {
    let messages = vec!["x  ".to_string(), "y".to_string()];
    assert_eq!(render_messages(&messages), render_messages(&messages));
    assert_eq!(messages, vec!["x  ".to_string(), "y".to_string()]);
}
