use commonmark_blocks::parser::helpers::{
    calculate_indent, is_blank_str, join, lines_of, remove_indent, trimmed, CharClass,
};

#[test]
fn whitespace_class_is_the_unicode_property() {
    let mut c = '\0';
    loop {
        assert_eq!(CharClass::Whitespace.matches(c), c.is_whitespace(), "char: {:?}", c);
        if c == char::MAX {
            break;
        }
        c = char::from_u32(c as u32 + 1).unwrap_or('\u{e000}');
    }
}

#[test]
fn the_other_classes_hold_what_they_name() {
    for c in ['0', '5', '9'] {
        assert!(CharClass::Digit.matches(c));
    }
    for c in ['/', ':', 'a', ' ', '٣'] {
        assert!(!CharClass::Digit.matches(c));
    }
    assert!(CharClass::Exactly('#').matches('#'));
    assert!(!CharClass::Exactly('#').matches('='));
    assert!(CharClass::Except('\n').matches('#'));
    assert!(!CharClass::Except('\n').matches('\n'));
}

#[test]
fn lines_of_splits_like_the_standard_library() {
    let inputs = [
        "",
        "a",
        "a\n",
        "a\nb",
        "a\n\nb\n",
        "\n",
        "\n\n",
        "a\r\nb",
        "a\r\nb\r\n",
        "a\r",
        "a\rb\n",
        "\r\n",
        "\r",
        "a\r\r\nb",
        "안녕\n🎉\r\n끝",
    ];
    for input in inputs {
        let expected: Vec<String> = input.lines().map(String::from).collect();
        assert_eq!(lines_of(input), expected, "input: {:?}", input);
    }
}

#[test]
fn lines_of_gives_exact_lines() {
    assert_eq!(lines_of("a\r\nb\r"), vec![String::from("a"), String::from("b\r")]);
    assert_eq!(lines_of("\n x \n"), vec![String::new(), String::from(" x ")]);
    assert!(lines_of("").is_empty());
}

#[test]
fn trimmed_trims_like_the_standard_library() {
    let inputs = [
        "",
        " ",
        "a",
        "  a  ",
        "\t a b \r",
        "\u{a0}a\u{3000}",
        " \u{2003}안 녕\u{205f} ",
        "\u{200b}a",
        "   ",
    ];
    for input in inputs {
        assert_eq!(trimmed(input), input.trim(), "input: {:?}", input);
        assert_eq!(is_blank_str(input), input.trim().is_empty(), "input: {:?}", input);
    }
}

#[test]
fn join_puts_a_newline_between_neighbours() {
    assert_eq!(join(&vec![]), "");
    assert_eq!(join(&vec![String::from("a")]), "a");
    assert_eq!(join(&vec![String::new()]), "");
    assert_eq!(join(&vec![String::new(), String::new()]), "\n");
    assert_eq!(join(&vec![String::from("a"), String::new(), String::from("b")]), "a\n\nb");
}

#[test]
fn indentation_counts_a_tab_as_four_columns() {
    assert_eq!(calculate_indent(" \t x"), 6);
    assert_eq!(calculate_indent("\u{a0} x"), 0);
    assert_eq!(calculate_indent("x  "), 0);
}

#[test]
fn remove_indent_removes_spaces_only() {
    assert_eq!(remove_indent("   x", 2), " x");
    assert_eq!(remove_indent(" \t x", 3), "\t x");
    assert_eq!(remove_indent("안녕", 3), "안녕");
}
