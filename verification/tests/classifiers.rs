use commonmark_blocks::node::{ListType, Node};
use commonmark_blocks::parser::blockquote::{self, BlockquoteErr};
use commonmark_blocks::parser::code_block_fenced::{
    self, CodeBlockFencedContinueReason, CodeBlockFencedEndReason, CodeBlockFencedErr,
    CodeBlockFencedNotStartReason, CodeBlockFencedOk, CodeBlockFencedStart,
    CodeBlockFencedStartReason,
};
use commonmark_blocks::parser::code_block_indented::{
    self, CodeBlockIndentedNotStartReason, CodeBlockIndentedStart, CodeBlockIndentedStartReason,
};
use commonmark_blocks::parser::heading::{self, HeadingErr};
use commonmark_blocks::parser::heading_setext::{
    self, HeadingSetextNotStartReason, HeadingSetextStart, HeadingSetextStartReason, SetextLevel,
};
use commonmark_blocks::parser::helpers::{
    calculate_indent, count_leading_char, remove_indent, trim_blank_lines,
};
use commonmark_blocks::parser::list_item::{
    self, ItemLine, ListContinueReason, ListEndReason, ListItemNotStartReason, ListItemStart,
    ListItemStartReason, ListMarker,
};
use commonmark_blocks::parser::paragraph;
use commonmark_blocks::parser::thematic_break::{self, ThematicBreakErr};

#[test]
fn test_count_leading_char() {
    let cases: Vec<(&str, char, usize)> = vec![
        ("", ' ', 0),
        ("", '`', 0),
        ("abc", ' ', 0),
        ("abc", '`', 0),
        (" ", ' ', 1),
        ("  ", ' ', 2),
        ("  abc", ' ', 2),
        ("     ", ' ', 5),
        ("```", '`', 3),
        ("`````code", '`', 5),
        ("```rust", '`', 3),
        ("~~~", '~', 3),
        ("~~~~~", '~', 5),
        ("\tabc", ' ', 0),
        (" \tabc", ' ', 1),
        ("  a  ", ' ', 2),
    ];
    for (input, c, expected) in cases {
        assert_eq!(count_leading_char(input, c), expected, "input: {:?}", input);
    }
}

#[test]
fn test_remove_indent() {
    let cases: Vec<(&str, usize, &str)> = vec![
        ("  code", 2, "code"),
        ("    code", 4, "code"),
        ("    code", 2, "  code"),
        ("      code", 3, "   code"),
        ("code", 2, "code"),
        ("code", 0, "code"),
        ("  code", 5, "code"),
        ("  code", 100, "code"),
        ("  code", 0, "  code"),
        ("", 2, ""),
        ("", 0, ""),
        ("    ", 2, "  "),
        ("    ", 4, ""),
        ("    ", 10, ""),
        ("\tcode", 2, "\tcode"),
        ("  \tcode", 2, "\tcode"),
        ("  \tcode", 3, "\tcode"),
    ];
    for (input, n, expected) in cases {
        assert_eq!(remove_indent(input, n), expected, "input: {:?}", input);
    }
}

#[test]
fn test_calculate_indent() {
    let cases: Vec<(&str, usize)> = vec![
        ("", 0),
        (" ", 1),
        ("  ", 2),
        ("   ", 3),
        ("    ", 4),
        ("\t", 4),
        ("\t\t", 8),
        (" \t", 5),
        ("  \t", 6),
        ("\t ", 5),
        ("code", 0),
        (" code", 1),
        ("  code", 2),
        ("\tcode", 4),
        ("  \tcode", 6),
    ];
    for (input, expected) in cases {
        assert_eq!(calculate_indent(input), expected, "input: {:?}", input);
    }
}

fn strings(lines: &[&str]) -> Vec<String> {
    lines.iter().map(|s| s.to_string()).collect()
}

#[test]
fn test_trim_blank_lines() {
    let cases: Vec<(Vec<&str>, &str)> = vec![
        (vec![], ""),
        (vec![""], ""),
        (vec!["", ""], ""),
        (vec!["  "], ""),
        (vec!["", "code"], "code"),
        (vec!["", "", "code"], "code"),
        (vec!["  ", "code"], "code"),
        (vec!["code", ""], "code"),
        (vec!["code", "", ""], "code"),
        (vec!["code", "  "], "code"),
        (vec!["", "code", ""], "code"),
        (vec!["", "", "code", "", ""], "code"),
        (vec!["a", "", "b"], "a\n\nb"),
        (vec!["", "a", "", "b", ""], "a\n\nb"),
        (vec!["a"], "a"),
        (vec!["a", "b"], "a\nb"),
        (vec!["a", "b", "c"], "a\nb\nc"),
    ];
    for (input, expected) in cases {
        assert_eq!(trim_blank_lines(strings(&input)), expected, "input: {:?}", input);
    }
}

#[test]
fn thematic_break_reports_each_reason() {
    assert_eq!(thematic_break::parse("***"), Ok(Node::ThematicBreak));
    assert_eq!(thematic_break::parse("   - - -  "), Ok(Node::ThematicBreak));
    assert_eq!(thematic_break::parse("    ***"), Err(ThematicBreakErr::CodeBlockIndented));
    assert_eq!(thematic_break::parse("\t***"), Err(ThematicBreakErr::CodeBlockIndented));
    assert_eq!(thematic_break::parse(""), Err(ThematicBreakErr::Empty));
    assert_eq!(thematic_break::parse("   "), Err(ThematicBreakErr::Empty));
    assert_eq!(thematic_break::parse("+++"), Err(ThematicBreakErr::InvalidMarker));
    assert_eq!(thematic_break::parse("abc"), Err(ThematicBreakErr::InvalidMarker));
    assert_eq!(thematic_break::parse("**"), Err(ThematicBreakErr::InsufficientMarkers));
    assert_eq!(thematic_break::parse("- -"), Err(ThematicBreakErr::InsufficientMarkers));
    assert_eq!(thematic_break::parse("*-*"), Err(ThematicBreakErr::MixedCharacters));
    assert_eq!(thematic_break::parse("---a"), Err(ThematicBreakErr::MixedCharacters));
    assert_eq!(thematic_break::parse("-a"), Err(ThematicBreakErr::MixedCharacters));
}

#[test]
fn heading_reports_each_reason() {
    assert_eq!(heading::parse("# Title"), Ok(Node::heading(1, vec![Node::text("Title")])));
    assert_eq!(heading::parse("   ###### x ##"), Ok(Node::heading(6, vec![Node::text("x")])));
    assert_eq!(heading::parse("    # foo"), Err(HeadingErr::CodeBlockIndented));
    assert_eq!(heading::parse("foo"), Err(HeadingErr::NotHashStart));
    assert_eq!(heading::parse(""), Err(HeadingErr::NotHashStart));
    assert_eq!(heading::parse("####### x"), Err(HeadingErr::TooManyHashes));
    assert_eq!(heading::parse("#5 bolt"), Err(HeadingErr::NoSpaceAfterHashes));
}

#[test]
fn strip_closing_hashes_needs_a_gap_before_the_hashes() {
    assert_eq!(heading::strip_closing_hashes("foo ##"), "foo");
    assert_eq!(heading::strip_closing_hashes("foo\t#"), "foo");
    assert_eq!(heading::strip_closing_hashes("foo   ###"), "foo");
    assert_eq!(heading::strip_closing_hashes("foo#"), "foo#");
    assert_eq!(heading::strip_closing_hashes("foo"), "foo");
    assert_eq!(heading::strip_closing_hashes("###"), "");
    assert_eq!(heading::strip_closing_hashes(""), "");
    assert_eq!(heading::strip_closing_hashes("a ## b"), "a ## b");
}

fn started(level: SetextLevel) -> Result<HeadingSetextStartReason, HeadingSetextNotStartReason> {
    Ok(HeadingSetextStartReason::Started(HeadingSetextStart { level }))
}

#[test]
fn test_setext_try_start() {
    type Outcome = Result<HeadingSetextStartReason, HeadingSetextNotStartReason>;
    let cases: Vec<(&str, usize, Outcome)> = vec![
        ("=", 0, started(SetextLevel::Level1)),
        ("==", 0, started(SetextLevel::Level1)),
        ("===", 0, started(SetextLevel::Level1)),
        ("==========", 0, started(SetextLevel::Level1)),
        ("===   ", 0, started(SetextLevel::Level1)),
        ("-", 0, started(SetextLevel::Level2)),
        ("--", 0, started(SetextLevel::Level2)),
        ("---", 0, started(SetextLevel::Level2)),
        ("----------", 0, started(SetextLevel::Level2)),
        ("---   ", 0, started(SetextLevel::Level2)),
        ("===", 1, started(SetextLevel::Level1)),
        ("===", 2, started(SetextLevel::Level1)),
        ("===", 3, started(SetextLevel::Level1)),
        ("===", 4, Err(HeadingSetextNotStartReason::CodeBlockIndented)),
        ("===", 5, Err(HeadingSetextNotStartReason::CodeBlockIndented)),
        ("", 0, Err(HeadingSetextNotStartReason::Empty)),
        ("   ", 0, Err(HeadingSetextNotStartReason::Empty)),
        ("abc", 0, Err(HeadingSetextNotStartReason::NotUnderlineChar)),
        ("###", 0, Err(HeadingSetextNotStartReason::NotUnderlineChar)),
        ("= =", 0, Err(HeadingSetextNotStartReason::MixedChars)),
        ("- -", 0, Err(HeadingSetextNotStartReason::MixedChars)),
        ("== ==", 0, Err(HeadingSetextNotStartReason::MixedChars)),
        ("=-=", 0, Err(HeadingSetextNotStartReason::MixedChars)),
        ("==-", 0, Err(HeadingSetextNotStartReason::MixedChars)),
        ("=== bar", 0, Err(HeadingSetextNotStartReason::MixedChars)),
        ("--- foo", 0, Err(HeadingSetextNotStartReason::MixedChars)),
    ];
    for (line, indent, expected) in cases {
        assert_eq!(heading_setext::try_start(line, indent), expected, "line: {:?}", line);
    }
}

#[test]
fn test_setext_level_to_level() {
    assert_eq!(SetextLevel::Level1.to_level(), 1);
    assert_eq!(SetextLevel::Level2.to_level(), 2);
}

fn fence(c: char, len: usize, info: Option<&str>, indent: usize) -> CodeBlockFencedStart {
    CodeBlockFencedStart { fence_char: c, fence_len: len, info: info.map(String::from), indent }
}

#[test]
fn test_fenced_try_start() {
    let ok: Vec<(&str, CodeBlockFencedStart)> = vec![
        ("```", fence('`', 3, None, 0)),
        ("````", fence('`', 4, None, 0)),
        ("`````", fence('`', 5, None, 0)),
        ("~~~", fence('~', 3, None, 0)),
        ("~~~~", fence('~', 4, None, 0)),
        ("~~~~~", fence('~', 5, None, 0)),
        ("```rust", fence('`', 3, Some("rust"), 0)),
        ("~~~ python", fence('~', 3, Some("python"), 0)),
        ("```  rust  ", fence('`', 3, Some("rust"), 0)),
        ("```rust python", fence('`', 3, Some("rust python"), 0)),
        (" ```", fence('`', 3, None, 1)),
        ("  ```", fence('`', 3, None, 2)),
        ("   ```", fence('`', 3, None, 3)),
        ("   ```rust", fence('`', 3, Some("rust"), 3)),
    ];
    for (input, expected) in ok {
        assert_eq!(
            code_block_fenced::try_start(input),
            Ok(CodeBlockFencedStartReason::Started(expected.clone())),
            "input: {:?}",
            input
        );
        assert_eq!(
            code_block_fenced::parse(input, None),
            Ok(CodeBlockFencedOk::Start(expected)),
            "input: {:?}",
            input
        );
    }
    let err: Vec<(&str, CodeBlockFencedNotStartReason, CodeBlockFencedErr)> = vec![
        ("``", CodeBlockFencedNotStartReason::NoFence, CodeBlockFencedErr::NoFence),
        ("~~", CodeBlockFencedNotStartReason::NoFence, CodeBlockFencedErr::NoFence),
        (
            "    ```",
            CodeBlockFencedNotStartReason::CodeBlockIndented,
            CodeBlockFencedErr::CodeBlockIndented,
        ),
        ("code", CodeBlockFencedNotStartReason::NoFence, CodeBlockFencedErr::NoFence),
        ("", CodeBlockFencedNotStartReason::NoFence, CodeBlockFencedErr::NoFence),
        ("  ", CodeBlockFencedNotStartReason::NoFence, CodeBlockFencedErr::NoFence),
        ("``~", CodeBlockFencedNotStartReason::NoFence, CodeBlockFencedErr::NoFence),
    ];
    for (input, reason, error) in err {
        assert_eq!(code_block_fenced::try_start(input), Err(reason), "input: {:?}", input);
        assert_eq!(code_block_fenced::parse(input, None), Err(error), "input: {:?}", input);
    }
}

#[test]
fn test_fenced_try_end() {
    type Outcome = Result<CodeBlockFencedEndReason, CodeBlockFencedContinueReason>;
    let cases: Vec<(&str, char, usize, Outcome)> = vec![
        ("```", '`', 3, Ok(CodeBlockFencedEndReason::ClosingFence)),
        ("````", '`', 3, Ok(CodeBlockFencedEndReason::ClosingFence)),
        ("`````", '`', 3, Ok(CodeBlockFencedEndReason::ClosingFence)),
        ("~~~", '~', 3, Ok(CodeBlockFencedEndReason::ClosingFence)),
        ("~~~~", '~', 3, Ok(CodeBlockFencedEndReason::ClosingFence)),
        (" ```", '`', 3, Ok(CodeBlockFencedEndReason::ClosingFence)),
        ("  ```", '`', 3, Ok(CodeBlockFencedEndReason::ClosingFence)),
        ("   ```", '`', 3, Ok(CodeBlockFencedEndReason::ClosingFence)),
        ("```  ", '`', 3, Ok(CodeBlockFencedEndReason::ClosingFence)),
        ("~~~   ", '~', 3, Ok(CodeBlockFencedEndReason::ClosingFence)),
        ("``", '`', 3, Err(CodeBlockFencedContinueReason::FenceTooShort)),
        ("```", '`', 4, Err(CodeBlockFencedContinueReason::FenceTooShort)),
        ("~~~", '`', 3, Err(CodeBlockFencedContinueReason::FenceCharMismatch)),
        ("```", '~', 3, Err(CodeBlockFencedContinueReason::FenceCharMismatch)),
        ("    ```", '`', 3, Err(CodeBlockFencedContinueReason::TooMuchIndent)),
        ("```code", '`', 3, Err(CodeBlockFencedContinueReason::TextAfterFence)),
        ("``` x", '`', 3, Err(CodeBlockFencedContinueReason::TextAfterFence)),
    ];
    for (input, c, min_len, expected) in cases {
        assert_eq!(code_block_fenced::try_end(input, c, min_len), expected, "input: {:?}", input);
        let start = fence(c, min_len, None, 0);
        let role = code_block_fenced::parse(input, Some(&start));
        if expected.is_ok() {
            assert_eq!(role, Ok(CodeBlockFencedOk::End), "input: {:?}", input);
        } else {
            assert_eq!(
                role,
                Ok(CodeBlockFencedOk::Content(input.to_string())),
                "input: {:?}",
                input
            );
        }
    }
}

#[test]
fn fenced_content_loses_the_fences_indentation() {
    let start = fence('`', 3, None, 2);
    assert_eq!(
        code_block_fenced::parse("    code", Some(&start)),
        Ok(CodeBlockFencedOk::Content(String::from("  code")))
    );
    assert_eq!(
        code_block_fenced::parse(" code", Some(&start)),
        Ok(CodeBlockFencedOk::Content(String::from("code")))
    );
    assert_eq!(
        code_block_fenced::parse("  ``", Some(&start)),
        Ok(CodeBlockFencedOk::Content(String::from("``")))
    );
}

#[test]
fn fenced_finalize_joins_the_content() {
    assert_eq!(
        code_block_fenced::finalize(
            fence('~', 3, Some("sh"), 0),
            vec![String::from("a"), String::new(), String::from("b")]
        ),
        Node::code_block(Some("sh"), "a\n\nb")
    );
    assert_eq!(
        code_block_fenced::finalize(fence('`', 3, None, 0), vec![]),
        Node::code_block(None, "")
    );
}

#[test]
fn test_fenced_parse_text() {
    let cases: Vec<(&str, Option<(&str, Option<&str>)>)> = vec![
        ("```\ncode\n```", Some(("code", None))),
        ("```\nline1\nline2\n```", Some(("line1\nline2", None))),
        ("```\n\n```", Some(("", None))),
        ("``\ncode\n``", None),
        ("code", None),
        ("", None),
        ("```rust\ncode\n```", Some(("code", Some("rust")))),
        ("``` rust \ncode\n```", Some(("code", Some("rust")))),
        ("```rust python\ncode\n```", Some(("code", Some("rust python")))),
        ("~~~\ncode\n~~~", Some(("code", None))),
        ("~~~rust\ncode\n~~~", Some(("code", Some("rust")))),
        ("~~\ncode\n~~", None),
        ("`````\ncode\n`````", Some(("code", None))),
        ("```\ncode\n`````", Some(("code", None))),
        ("~~~~~\ncode\n~~~~~", Some(("code", None))),
        ("~~~\ncode\n```", Some(("code\n```", None))),
        ("```\ncode\n~~~", Some(("code\n~~~", None))),
        ("`````\ncode\n```", Some(("code\n```", None))),
        ("~~~~~\ncode\n~~~", Some(("code\n~~~", None))),
        ("```\ncode", Some(("code", None))),
        ("```rust\ncode", Some(("code", Some("rust")))),
        ("```\nline1\nline2", Some(("line1\nline2", None))),
        ("~~~\ncode", Some(("code", None))),
        ("```", Some(("", None))),
        ("  ```\n  code\n  ```", Some(("code", None))),
        ("   ```\n   code\n   ```", Some(("code", None))),
        ("  ```\n    code\n  ```", Some(("  code", None))),
        ("  ```\ncode\n  ```", Some(("code", None))),
        ("    ```\ncode\n```", None),
    ];
    for (input, expected) in cases {
        let result = code_block_fenced::parse_text(input);
        match expected {
            Some((content, info)) => {
                assert_eq!(result, Some(Node::code_block(info, content)), "input: {:?}", input)
            }
            None => assert_eq!(result, None, "input: {:?}", input),
        }
    }
}

#[test]
fn test_code_block_indented_basic() {
    let cases: Vec<(&str, &str)> =
        vec![("    code", "code"), ("     code", " code"), ("        code", "    code")];
    for (input, expected) in cases {
        assert_eq!(
            code_block_indented::try_start(input),
            Ok(CodeBlockIndentedStartReason::Started(CodeBlockIndentedStart {
                content: expected.to_string()
            })),
            "input: {:?}",
            input
        );
    }
    assert_eq!(
        code_block_indented::try_start("     "),
        Ok(CodeBlockIndentedStartReason::Started(CodeBlockIndentedStart {
            content: String::from(" ")
        }))
    );
}

#[test]
fn test_code_block_indented_not_start() {
    let cases: Vec<(&str, CodeBlockIndentedNotStartReason)> = vec![
        ("", CodeBlockIndentedNotStartReason::Empty),
        ("   ", CodeBlockIndentedNotStartReason::Empty),
        ("\t", CodeBlockIndentedNotStartReason::Empty),
        ("code", CodeBlockIndentedNotStartReason::InsufficientIndent),
        (" code", CodeBlockIndentedNotStartReason::InsufficientIndent),
        ("  code", CodeBlockIndentedNotStartReason::InsufficientIndent),
        ("   code", CodeBlockIndentedNotStartReason::InsufficientIndent),
        ("\tcode", CodeBlockIndentedNotStartReason::InsufficientIndent),
    ];
    for (input, expected) in cases {
        assert_eq!(code_block_indented::try_start(input), Err(expected), "input: {:?}", input);
    }
}

#[test]
fn blockquote_line_loses_its_marker() {
    assert_eq!(blockquote::parse("> foo"), Ok(String::from("foo")));
    assert_eq!(blockquote::parse(">foo"), Ok(String::from("foo")));
    assert_eq!(blockquote::parse(">  foo"), Ok(String::from(" foo")));
    assert_eq!(blockquote::parse(">\tfoo"), Ok(String::from("foo")));
    assert_eq!(blockquote::parse("   > foo  "), Ok(String::from("foo")));
    assert_eq!(blockquote::parse(">"), Ok(String::new()));
    assert_eq!(blockquote::parse("> "), Ok(String::new()));
    assert_eq!(blockquote::parse("> > x"), Ok(String::from("> x")));
    assert_eq!(blockquote::parse("    > foo"), Err(BlockquoteErr::CodeBlockIndented));
    assert_eq!(blockquote::parse("foo"), Err(BlockquoteErr::NotBlockquoteMarker));
    assert_eq!(blockquote::parse(""), Err(BlockquoteErr::NotBlockquoteMarker));
    assert_eq!(blockquote::parse("  "), Err(BlockquoteErr::NotBlockquoteMarker));
}

#[test]
fn blockquote_finalize_parses_the_joined_contents() {
    assert_eq!(
        blockquote::finalize(vec![String::from("# a"), String::from("b"), String::from("c")], 8),
        Node::blockquote(vec![
            Node::heading(1, vec![Node::text("a")]),
            Node::para(vec![Node::text("b\nc")]),
        ])
    );
    assert_eq!(blockquote::finalize(vec![], 8), Node::blockquote(vec![]));
    assert_eq!(
        blockquote::finalize(vec![String::from("> x")], 2),
        Node::blockquote(vec![Node::blockquote(vec![Node::para(vec![Node::text("x")])])])
    );
}

#[test]
fn blockquote_finalize_keeps_text_beyond_the_budget_as_a_paragraph() {
    assert_eq!(
        blockquote::finalize(vec![String::from("# a"), String::from("b")], 0),
        Node::blockquote(vec![Node::para(vec![Node::text("# a\nb")])])
    );
    assert_eq!(
        blockquote::finalize(vec![String::from("> x")], 1),
        Node::blockquote(vec![Node::blockquote(vec![Node::para(vec![Node::text("x")])])])
    );
    assert_eq!(
        blockquote::finalize(vec![String::from("> > x")], 1),
        Node::blockquote(vec![Node::blockquote(vec![Node::para(vec![Node::text("> x")])])])
    );
}

#[test]
fn blockquote_parse_text_needs_a_marker_on_the_first_line() {
    assert_eq!(
        blockquote::parse_text("> a\n> b", 4),
        Some(Node::blockquote(vec![Node::para(vec![Node::text("a\nb")])]))
    );
    assert_eq!(
        blockquote::parse_text("> a\n  b  ", 4),
        Some(Node::blockquote(vec![Node::para(vec![Node::text("a\nb")])]))
    );
    assert_eq!(
        blockquote::parse_text("> a\n    > b", 4),
        Some(Node::blockquote(vec![
            Node::para(vec![Node::text("a")]),
            Node::blockquote(vec![Node::para(vec![Node::text("b")])]),
        ]))
    );
    assert_eq!(blockquote::parse_text(">", 4), Some(Node::blockquote(vec![])));
    assert_eq!(blockquote::parse_text("a\n> b", 4), None);
    assert_eq!(blockquote::parse_text("    > a", 4), None);
    assert_eq!(blockquote::parse_text("", 4), None);
}

#[test]
fn paragraph_wraps_its_text() {
    assert_eq!(paragraph::parse("a\nb"), Node::para(vec![Node::text("a\nb")]));
    assert_eq!(paragraph::parse(""), Node::para(vec![Node::text("")]));
}

fn item_started(start: ListItemStart) -> Result<ListItemStartReason, ListItemNotStartReason> {
    Ok(ListItemStartReason::Started(start))
}

#[test]
fn test_try_start() {
    let cases: Vec<(&str, Result<ListItemStartReason, ListItemNotStartReason>)> = vec![
        ("-item", Err(ListItemNotStartReason::NotListMarker)),
        ("--item", Err(ListItemNotStartReason::NotListMarker)),
        ("1.item", Err(ListItemNotStartReason::NotListMarker)),
        ("- item", item_started(ListItemStart::bullet('-', 0, 2, "item"))),
        ("+ item", item_started(ListItemStart::bullet('+', 0, 2, "item"))),
        ("* item", item_started(ListItemStart::bullet('*', 0, 2, "item"))),
        (" - item", item_started(ListItemStart::bullet('-', 1, 3, "item"))),
        ("  - item", item_started(ListItemStart::bullet('-', 2, 4, "item"))),
        ("   - item", item_started(ListItemStart::bullet('-', 3, 5, "item"))),
        ("-  item", item_started(ListItemStart::bullet('-', 0, 3, "item"))),
        ("-   item", item_started(ListItemStart::bullet('-', 0, 4, "item"))),
        ("-    item", item_started(ListItemStart::bullet('-', 0, 5, "item"))),
        ("-     item", item_started(ListItemStart::bullet('-', 0, 5, " item"))),
        ("-", item_started(ListItemStart::bullet('-', 0, 1, ""))),
        ("+", item_started(ListItemStart::bullet('+', 0, 1, ""))),
        ("*", item_started(ListItemStart::bullet('*', 0, 1, ""))),
        ("-\titem", item_started(ListItemStart::bullet('-', 0, 1, "\titem"))),
        ("1. item", item_started(ListItemStart::ordered(1, '.', 0, 3, "item"))),
        ("2. item", item_started(ListItemStart::ordered(2, '.', 0, 3, "item"))),
        ("10. item", item_started(ListItemStart::ordered(10, '.', 0, 4, "item"))),
        ("123. item", item_started(ListItemStart::ordered(123, '.', 0, 5, "item"))),
        ("1) item", item_started(ListItemStart::ordered(1, ')', 0, 3, "item"))),
        ("2) item", item_started(ListItemStart::ordered(2, ')', 0, 3, "item"))),
        ("10) item", item_started(ListItemStart::ordered(10, ')', 0, 4, "item"))),
        (" 1. item", item_started(ListItemStart::ordered(1, '.', 1, 4, "item"))),
        ("  1. item", item_started(ListItemStart::ordered(1, '.', 2, 5, "item"))),
        ("   1. item", item_started(ListItemStart::ordered(1, '.', 3, 6, "item"))),
        ("1.  item", item_started(ListItemStart::ordered(1, '.', 0, 4, "item"))),
        ("1.   item", item_started(ListItemStart::ordered(1, '.', 0, 5, "item"))),
        ("123456789. ok", item_started(ListItemStart::ordered(123456789, '.', 0, 11, "ok"))),
        ("999999999) ok", item_started(ListItemStart::ordered(999999999, ')', 0, 11, "ok"))),
        ("0. ok", item_started(ListItemStart::ordered(0, '.', 0, 3, "ok"))),
        ("003. ok", item_started(ListItemStart::ordered(3, '.', 0, 5, "ok"))),
        ("1.", item_started(ListItemStart::ordered(1, '.', 0, 2, ""))),
        ("1)", item_started(ListItemStart::ordered(1, ')', 0, 2, ""))),
        ("    - item", Err(ListItemNotStartReason::CodeBlockIndented)),
        ("    1. item", Err(ListItemNotStartReason::CodeBlockIndented)),
        ("text", Err(ListItemNotStartReason::NotListMarker)),
        ("", Err(ListItemNotStartReason::NotListMarker)),
        ("1234567890. not ok", Err(ListItemNotStartReason::NotListMarker)),
        ("-1. not ok", Err(ListItemNotStartReason::NotListMarker)),
        ("a. item", Err(ListItemNotStartReason::NotListMarker)),
        ("1: item", Err(ListItemNotStartReason::NotListMarker)),
        ("1", Err(ListItemNotStartReason::NotListMarker)),
        ("- 안녕", item_started(ListItemStart::bullet('-', 0, 2, "안녕"))),
    ];
    for (input, expected) in cases {
        assert_eq!(list_item::try_start(input), expected, "input: {:?}", input);
    }
}

#[test]
fn test_try_end() {
    let dot = ListMarker::Ordered { start: 1, delimiter: '.' };
    let paren = ListMarker::Ordered { start: 1, delimiter: ')' };
    type Outcome = Result<ListEndReason, ListContinueReason>;
    let cases: Vec<(&str, ListMarker, usize, usize, Outcome)> = vec![
        ("", ListMarker::Bullet('-'), 2, 2, Err(ListContinueReason::Blank)),
        ("  ", ListMarker::Bullet('-'), 2, 2, Err(ListContinueReason::Blank)),
        ("\t", ListMarker::Bullet('-'), 2, 2, Err(ListContinueReason::Blank)),
        (
            "- b",
            ListMarker::Bullet('-'),
            2,
            2,
            Err(ListContinueReason::NewItem(ListItemStart::bullet('-', 0, 2, "b"))),
        ),
        (
            "+ b",
            ListMarker::Bullet('+'),
            2,
            2,
            Err(ListContinueReason::NewItem(ListItemStart::bullet('+', 0, 2, "b"))),
        ),
        (
            "* b",
            ListMarker::Bullet('*'),
            2,
            2,
            Err(ListContinueReason::NewItem(ListItemStart::bullet('*', 0, 2, "b"))),
        ),
        (
            "2. b",
            dot,
            3,
            3,
            Err(ListContinueReason::NewItem(ListItemStart::ordered(2, '.', 0, 3, "b"))),
        ),
        (
            "2) b",
            paren,
            3,
            3,
            Err(ListContinueReason::NewItem(ListItemStart::ordered(2, ')', 0, 3, "b"))),
        ),
        (
            "  continued",
            ListMarker::Bullet('-'),
            2,
            2,
            Err(ListContinueReason::ContinuationLine(ItemLine::text("continued".to_string()))),
        ),
        (
            "   continued",
            ListMarker::Bullet('-'),
            2,
            2,
            Err(ListContinueReason::ContinuationLine(ItemLine::text(" continued".to_string()))),
        ),
        (
            "    continued",
            ListMarker::Bullet('-'),
            2,
            2,
            Err(ListContinueReason::ContinuationLine(ItemLine::text("  continued".to_string()))),
        ),
        ("+ b", ListMarker::Bullet('-'), 2, 2, Ok(ListEndReason::Reprocess)),
        ("* b", ListMarker::Bullet('-'), 2, 2, Ok(ListEndReason::Reprocess)),
        ("- b", ListMarker::Bullet('+'), 2, 2, Ok(ListEndReason::Reprocess)),
        ("1) b", dot, 3, 3, Ok(ListEndReason::Reprocess)),
        ("1. b", paren, 3, 3, Ok(ListEndReason::Reprocess)),
        ("1. b", ListMarker::Bullet('-'), 2, 2, Ok(ListEndReason::Reprocess)),
        ("- b", dot, 3, 3, Ok(ListEndReason::Reprocess)),
        ("some text", ListMarker::Bullet('-'), 2, 2, Ok(ListEndReason::Reprocess)),
        ("# heading", ListMarker::Bullet('-'), 2, 2, Ok(ListEndReason::Reprocess)),
        ("> blockquote", ListMarker::Bullet('-'), 2, 2, Ok(ListEndReason::Reprocess)),
        ("```code", ListMarker::Bullet('-'), 2, 2, Ok(ListEndReason::Reprocess)),
        (
            "    - e",
            ListMarker::Bullet('-'),
            2,
            5,
            Err(ListContinueReason::ContinuationLine(ItemLine::text_only("- e".to_string()))),
        ),
    ];
    for (line, marker, first, current, expected) in cases {
        assert_eq!(list_item::try_end(line, &marker, first, current), expected, "line: {:?}", line);
    }
}

#[test]
fn test_to_list_type() {
    let cases: Vec<(ListMarker, ListType, usize)> = vec![
        (ListMarker::Bullet('-'), ListType::Bullet, 1),
        (ListMarker::Bullet('+'), ListType::Bullet, 1),
        (ListMarker::Bullet('*'), ListType::Bullet, 1),
        (ListMarker::Ordered { start: 1, delimiter: '.' }, ListType::Ordered { delimiter: '.' }, 1),
        (ListMarker::Ordered { start: 5, delimiter: '.' }, ListType::Ordered { delimiter: '.' }, 5),
        (ListMarker::Ordered { start: 1, delimiter: ')' }, ListType::Ordered { delimiter: ')' }, 1),
    ];
    for (marker, expected_type, expected_start) in cases {
        let (list_type, start) = marker.to_list_type();
        assert_eq!(list_type, expected_type);
        assert_eq!(start, expected_start);
    }
}

#[test]
fn test_is_same_type() {
    let dot1 = ListMarker::Ordered { start: 1, delimiter: '.' };
    let dot5 = ListMarker::Ordered { start: 5, delimiter: '.' };
    let paren1 = ListMarker::Ordered { start: 1, delimiter: ')' };
    let cases: Vec<(ListMarker, ListMarker, bool)> = vec![
        (ListMarker::Bullet('-'), ListMarker::Bullet('-'), true),
        (ListMarker::Bullet('+'), ListMarker::Bullet('+'), true),
        (ListMarker::Bullet('*'), ListMarker::Bullet('*'), true),
        (ListMarker::Bullet('-'), ListMarker::Bullet('+'), false),
        (ListMarker::Bullet('-'), ListMarker::Bullet('*'), false),
        (dot1, dot1, true),
        (dot1, dot5, true),
        (paren1, paren1, true),
        (dot1, paren1, false),
        (ListMarker::Bullet('-'), dot1, false),
        (dot1, ListMarker::Bullet('-'), false),
    ];
    for (a, b, expected) in cases {
        assert_eq!(a.is_same_type(&b), expected);
    }
}

#[test]
fn with_content_from_takes_the_line_from_the_content_position() {
    let start = ListItemStart::bullet('-', 0, 2, "");
    assert_eq!(start.clone().with_content_from("- abc"), ListItemStart::bullet('-', 0, 2, "abc"));
    assert_eq!(start.clone().with_content_from("- "), ListItemStart::bullet('-', 0, 2, ""));
    assert_eq!(start.clone().with_content_from("-"), ListItemStart::bullet('-', 0, 2, ""));
    assert_eq!(start.with_content_from(""), ListItemStart::bullet('-', 0, 2, ""));
}

#[test]
fn with_content_from_counts_the_position_in_bytes() {
    let line = "\u{e9}a";
    assert_eq!(line.len(), 3);
    assert_eq!(line.chars().count(), 2);
    let at = |content_indent: usize| ListItemStart::bullet('-', 0, content_indent, "x");
    assert_eq!(at(0).with_content_from(line), ListItemStart::bullet('-', 0, 0, "\u{e9}a"));
    assert_eq!(at(2).with_content_from(line), ListItemStart::bullet('-', 0, 2, "a"));
    assert_eq!(at(3).with_content_from(line), ListItemStart::bullet('-', 0, 3, ""));
    assert_eq!(at(9).with_content_from(line), ListItemStart::bullet('-', 0, 9, ""));
    assert_eq!(
        ListItemStart::ordered(7, ')', 1, 6, "").with_content_from(" 7)   \u{c548}\u{b155}"),
        ListItemStart::ordered(7, ')', 1, 6, "\u{c548}\u{b155}")
    );
}

#[test]
fn item_line_builders_set_the_flag() {
    assert_eq!(
        ItemLine::new(String::from("a"), true),
        ItemLine { content: String::from("a"), text_only: true }
    );
    assert_eq!(
        ItemLine::text(String::from("a")),
        ItemLine { content: String::from("a"), text_only: false }
    );
    assert_eq!(
        ItemLine::text_only(String::from("a")),
        ItemLine { content: String::from("a"), text_only: true }
    );
    assert_eq!(ItemLine::blank(), ItemLine { content: String::new(), text_only: false });
}
