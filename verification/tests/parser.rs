use commonmark_blocks::parse;

#[test]
fn parser_parse_empty_string() {
    let doc = parse("");
    assert_eq!(doc.children().len(), 0);
}

#[test]
fn mod_parse_empty_string() {
    let doc = parse("");
    assert_eq!(doc.children().len(), 0);
}

#[test]
fn parse_simple_text() {
    let doc = parse("hello");

    assert_eq!(doc.children().len(), 1);
    assert_eq!(doc.children()[0].children()[0].as_text(), "hello");
}

#[test]
fn parse_two_paragraphs() {
    let doc = parse("first\n\nsecond");

    assert_eq!(doc.children().len(), 2);
    assert_eq!(doc.children()[0].children()[0].as_text(), "first");
    assert_eq!(doc.children()[1].children()[0].as_text(), "second");
}

#[test]
fn parse_leading_blank_line() {
    let doc = parse("\n\nparagraph");

    assert_eq!(doc.children().len(), 1);
    assert_eq!(doc.children()[0].children()[0].as_text(), "paragraph");
}

#[test]
fn parse_trailing_blank_line() {
    let doc = parse("paragraph\n\n");

    assert_eq!(doc.children().len(), 1);
    assert_eq!(doc.children()[0].children()[0].as_text(), "paragraph");
}

#[test]
fn parse_multiple_blank_lines() {
    let doc = parse("first\n\n\nsecond");

    assert_eq!(doc.children().len(), 2);
    assert_eq!(doc.children()[0].children()[0].as_text(), "first");
    assert_eq!(doc.children()[1].children()[0].as_text(), "second");
}

#[test]
fn parse_h1_heading() {
    let doc = parse("# heading");

    assert_eq!(doc.children().len(), 1);
    assert_eq!(doc.children()[0].level(), 1);
    assert_eq!(doc.children()[0].children()[0].as_text(), "heading");
}

#[test]
fn parse_heading_requires_space() {
    let doc = parse("#no_space");

    assert_eq!(doc.children().len(), 1);
    assert_eq!(doc.children()[0].children()[0].as_text(), "#no_space");
}

#[test]
fn parse_h6_heading() {
    let doc = parse("###### h6 title");

    assert_eq!(doc.children().len(), 1);
    assert_eq!(doc.children()[0].level(), 6);
    assert_eq!(doc.children()[0].children()[0].as_text(), "h6 title");
}

#[test]
fn parse_seven_hashes_is_paragraph() {
    let doc = parse("####### not heading");

    assert_eq!(doc.children().len(), 1);
    assert_eq!(doc.children()[0].children()[0].as_text(), "####### not heading");
}

#[test]
fn parse_heading_with_closing_hashes() {
    let doc = parse("## foo ##");

    assert_eq!(doc.children().len(), 1);
    assert_eq!(doc.children()[0].level(), 2);
    assert_eq!(doc.children()[0].children()[0].as_text(), "foo");
}

#[test]
fn parse_heading_closing_hashes_count_mismatch() {
    let doc = parse("# foo ##########");

    assert_eq!(doc.children().len(), 1);
    assert_eq!(doc.children()[0].level(), 1);
    assert_eq!(doc.children()[0].children()[0].as_text(), "foo");
}

#[test]
fn parse_heading_closing_hash_without_space() {
    let doc = parse("# foo#");

    assert_eq!(doc.children().len(), 1);
    assert_eq!(doc.children()[0].level(), 1);
    assert_eq!(doc.children()[0].children()[0].as_text(), "foo#");
}

#[test]
fn parse_heading_closing_with_text_after() {
    let doc = parse("### foo ### b");

    assert_eq!(doc.children().len(), 1);
    assert_eq!(doc.children()[0].level(), 3);
    assert_eq!(doc.children()[0].children()[0].as_text(), "foo ### b");
}

#[test]
fn parse_heading_middle_hashes_not_closing() {
    let doc = parse("## a ## b");

    assert_eq!(doc.children().len(), 1);
    assert_eq!(doc.children()[0].level(), 2);
    assert_eq!(doc.children()[0].children()[0].as_text(), "a ## b");
}

#[test]
fn parse_heading_closing_with_trailing_spaces() {
    let doc = parse("### foo ###   ");

    assert_eq!(doc.children().len(), 1);
    assert_eq!(doc.children()[0].level(), 3);
    assert_eq!(doc.children()[0].children()[0].as_text(), "foo");
}

#[test]
fn parse_heading_only_closing_hashes() {
    let doc = parse("### ###");

    assert_eq!(doc.children().len(), 1);
    assert_eq!(doc.children()[0].level(), 3);
    assert_eq!(doc.children()[0].children()[0].as_text(), "");
}

#[test]
fn parse_heading_only_space() {
    let doc = parse("# ");

    assert_eq!(doc.children().len(), 1);
    assert_eq!(doc.children()[0].level(), 1);
    assert_eq!(doc.children()[0].children()[0].as_text(), "");
}

#[test]
fn parse_empty_heading() {
    let doc = parse("#");

    assert_eq!(doc.children().len(), 1);
    assert_eq!(doc.children()[0].level(), 1);
    assert_eq!(doc.children()[0].children()[0].as_text(), "");
}

#[test]
fn parse_heading_with_tab_after_hashes() {
    let doc = parse("#\tfoo");

    assert_eq!(doc.children().len(), 1);
    assert_eq!(doc.children()[0].level(), 1);
    assert_eq!(doc.children()[0].children()[0].as_text(), "foo");
}

#[test]
fn parse_heading_closing_with_tab() {
    let doc = parse("# foo\t#");

    assert_eq!(doc.children().len(), 1);
    assert_eq!(doc.children()[0].level(), 1);
    assert_eq!(doc.children()[0].children()[0].as_text(), "foo");
}

#[test]
fn parse_heading_with_one_leading_space() {
    let doc = parse(" # foo");

    assert_eq!(doc.children().len(), 1);
    assert_eq!(doc.children()[0].level(), 1);
    assert_eq!(doc.children()[0].children()[0].as_text(), "foo");
}

#[test]
fn parse_heading_with_three_leading_spaces() {
    let doc = parse("   # foo");

    assert_eq!(doc.children().len(), 1);
    assert_eq!(doc.children()[0].level(), 1);
    assert_eq!(doc.children()[0].children()[0].as_text(), "foo");
}

#[test]
fn parse_heading_with_four_leading_spaces_is_not_heading() {
    // Four spaces make the line indented code, which keeps the text as it is.
    let doc = parse("    # foo");

    assert_eq!(doc.children().len(), 1);
    assert_eq!(doc.children()[0].content(), "# foo");
}

#[test]
fn parse_heading_with_leading_tab_is_not_heading() {
    let doc = parse("\t# foo");

    assert_eq!(doc.children().len(), 1);
    assert_eq!(doc.children()[0].children()[0].as_text(), "# foo");
}

#[test]
fn parse_heading_with_space_and_tab_indent() {
    let doc = parse("  \t# foo");

    assert_eq!(doc.children().len(), 1);
    assert_eq!(doc.children()[0].children()[0].as_text(), "# foo");
}

#[test]
fn parse_heading_with_three_spaces_is_heading() {
    let doc = parse("   # foo");

    assert_eq!(doc.children().len(), 1);
    assert_eq!(doc.children()[0].level(), 1);
    assert_eq!(doc.children()[0].children()[0].as_text(), "foo");
}

#[test]
fn parse_heading_with_multiple_spaces_after_hash() {
    let doc = parse("#    foo");

    assert_eq!(doc.children().len(), 1);
    assert_eq!(doc.children()[0].level(), 1);
    assert_eq!(doc.children()[0].children()[0].as_text(), "foo");
}

#[test]
fn parse_heading_preserves_internal_spaces() {
    let doc = parse("# foo   bar");

    assert_eq!(doc.children().len(), 1);
    assert_eq!(doc.children()[0].level(), 1);
    assert_eq!(doc.children()[0].children()[0].as_text(), "foo   bar");
}

#[test]
fn parse_heading_with_unicode() {
    let doc = parse("# 안녕하세요");

    assert_eq!(doc.children().len(), 1);
    assert_eq!(doc.children()[0].level(), 1);
    assert_eq!(doc.children()[0].children()[0].as_text(), "안녕하세요");
}

#[test]
fn parse_heading_with_emoji() {
    let doc = parse("## 🎉 축하합니다");

    assert_eq!(doc.children().len(), 1);
    assert_eq!(doc.children()[0].level(), 2);
    assert_eq!(doc.children()[0].children()[0].as_text(), "🎉 축하합니다");
}
