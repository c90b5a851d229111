use commonmark_blocks::node::{ListType, Node};
use commonmark_blocks::parse;

fn children(input: &str) -> Vec<Node> {
    match parse(input) {
        Node::Document { children } => children,
        other => panic!("no Document: {:?}", other),
    }
}

fn para(s: &str) -> Node {
    Node::para(vec![Node::text(s)])
}

#[test]
fn empty_text_is_an_empty_document() {
    assert_eq!(parse(""), Node::Document { children: vec![] });
}

#[test]
fn one_heading() {
    assert_eq!(children("# Title"), vec![Node::heading(1, vec![Node::text("Title")])]);
}

#[test]
fn two_quoted_lines_are_one_paragraph_in_one_blockquote() {
    assert_eq!(children("> a\n> b"), vec![Node::blockquote(vec![para("a\nb")])]);
}

#[test]
fn two_items_are_one_tight_bullet_list() {
    let list = children("- a\n- b");
    assert_eq!(
        list,
        vec![Node::List {
            list_type: ListType::Bullet,
            start: 1,
            tight: true,
            children: vec![Node::item(vec![para("a")]), Node::item(vec![para("b")])],
        }]
    );
    assert!(list[0].is_tight());
}

#[test]
fn a_blank_line_between_items_makes_the_list_loose() {
    let list = children("- a\n\n- b");
    assert_eq!(list.len(), 1);
    assert!(!list[0].is_tight());
    assert_eq!(list[0].children().len(), 2);
}

#[test]
fn a_blank_line_within_an_item_makes_the_list_loose() {
    let list = children("- a\n\n  b");
    assert_eq!(list.len(), 1);
    assert!(!list[0].is_tight());
    assert_eq!(list[0].children().len(), 1);
}

#[test]
fn blank_lines_after_the_last_item_leave_the_list_tight() {
    let list = children("- a\n- b\n\n\nc");
    assert_eq!(list.len(), 2);
    assert!(list[0].is_tight());
    assert_eq!(list[1], para("c"));
}

#[test]
fn a_fenced_block_holds_its_lines() {
    assert_eq!(children("```\ncode\n```"), vec![Node::code_block(None, "code")]);
}

#[test]
fn an_underlined_paragraph_is_a_heading() {
    assert_eq!(children("Foo\n==="), vec![Node::heading(1, vec![Node::text("Foo")])]);
}

#[test]
fn seven_hashes_are_a_paragraph() {
    assert_eq!(children("####### x"), vec![para("####### x")]);
}

#[test]
fn heading_levels_run_from_one_to_six() {
    for level in 1..=6usize {
        let input = format!("{} x", "#".repeat(level));
        let nodes = children(&input);
        assert_eq!(nodes.len(), 1);
        assert_eq!(nodes[0].level() as usize, level);
    }
}

#[test]
fn mixed_markers_are_no_thematic_break() {
    for input in ["*-*", "**-", "-_-", "_ * _", "- - *", "***-"] {
        let nodes = children(input);
        assert!(nodes.iter().all(|n| !n.is_thematic_break()), "input: {:?}", input);
    }
}

#[test]
fn a_fence_of_the_other_character_does_not_close() {
    assert_eq!(children("~~~\ncode\n```"), vec![Node::code_block(None, "code\n```")]);
    assert_eq!(children("````\ncode\n```"), vec![Node::code_block(None, "code\n```")]);
    assert_eq!(
        children("```\ncode\n``` x\n```\nafter"),
        vec![Node::code_block(None, "code\n``` x"), para("after")]
    );
}

#[test]
fn a_change_of_marker_starts_a_new_list() {
    let lists = children("- a\n- b\n* c\n* d\n+ e");
    assert_eq!(lists.len(), 3);
    assert_eq!(lists[0].children().len(), 2);
    assert_eq!(lists[1].children().len(), 2);
    assert_eq!(lists[2].children().len(), 1);

    let lists = children("1. a\n2. b\n3) c");
    assert_eq!(lists.len(), 2);
    assert_eq!(*lists[0].list_type(), ListType::Ordered { delimiter: '.' });
    assert_eq!(lists[0].list_start(), 1);
    assert_eq!(*lists[1].list_type(), ListType::Ordered { delimiter: ')' });
    assert_eq!(lists[1].list_start(), 3);

    let lists = children("- a\n1. b");
    assert_eq!(lists.len(), 2);
    assert_eq!(*lists[0].list_type(), ListType::Bullet);
    assert_eq!(*lists[1].list_type(), ListType::Ordered { delimiter: '.' });
}

#[test]
fn a_marker_of_another_type_that_draws_a_break_ends_the_list() {
    assert_eq!(
        children("- a\n* * *"),
        vec![Node::bullet_list(true, vec![Node::item(vec![para("a")])]), Node::ThematicBreak]
    );
}

#[test]
fn a_blockquote_holds_what_its_text_parses_to() {
    let cases = [
        ("> # a\n> b\n>\n> - c\n> - d", "# a\nb\n\n- c\n- d"),
        ("> > a\n> b", "> a\nb"),
        (">     code\n> text", "    code\ntext"),
        ("> a\nlazy", "a\nlazy"),
        (">", ""),
    ];
    for (input, inner) in cases {
        assert_eq!(children(input), vec![Node::blockquote(children(inner))], "input: {:?}", input);
    }
}

#[test]
fn a_list_item_holds_what_its_text_parses_to() {
    let cases = [
        ("- a\n  b\n\n  # c", vec!["a\nb\n\n# c"]),
        ("- > a\n  > b\n- ```\n  x\n  ```", vec!["> a\n> b", "```\nx\n```"]),
        ("1. a\n   - b\n   - c", vec!["a\n- b\n- c"]),
        ("-\n- a", vec!["", "a"]),
    ];
    for (input, inners) in cases {
        let lists = children(input);
        assert_eq!(lists.len(), 1, "input: {:?}", input);
        let items: Vec<Node> = inners.iter().map(|inner| Node::item(children(inner))).collect();
        assert_eq!(lists[0].children(), &items, "input: {:?}", input);
    }
}

#[test]
fn a_deeply_indented_marker_is_plain_text_of_the_item() {
    assert_eq!(
        children("- a\n - b\n  - c\n   - d\n    - e\n\n     # f\n     g"),
        vec![Node::bullet_list(
            false,
            vec![
                Node::item(vec![para("a")]),
                Node::item(vec![para("b")]),
                Node::item(vec![para("c")]),
                Node::item(vec![
                    para("d\n- e"),
                    Node::heading(1, vec![Node::text("f")]),
                    para("g"),
                ]),
            ]
        )]
    );
}

#[test]
fn fenced_code_runs_to_the_end_without_a_closing_fence() {
    assert_eq!(children("```rust\na\n\nb\n"), vec![Node::code_block(Some("rust"), "a\n\nb")]);
}

#[test]
fn carriage_returns_before_newlines_are_dropped() {
    assert_eq!(
        children("# a\r\n\r\nb\r\nc\r\n"),
        vec![Node::heading(1, vec![Node::text("a")]), para("b\nc")]
    );
}
