//! The line-driven block parser.
//!
//! [`parse`] reads a text line by line. Each line takes the parsing state to
//! the next one and may finish blocks; the end of the text finishes what is
//! still open. A finished blockquote or list item is read in turn, by the
//! same parser, from the text that it holds, down to
//! [`MAX_NESTING_DEPTH`] levels.

pub mod blockquote;
pub mod code_block_fenced;
pub mod code_block_indented;
pub mod context;
pub mod heading;
pub mod heading_setext;
pub mod helpers;
pub mod laws;
pub mod list_item;
pub mod machine;
pub mod measure;
pub mod paragraph;
pub mod thematic_break;
pub mod tree;

use vstd::prelude::*;
use crate::node::{lemma_nodes_view_add, lemma_nodes_view_push, nodes_view, Node, NodeView};
use crate::parser::code_block_fenced::{CodeBlockFencedStart, CodeBlockFencedStartReason};
use crate::parser::code_block_indented::{
    CodeBlockIndentedNotStartReason,
    CodeBlockIndentedStartReason,
};
use crate::parser::context::{
    no_nodes,
    one_node,
    open_fenced,
    two_nodes,
    LineResult,
    NoneContext,
    ParsingContext,
};
use crate::parser::helpers::{
    char_len,
    is_blank_str,
    join_lines,
    lines_of,
    remove_indent,
    slice_to_string,
    split_lines,
    trim_blank_lines,
};
use crate::parser::laws::{
    lemma_blocks_of_nothing,
    lemma_blocks_well_formed,
    lemma_list_step,
    lemma_parse_reads_all,
    lemma_step_keeps_well_formed,
    list_step_outcome,
};
use crate::parser::list_item::{
    ItemLine,
    ItemLineView,
    ListContinueReason,
    ListItemStart,
};
use crate::parser::machine::{
    any_text_only,
    blank_item_lines,
    blank_lines,
    chunk_parts,
    chunked,
    contents,
    continue_blockquote,
    continue_fenced,
    continue_indented,
    continue_list,
    finish,
    indented_block,
    item_parts,
    lemma_step_pending,
    list_segment,
    part_of,
    pending_blanks,
    run,
    start_block,
    step,
    ItemPart,
    Segment,
};
use crate::parser::tree::{
    blocks,
    blocks_within,
    fits,
    lemma_resolve_all_add,
    lemma_resolve_all_small,
    lemma_resolve_items_push,
    lemma_leaf_nodes,
    lemma_leaf_nodes_small,
    leaf_nodes,
    lemma_resolve_parts_push,
    nested,
    resolve,
    resolve_all,
    resolve_items,
    resolve_part,
    resolve_parts,
    MAX_NESTING_DEPTH,
};

verus! {

/// Parses a text into a Document. Every text has one, and it is well
/// formed; the empty text has the empty Document.
///
/// The Document holds the blocks of the text, read down to
/// [`MAX_NESTING_DEPTH`] levels of nesting. Where that budget is enough for
/// the text, these are the blocks of the text with every nested text read.
pub fn parse(input: &str) -> (doc: Node)
    ensures
        doc@ == (NodeView::Document {
            children: blocks_within(input@, MAX_NESTING_DEPTH as nat),
        }),
        fits(input@, MAX_NESTING_DEPTH as nat) ==> doc@ == (NodeView::Document {
            children: blocks(input@),
        }),
        doc@.well_formed(),
        input@.len() == 0 ==> doc@->Document_children.len() == 0,
{
    proof {
        lemma_blocks_of_nothing(MAX_NESTING_DEPTH as nat);
        lemma_blocks_well_formed(input@, MAX_NESTING_DEPTH as nat);
        lemma_parse_reads_all(input@, MAX_NESTING_DEPTH as nat);
    }
    Node::Document { children: parse_within(input, MAX_NESTING_DEPTH) }
}

/// The blocks of a text, read down to `depth` levels of nesting.
pub fn parse_within(input: &str, depth: usize) -> (nodes: Vec<Node>)
    ensures
        nodes_view(nodes@) == blocks_within(input@, depth as nat),
    decreases depth, 9nat,
{
    let lines = lines_of(input);
    let ghost all = lines.deep_view();
    let mut children: Vec<Node> = no_nodes();
    let mut context = ParsingContext::Idle(NoneContext);
    let mut k: usize = 0;
    proof {
        lemma_resolve_all_small(
            Segment::Leaf(NodeView::ThematicBreak),
            Segment::Leaf(NodeView::ThematicBreak),
            depth as nat,
        );
        assert(run(all.take(0)).0 =~= Seq::<Segment>::empty());
    }
    while k < lines.len()
        invariant
            k <= lines.len(),
            all == lines.deep_view(),
            all == split_lines(input@),
            nodes_view(children@) == resolve_all(run(all.take(k as int)).0, depth as nat),
            context@ == run(all.take(k as int)).1,
            pending_blanks(context@) <= k,
        decreases lines.len() - k,
    {
        let ghost before = all.take(k as int);
        let ghost after = all.take(k + 1);
        let ghost done = children@;
        proof {
            lemma_step_pending(context@, all[k as int]);
            assert(after.drop_last() =~= before);
            assert(after.last() == lines[k as int]@);
        }
        let (mut finished, next) = process_line(lines[k].as_str(), context, depth);
        proof {
            lemma_nodes_view_add(done, finished@);
            lemma_resolve_all_add(
                run(before).0,
                step(run(before).1, all[k as int]).0,
                depth as nat,
            );
        }
        children.append(&mut finished);
        context = next;
        k += 1;
    }
    proof {
        assert(all.take(k as int) =~= all);
        lemma_resolve_all_add(run(all).0, finish(run(all).1), depth as nat);
    }
    let ghost done = children@;
    let mut last = finalize_context(context, depth);
    proof {
        lemma_nodes_view_add(done, last@);
    }
    children.append(&mut last);
    children
}

/// What a container holds for its text: with a budget left, the blocks of
/// the text, read with one level less; with none, the text as one Paragraph.
pub fn parse_nested(text: &str, depth: usize) -> (nodes: Vec<Node>)
    ensures
        nodes_view(nodes@) == nested(text@, depth as nat),
    decreases depth, 2nat,
{
    if depth == 0 {
        one_node(paragraph::parse(text))
    } else {
        parse_within(text, depth - 1)
    }
}

/// The transition function: the nodes that `line` finishes in state
/// `context`, and the next state. Containers among the nodes are read down
/// to `depth` levels of nesting.
pub fn process_line(line: &str, context: ParsingContext, depth: usize) -> (r: LineResult)
    requires
        pending_blanks(context@) < usize::MAX,
    ensures
        nodes_view(r.0@) == resolve_all(step(context@, line@).0, depth as nat),
        r.1@ == step(context@, line@).1,
        context@.well_formed() ==> r.1@.well_formed(),
    decreases depth, 8nat,
{
    proof {
        if !(context@ is Blockquote || context@ is List) {
            lemma_leaf_nodes(step(context@, line@).0, depth as nat);
        }
        if context@.well_formed() {
            lemma_step_keeps_well_formed(context@, line@);
        }
    }
    match context {
        ParsingContext::Idle(idle) => idle.parse(line),
        ParsingContext::CodeBlockFenced { start, content } => process_line_in_code_block(
            line,
            start,
            content,
        ),
        ParsingContext::Paragraph(paragraph) => paragraph.parse(line),
        ParsingContext::Blockquote { pending_lines } => process_line_in_blockquote(
            line,
            pending_lines,
            depth,
        ),
        ParsingContext::List {
            first_item_start,
            items,
            current_item_lines,
            current_content_indent,
            tight,
            pending_blank_count,
        } => process_line_in_list(
            line,
            first_item_start,
            items,
            current_item_lines,
            current_content_indent,
            tight,
            pending_blank_count,
            depth,
        ),
        ParsingContext::CodeBlockIndented {
            pending_lines,
            pending_blank_count,
        } => process_line_in_code_block_indented(line, pending_lines, pending_blank_count),
    }
}

/// The step from an open fenced code block. What it finishes are leaf
/// blocks.
pub fn process_line_in_code_block(
    line: &str,
    start: CodeBlockFencedStart,
    content: Vec<String>,
) -> (r: LineResult)
    ensures
        nodes_view(r.0@) == leaf_nodes(continue_fenced(start@, content.deep_view(), line@).0),
        r.1@ == continue_fenced(start@, content.deep_view(), line@).1,
{
    let ghost before = content.deep_view();
    match code_block_fenced::try_end(line, start.fence_char, start.fence_len) {
        Ok(_) => {
            let node = code_block_fenced::finalize(start, content);
            proof {
                lemma_leaf_nodes_small(node@, node@);
            }
            (one_node(node), ParsingContext::Idle(NoneContext))
        },
        Err(_) => {
            let code_line = remove_indent(line, start.indent).to_owned();
            let mut content = content;
            content.push(code_line);
            proof {
                assert(content.deep_view() =~= before.push(code_line@));
                lemma_leaf_nodes_small(NodeView::ThematicBreak, NodeView::ThematicBreak);
            }
            (no_nodes(), ParsingContext::CodeBlockFenced { start, content })
        },
    }
}

/// The step from an open blockquote.
pub fn process_line_in_blockquote(line: &str, lines: Vec<String>, depth: usize) -> (r: LineResult)
    ensures
        nodes_view(r.0@) == resolve_all(
            continue_blockquote(lines.deep_view(), line@).0,
            depth as nat,
        ),
        r.1@ == continue_blockquote(lines.deep_view(), line@).1,
    decreases depth, 7nat,
{
    let ghost before = lines.deep_view();
    let ghost quote = Segment::Quote { lines: before };
    proof {
        lemma_resolve_all_small(quote, Segment::Leaf(NodeView::ThematicBreak), depth as nat);
    }
    if is_blank_str(line) {
        return (one_node(blockquote::finalize(lines, depth)), ParsingContext::Idle(NoneContext));
    }
    match code_block_fenced::try_start(line) {
        Ok(CodeBlockFencedStartReason::Started(start)) => {
            return (one_node(blockquote::finalize(lines, depth)), open_fenced(start));
        },
        Err(_) => {},
    }
    match thematic_break::parse(line) {
        Ok(node) => {
            return (
                two_nodes(blockquote::finalize(lines, depth), node),
                ParsingContext::Idle(NoneContext),
            );
        },
        Err(_) => {},
    }
    match heading::parse(line) {
        Ok(node) => {
            proof {
                lemma_resolve_all_small(quote, Segment::Leaf(node@), depth as nat);
            }
            return (
                two_nodes(blockquote::finalize(lines, depth), node),
                ParsingContext::Idle(NoneContext),
            );
        },
        Err(_) => {},
    }
    let added = match blockquote::parse(line) {
        Ok(content) => content,
        Err(_) => {
            assert(line@.subrange(0, line@.len() as int) =~= line@);
            slice_to_string(line, 0, char_len(line))
        },
    };
    let mut lines = lines;
    lines.push(added);
    assert(lines.deep_view() =~= before.push(added@));
    (no_nodes(), ParsingContext::Blockquote { pending_lines: lines })
}

/// `lines` followed by `count` empty lines.
fn push_blank_lines(lines: Vec<String>, count: usize) -> (r: Vec<String>)
    ensures
        r.deep_view() == lines.deep_view() + blank_lines(count as nat),
{
    let ghost before = lines.deep_view();
    let mut lines = lines;
    let mut i: usize = 0;
    assert(lines.deep_view() =~= before + blank_lines(0));
    while i < count
        invariant
            i <= count,
            lines.deep_view() == before + blank_lines(i as nat),
        decreases count - i,
    {
        let ghost so_far = lines.deep_view();
        lines.push(String::new());
        i += 1;
        assert(lines.deep_view() =~= so_far.push(Seq::<char>::empty()));
        assert(so_far.push(Seq::<char>::empty()) =~= before + blank_lines(i as nat));
    }
    lines
}

/// `lines` followed by `count` empty item lines.
fn push_blank_item_lines(lines: Vec<ItemLine>, count: usize) -> (r: Vec<ItemLine>)
    ensures
        r.deep_view() == lines.deep_view() + blank_item_lines(count as nat),
{
    let ghost before = lines.deep_view();
    let mut lines = lines;
    let mut i: usize = 0;
    assert(lines.deep_view() =~= before + blank_item_lines(0));
    while i < count
        invariant
            i <= count,
            lines.deep_view() == before + blank_item_lines(i as nat),
        decreases count - i,
    {
        let ghost so_far = lines.deep_view();
        let blank = ItemLine::blank();
        lines.push(blank);
        i += 1;
        assert(lines.deep_view() =~= so_far.push(blank@));
        assert(so_far.push(blank@) =~= before + blank_item_lines(i as nat));
    }
    lines
}

/// The step from an open indented code block. What it finishes are leaf
/// blocks.
pub fn process_line_in_code_block_indented(
    line: &str,
    lines: Vec<String>,
    pending_blank_count: usize,
) -> (r: LineResult)
    requires
        pending_blank_count < usize::MAX,
    ensures
        nodes_view(r.0@) == leaf_nodes(
            continue_indented(lines.deep_view(), pending_blank_count as nat, line@).0,
        ),
        r.1@ == continue_indented(lines.deep_view(), pending_blank_count as nat, line@).1,
{
    let ghost before = lines.deep_view();
    proof {
        lemma_leaf_nodes_small(NodeView::ThematicBreak, NodeView::ThematicBreak);
    }
    match code_block_indented::try_start(line) {
        Ok(CodeBlockIndentedStartReason::Started(start)) => {
            let mut lines = push_blank_lines(lines, pending_blank_count);
            let ghost padded = lines.deep_view();
            lines.push(start.content);
            assert(lines.deep_view() =~= padded.push(start@));
            (
                no_nodes(),
                ParsingContext::CodeBlockIndented { pending_lines: lines, pending_blank_count: 0 },
            )
        },
        Err(CodeBlockIndentedNotStartReason::Empty) => (
            no_nodes(),
            ParsingContext::CodeBlockIndented {
                pending_lines: lines,
                pending_blank_count: pending_blank_count + 1,
            },
        ),
        Err(CodeBlockIndentedNotStartReason::InsufficientIndent) => {
            let node = Node::CodeBlock { info: None, content: trim_blank_lines(lines) };
            let (mut started, next) = NoneContext.parse(line);
            let mut nodes = one_node(node);
            proof {
                lemma_nodes_view_add(nodes@, started@);
                lemma_leaf_nodes_small(node@, node@);
                assert(leaf_nodes(seq![indented_block(before)] + start_block(line@).0)
                    =~= leaf_nodes(seq![indented_block(before)]) + leaf_nodes(
                    start_block(line@).0,
                ));
            }
            nodes.append(&mut started);
            (nodes, next)
        },
    }
}

/// The step from an open list.
pub fn process_line_in_list(
    line: &str,
    first_item_start: ListItemStart,
    items: Vec<Vec<ItemLine>>,
    current_item_lines: Vec<ItemLine>,
    current_content_indent: usize,
    tight: bool,
    pending_blank_count: usize,
    depth: usize,
) -> (r: LineResult)
    requires
        pending_blank_count < usize::MAX,
    ensures
        nodes_view(r.0@) == resolve_all(
            continue_list(
                first_item_start@,
                items.deep_view(),
                current_item_lines.deep_view(),
                current_content_indent as nat,
                tight,
                pending_blank_count as nat,
                line@,
            ).0,
            depth as nat,
        ),
        r.1@ == continue_list(
            first_item_start@,
            items.deep_view(),
            current_item_lines.deep_view(),
            current_content_indent as nat,
            tight,
            pending_blank_count as nat,
            line@,
        ).1,
        list_step_outcome(
            first_item_start@,
            items.deep_view(),
            current_item_lines.deep_view(),
            current_content_indent as nat,
            tight,
            pending_blank_count as nat,
            line@,
            nodes_view(r.0@),
            r.1@,
        ),
    decreases depth, 7nat,
{
    let ghost old_items = items.deep_view();
    let ghost old_current = current_item_lines.deep_view();
    proof {
        lemma_list_step(
            first_item_start@,
            old_items,
            old_current,
            current_content_indent as nat,
            tight,
            pending_blank_count as nat,
            line@,
            depth as nat,
        );
        lemma_leaf_nodes_small(NodeView::ThematicBreak, NodeView::ThematicBreak);
    }
    match list_item::try_end(
        line,
        &first_item_start.marker,
        first_item_start.content_indent,
        current_content_indent,
    ) {
        Ok(_) => {
            let ghost list = list_segment(first_item_start@, old_items.push(old_current), tight);
            let node = finalize_list(&first_item_start, items, current_item_lines, tight, depth);
            let (mut started, next) = NoneContext.parse(line);
            let mut nodes = one_node(node);
            proof {
                lemma_resolve_all_small(list, list, depth as nat);
                lemma_resolve_all_add(seq![list], start_block(line@).0, depth as nat);
                lemma_leaf_nodes(start_block(line@).0, depth as nat);
                lemma_nodes_view_add(nodes@, started@);
            }
            nodes.append(&mut started);
            (nodes, next)
        },
        Err(ListContinueReason::Blank) => (
            no_nodes(),
            ParsingContext::List {
                first_item_start,
                items,
                current_item_lines,
                current_content_indent,
                tight,
                pending_blank_count: pending_blank_count + 1,
            },
        ),
        Err(ListContinueReason::NewItem(new_start)) => {
            let mut items = items;
            items.push(current_item_lines);
            assert(items.deep_view() =~= old_items.push(old_current));
            let new_content_indent = new_start.content_indent;
            let mut opened: Vec<ItemLine> = Vec::new();
            opened.push(ItemLine::text(new_start.content));
            assert(opened.deep_view() =~= seq![
                ItemLineView { content: new_start@.content, text_only: false },
            ]);
            (
                no_nodes(),
                ParsingContext::List {
                    first_item_start,
                    items,
                    current_item_lines: opened,
                    current_content_indent: new_content_indent,
                    tight: tight && pending_blank_count == 0,
                    pending_blank_count: 0,
                },
            )
        },
        Err(ListContinueReason::ContinuationLine(item_line)) => {
            let mut lines = push_blank_item_lines(current_item_lines, pending_blank_count);
            let ghost padded = lines.deep_view();
            lines.push(item_line);
            assert(lines.deep_view() =~= padded.push(item_line@));
            (
                no_nodes(),
                ParsingContext::List {
                    first_item_start,
                    items,
                    current_item_lines: lines,
                    current_content_indent,
                    tight: tight && pending_blank_count == 0,
                    pending_blank_count: 0,
                },
            )
        },
    }
}

/// The List node of a list opened by `first_item_start`, with the finished
/// items and the current one.
pub fn finalize_list(
    first_item_start: &ListItemStart,
    items: Vec<Vec<ItemLine>>,
    current_item_lines: Vec<ItemLine>,
    tight: bool,
    depth: usize,
) -> (node: Node)
    ensures
        node@ == resolve(
            list_segment(
                first_item_start@,
                items.deep_view().push(current_item_lines.deep_view()),
                tight,
            ),
            depth as nat,
        ),
    decreases depth, 6nat,
{
    let (list_type, start) = first_item_start.marker.to_list_type();
    let ghost old_items = items.deep_view();
    let mut all_items = items;
    all_items.push(current_item_lines);
    let ghost all = all_items.deep_view();
    assert(all =~= old_items.push(current_item_lines.deep_view()));
    let ghost parts = list_segment(first_item_start@, all, tight)->List_items;
    let mut children: Vec<Node> = no_nodes();
    let mut i: usize = 0;
    proof {
        lemma_resolve_items_push(Seq::empty(), Seq::empty(), depth as nat);
        assert(parts.take(0) =~= Seq::<Seq<ItemPart>>::empty());
    }
    while i < all_items.len()
        invariant
            i <= all_items.len(),
            all == all_items.deep_view(),
            parts == list_segment(first_item_start@, all, tight)->List_items,
            nodes_view(children@) == resolve_items(parts.take(i as int), depth as nat),
        decreases all_items.len() - i,
    {
        proof {
            lemma_resolve_items_push(parts.take(i as int), parts[i as int], depth as nat);
            assert(parts.take(i + 1) =~= parts.take(i as int).push(parts[i as int]));
            assert(all[i as int] == all_items[i as int].deep_view());
        }
        let blocks = parse_item_lines(&all_items[i], depth);
        let item = Node::ListItem { children: blocks };
        proof {
            lemma_nodes_view_push(children@, item);
        }
        children.push(item);
        i += 1;
    }
    assert(parts.take(i as int) =~= parts);
    Node::List { list_type, start, tight, children }
}

/// Whether any of `lines` is flagged as plain text.
fn has_text_only(lines: &Vec<ItemLine>) -> (b: bool)
    ensures
        b == any_text_only(lines.deep_view()),
{
    let mut i: usize = 0;
    while i < lines.len()
        invariant
            i <= lines.len(),
            forall|j: int| 0 <= j < i ==> !(#[trigger] lines.deep_view()[j]).text_only,
        decreases lines.len() - i,
    {
        if lines[i].text_only {
            assert(lines.deep_view()[i as int].text_only);
            return true;
        }
        i += 1;
    }
    false
}

/// The contents of `lines[from..to]` joined with newlines.
fn join_contents(lines: &Vec<ItemLine>, from: usize, to: usize) -> (text: String)
    requires
        from <= to <= lines.len(),
    ensures
        text@ == join_lines(contents(lines.deep_view().subrange(from as int, to as int))),
{
    let ghost all = contents(lines.deep_view().subrange(from as int, to as int));
    let mut text = String::new();
    let mut i: usize = from;
    while i < to
        invariant
            from <= i <= to <= lines.len(),
            all == contents(lines.deep_view().subrange(from as int, to as int)),
            text@ == join_lines(all.take(i - from)),
        decreases to - i,
    {
        proof {
            reveal_strlit("\n");
            assert(all.take(i + 1 - from).drop_last() =~= all.take(i - from));
            assert(all.take(i + 1 - from).last() == lines[i as int].content@);
            assert("\n"@ =~= seq!['\n']);
        }
        if i > from {
            text.append("\n");
        }
        text.append(lines[i].content.as_str());
        i += 1;
        proof {
            if i == from + 1 {
                assert(text@ =~= all.take(1)[0]);
            }
        }
    }
    assert(all.take(to - from) =~= all);
    text
}

/// The blocks of an item's lines.
pub fn parse_item_lines(lines: &Vec<ItemLine>, depth: usize) -> (nodes: Vec<Node>)
    ensures
        nodes_view(nodes@) == resolve_parts(item_parts(lines.deep_view()), depth as nat),
    decreases depth, 5nat,
{
    if has_text_only(lines) {
        parse_item_lines_with_text_only(lines, depth)
    } else {
        let content = join_contents(lines, 0, lines.len());
        proof {
            assert(lines.deep_view().subrange(0, lines.len() as int) =~= lines.deep_view());
            lemma_resolve_parts_push(Seq::empty(), ItemPart::Nested(content@), depth as nat);
        }
        parse_nested(content.as_str(), depth)
    }
}

/// The blocks of one run of an item's lines: a Paragraph if the run is
/// flagged, else what its text holds as a nested text.
fn parse_chunk(
    lines: &Vec<ItemLine>,
    from: usize,
    to: usize,
    flagged: bool,
    depth: usize,
) -> (nodes: Vec<Node>)
    requires
        from <= to <= lines.len(),
        flagged == any_text_only(lines.deep_view().subrange(from as int, to as int)),
    ensures
        nodes_view(nodes@) == resolve_part(
            part_of(lines.deep_view().subrange(from as int, to as int)),
            depth as nat,
        ),
    decreases depth, 3nat,
{
    let content = join_contents(lines, from, to);
    if flagged {
        one_node(paragraph::parse(content.as_str()))
    } else {
        parse_nested(content.as_str(), depth)
    }
}

/// The blocks of an item's lines, run by run: separators part the runs, a
/// run with a flagged line is a Paragraph, any other is read as a nested
/// text.
pub fn parse_item_lines_with_text_only(lines: &Vec<ItemLine>, depth: usize) -> (nodes: Vec<Node>)
    ensures
        nodes_view(nodes@) == resolve_parts(chunk_parts(lines.deep_view()), depth as nat),
    decreases depth, 4nat,
{
    let ghost all = lines.deep_view();
    let mut result: Vec<Node> = no_nodes();
    let mut chunk_start: usize = 0;
    let mut flagged = false;
    let mut i: usize = 0;
    proof {
        lemma_resolve_parts_push(Seq::empty(), ItemPart::Plain(Seq::empty()), depth as nat);
        assert(all.take(0) =~= Seq::<ItemLineView>::empty());
        assert(all.subrange(0, 0) =~= Seq::<ItemLineView>::empty());
    }
    while i < lines.len()
        invariant
            chunk_start <= i <= lines.len(),
            all == lines.deep_view(),
            nodes_view(result@) == resolve_parts(chunked(all.take(i as int)).0, depth as nat),
            chunked(all.take(i as int)).1 == all.subrange(chunk_start as int, i as int),
            flagged == any_text_only(all.subrange(chunk_start as int, i as int)),
        decreases lines.len() - i,
    {
        let ghost before = all.take(i as int);
        let ghost open = all.subrange(chunk_start as int, i as int);
        proof {
            assert(all.take(i + 1).drop_last() =~= before);
            assert(all.take(i + 1).last() == lines[i as int]@);
        }
        if is_blank_str(lines[i].content.as_str()) && !lines[i].text_only {
            if chunk_start < i {
                let mut chunk = parse_chunk(lines, chunk_start, i, flagged, depth);
                proof {
                    lemma_resolve_parts_push(chunked(before).0, part_of(open), depth as nat);
                    lemma_nodes_view_add(result@, chunk@);
                }
                result.append(&mut chunk);
            }
            chunk_start = i + 1;
            flagged = false;
            assert(all.subrange(chunk_start as int, i + 1) =~= Seq::<ItemLineView>::empty());
        } else {
            if lines[i].text_only {
                flagged = true;
            }
            proof {
                let grown = all.subrange(chunk_start as int, i + 1);
                assert(grown =~= open.push(all[i as int]));
                if any_text_only(open) {
                    let j = choose|j: int| 0 <= j < open.len() && (#[trigger] open[j]).text_only;
                    assert(grown[j].text_only);
                }
                if all[i as int].text_only {
                    assert(grown[grown.len() - 1].text_only);
                }
                if any_text_only(grown) {
                    let j = choose|j: int| 0 <= j < grown.len() && (#[trigger] grown[j]).text_only;
                    if j < open.len() {
                        assert(open[j].text_only);
                    }
                }
            }
        }
        i += 1;
    }
    assert(all.take(i as int) =~= all);
    if chunk_start < i {
        let ghost open = all.subrange(chunk_start as int, i as int);
        let mut chunk = parse_chunk(lines, chunk_start, i, flagged, depth);
        proof {
            lemma_resolve_parts_push(chunked(all).0, part_of(open), depth as nat);
            lemma_nodes_view_add(result@, chunk@);
        }
        result.append(&mut chunk);
    }
    result
}

/// The nodes that the end of the input finishes in state `context`.
/// Containers among them are read down to `depth` levels of nesting.
pub fn finalize_context(context: ParsingContext, depth: usize) -> (nodes: Vec<Node>)
    ensures
        nodes_view(nodes@) == resolve_all(finish(context@), depth as nat),
    decreases depth, 8nat,
{
    proof {
        if !(context@ is Blockquote || context@ is List) {
            lemma_leaf_nodes(finish(context@), depth as nat);
        }
        lemma_leaf_nodes_small(NodeView::ThematicBreak, NodeView::ThematicBreak);
    }
    match context {
        ParsingContext::Idle(_) => no_nodes(),
        ParsingContext::CodeBlockFenced { start, content } => {
            let node = code_block_fenced::finalize(start, content);
            proof {
                lemma_leaf_nodes_small(node@, node@);
            }
            one_node(node)
        },
        ParsingContext::Paragraph(paragraph) => {
            let node = paragraph.finalize();
            proof {
                lemma_leaf_nodes_small(node@, node@);
            }
            one_node(node)
        },
        ParsingContext::Blockquote { pending_lines } => {
            let ghost quote = Segment::Quote { lines: pending_lines.deep_view() };
            proof {
                lemma_resolve_all_small(quote, quote, depth as nat);
            }
            one_node(blockquote::finalize(pending_lines, depth))
        },
        ParsingContext::List { first_item_start, items, current_item_lines, tight, .. } => {
            let ghost list = list_segment(
                first_item_start@,
                items.deep_view().push(current_item_lines.deep_view()),
                tight,
            );
            proof {
                lemma_resolve_all_small(list, list, depth as nat);
            }
            one_node(finalize_list(&first_item_start, items, current_item_lines, tight, depth))
        },
        ParsingContext::CodeBlockIndented { pending_lines, .. } => {
            let ghost block = indented_block(pending_lines.deep_view());
            proof {
                lemma_resolve_all_small(block, block, depth as nat);
            }
            one_node(Node::CodeBlock { info: None, content: trim_blank_lines(pending_lines) })
        },
    }
}

} // verus!
