//! The parsing state, and the steps from the idle state and from an open
//! paragraph.

use vstd::prelude::*;
use crate::node::{nodes_view, Node, NodeView};
use crate::parser::blockquote;
use crate::parser::code_block_fenced;
use crate::parser::code_block_indented;
use crate::parser::heading;
use crate::parser::heading_setext::{self, underline};
use crate::parser::helpers::{
    calculate_indent,
    indent_width,
    is_blank_str,
    join,
    join_lines,
    trim,
    trimmed,
};
use crate::parser::list_item;
use crate::parser::machine::{continue_paragraph, list_opened, start_block, ContextView};
use crate::parser::paragraph;
use crate::parser::thematic_break;
use crate::parser::tree::{leaf_nodes, lemma_leaf_nodes_small};

pub use crate::parser::code_block_fenced::{
    CodeBlockFencedContinueReason,
    CodeBlockFencedEndReason,
    CodeBlockFencedNotStartReason,
    CodeBlockFencedStart,
    CodeBlockFencedStartReason,
};
pub use crate::parser::code_block_indented::{
    CodeBlockIndentedNotStartReason,
    CodeBlockIndentedStart,
    CodeBlockIndentedStartReason,
};
pub use crate::parser::heading_setext::{
    HeadingSetextNotStartReason,
    HeadingSetextStart,
    HeadingSetextStartReason,
    SetextLevel,
};
pub use crate::parser::list_item::{
    ItemLine,
    ListContinueReason,
    ListEndReason,
    ListItemNotStartReason,
    ListItemStart,
    ListItemStartReason,
    ListMarker,
};

verus! {

/// The idle state: no block is open.
#[derive(Debug, Clone, Copy, Default)]
pub struct NoneContext;

/// The state of an open paragraph.
#[derive(Debug, Clone)]
pub struct ParagraphContext {
    /// The paragraph's lines so far, trimmed.
    pub pending_lines: Vec<String>,
}

/// The parsing state.
#[derive(Debug)]
pub enum ParsingContext {
    /// No block is open.
    Idle(NoneContext),
    /// A fenced code block is open.
    CodeBlockFenced {
        /// The opening fence.
        start: CodeBlockFencedStart,
        /// The content lines so far.
        content: Vec<String>,
    },
    /// A paragraph is open.
    Paragraph(ParagraphContext),
    /// A blockquote is open.
    Blockquote {
        /// The quoted lines so far, without their markers.
        pending_lines: Vec<String>,
    },
    /// A list is open.
    List {
        /// The start of the first item; its marker gives the list its type.
        first_item_start: ListItemStart,
        /// The lines of the finished items.
        items: Vec<Vec<ItemLine>>,
        /// The lines of the current item.
        current_item_lines: Vec<ItemLine>,
        /// Content position of the current item.
        current_content_indent: usize,
        /// Whether no blank line was taken into the list so far.
        tight: bool,
        /// Blank lines seen since the last line that was taken in.
        pending_blank_count: usize,
    },
    /// An indented code block is open.
    CodeBlockIndented {
        /// The code lines so far, without their four spaces.
        pending_lines: Vec<String>,
        /// Blank lines seen since the last line of code.
        pending_blank_count: usize,
    },
}

/// What a line yields: the nodes it finishes and the next state.
pub type LineResult = (Vec<Node>, ParsingContext);

impl View for ParsingContext {
    type V = ContextView;

    open spec fn view(&self) -> ContextView {
        match self {
            ParsingContext::Idle(_) => ContextView::Idle,
            ParsingContext::CodeBlockFenced { start, content } => ContextView::CodeBlockFenced {
                start: start@,
                content: content.deep_view(),
            },
            ParsingContext::Paragraph(paragraph) => ContextView::Paragraph {
                lines: paragraph.pending_lines.deep_view(),
            },
            ParsingContext::Blockquote { pending_lines } => ContextView::Blockquote {
                lines: pending_lines.deep_view(),
            },
            ParsingContext::List {
                first_item_start,
                items,
                current_item_lines,
                current_content_indent,
                tight,
                pending_blank_count,
            } => ContextView::List {
                first_item_start: first_item_start@,
                items: items.deep_view(),
                current_item_lines: current_item_lines.deep_view(),
                current_content_indent: *current_content_indent as nat,
                tight: *tight,
                pending_blank_count: *pending_blank_count as nat,
            },
            ParsingContext::CodeBlockIndented {
                pending_lines,
                pending_blank_count,
            } => ContextView::CodeBlockIndented {
                lines: pending_lines.deep_view(),
                pending_blank_count: *pending_blank_count as nat,
            },
        }
    }
}

/// No nodes.
pub(crate) fn no_nodes() -> (nodes: Vec<Node>)
    ensures
        nodes_view(nodes@) == Seq::<NodeView>::empty(),
{
    let nodes: Vec<Node> = Vec::new();
    assert(nodes_view(nodes@) =~= Seq::<NodeView>::empty());
    nodes
}

/// One node.
pub(crate) fn one_node(node: Node) -> (nodes: Vec<Node>)
    ensures
        nodes_view(nodes@) == seq![node@],
{
    let mut nodes: Vec<Node> = Vec::new();
    nodes.push(node);
    assert(nodes_view(nodes@) =~= seq![node@]);
    nodes
}

/// Two nodes.
pub(crate) fn two_nodes(first: Node, second: Node) -> (nodes: Vec<Node>)
    ensures
        nodes_view(nodes@) == seq![first@, second@],
{
    let mut nodes: Vec<Node> = Vec::new();
    nodes.push(first);
    nodes.push(second);
    assert(nodes_view(nodes@) =~= seq![first@, second@]);
    nodes
}

/// One line.
pub(crate) fn one_line(line: String) -> (lines: Vec<String>)
    ensures
        lines.deep_view() == seq![line@],
{
    let mut lines: Vec<String> = Vec::new();
    lines.push(line);
    assert(lines.deep_view() =~= seq![line@]);
    lines
}

/// The state of a list that `start` opens: its first item holds the rest of
/// the marker's line, and the list is tight.
pub(crate) fn open_list(start: ListItemStart) -> (context: ParsingContext)
    ensures
        context@ == list_opened(start@),
{
    let content = start.content.clone();
    let content_indent = start.content_indent;
    let mut current_item_lines: Vec<ItemLine> = Vec::new();
    current_item_lines.push(ItemLine::text(content));
    let items: Vec<Vec<ItemLine>> = Vec::new();
    let context = ParsingContext::List {
        first_item_start: start,
        items,
        current_item_lines,
        current_content_indent: content_indent,
        tight: true,
        pending_blank_count: 0,
    };
    proof {
        let target = list_opened(start@);
        assert(context@->List_items =~= target->List_items);
        assert(context@->List_current_item_lines =~= target->List_current_item_lines);
    }
    context
}

/// The state of a fenced code block that `start` opens.
pub(crate) fn open_fenced(start: CodeBlockFencedStart) -> (context: ParsingContext)
    ensures
        context@ == (ContextView::CodeBlockFenced { start: start@, content: Seq::empty() }),
{
    let content: Vec<String> = Vec::new();
    let context = ParsingContext::CodeBlockFenced { start, content };
    assert(context@->CodeBlockFenced_content =~= Seq::<Seq<char>>::empty());
    context
}

impl NoneContext {
    /// The step from the idle state. What it finishes are leaf blocks.
    pub fn parse(self, current_line: &str) -> (r: LineResult)
        ensures
            nodes_view(r.0@) == leaf_nodes(start_block(current_line@).0),
            r.1@ == start_block(current_line@).1,
    {
        proof {
            lemma_leaf_nodes_small(NodeView::ThematicBreak, NodeView::ThematicBreak);
        }
        if is_blank_str(current_line) {
            return (no_nodes(), ParsingContext::Idle(NoneContext));
        }
        match thematic_break::parse(current_line) {
            Ok(node) => {
                return (one_node(node), ParsingContext::Idle(NoneContext));
            },
            Err(_) => {},
        }
        match heading::parse(current_line) {
            Ok(node) => {
                proof {
                    lemma_leaf_nodes_small(node@, node@);
                }
                return (one_node(node), ParsingContext::Idle(NoneContext));
            },
            Err(_) => {},
        }
        match code_block_fenced::try_start(current_line) {
            Ok(CodeBlockFencedStartReason::Started(start)) => {
                return (no_nodes(), open_fenced(start));
            },
            Err(_) => {},
        }
        match blockquote::parse(current_line) {
            Ok(content) => {
                return (
                    no_nodes(),
                    ParsingContext::Blockquote { pending_lines: one_line(content) },
                );
            },
            Err(_) => {},
        }
        match list_item::try_start(current_line) {
            Ok(ListItemStartReason::Started(start)) => {
                return (no_nodes(), open_list(start));
            },
            Err(_) => {},
        }
        match code_block_indented::try_start(current_line) {
            Ok(CodeBlockIndentedStartReason::Started(start)) => {
                return (
                    no_nodes(),
                    ParsingContext::CodeBlockIndented {
                        pending_lines: one_line(start.content),
                        pending_blank_count: 0,
                    },
                );
            },
            Err(_) => {},
        }
        (
            no_nodes(),
            ParsingContext::Paragraph(ParagraphContext::new(one_line(trimmed(current_line)))),
        )
    }
}

impl ParagraphContext {
    /// The state of a paragraph with the given lines.
    pub fn new(pending_lines: Vec<String>) -> (r: ParagraphContext)
        ensures
            r.pending_lines == pending_lines,
    {
        ParagraphContext { pending_lines }
    }

    /// The Paragraph of the lines so far, joined by newlines.
    pub fn finalize(&self) -> (node: Node)
        ensures
            node@ == paragraph::paragraph_view(join_lines(self.pending_lines.deep_view())),
    {
        let text = join(&self.pending_lines);
        paragraph::parse(text.as_str())
    }

    /// The step from an open paragraph. What it finishes are leaf blocks.
    pub fn parse(self, line: &str) -> (r: LineResult)
        ensures
            nodes_view(r.0@) == leaf_nodes(
                continue_paragraph(self.pending_lines.deep_view(), line@).0,
            ),
            r.1@ == continue_paragraph(self.pending_lines.deep_view(), line@).1,
    {
        let ghost lines = self.pending_lines.deep_view();
        let ghost done = paragraph::paragraph_view(join_lines(lines));
        proof {
            lemma_leaf_nodes_small(done, NodeView::ThematicBreak);
        }
        if is_blank_str(line) {
            return (one_node(self.finalize()), ParsingContext::Idle(NoneContext));
        }
        match code_block_fenced::try_start(line) {
            Ok(CodeBlockFencedStartReason::Started(start)) => {
                return (one_node(self.finalize()), open_fenced(start));
            },
            Err(_) => {},
        }
        let indent = calculate_indent(line);
        let stripped = trimmed(line);
        proof {
            assert(underline(stripped@, indent as nat) == underline(
                trim(line@),
                indent_width(line@),
            ));
        }
        match heading_setext::try_start(stripped.as_str(), indent) {
            Ok(HeadingSetextStartReason::Started(start)) => {
                let node = Node::Heading {
                    level: start.level.to_level(),
                    children: Node::one_text(join(&self.pending_lines)),
                };
                proof {
                    lemma_leaf_nodes_small(node@, node@);
                }
                return (one_node(node), ParsingContext::Idle(NoneContext));
            },
            Err(_) => {},
        }
        match thematic_break::parse(line) {
            Ok(node) => {
                return (two_nodes(self.finalize(), node), ParsingContext::Idle(NoneContext));
            },
            Err(_) => {},
        }
        match heading::parse(line) {
            Ok(node) => {
                proof {
                    lemma_leaf_nodes_small(done, node@);
                }
                return (two_nodes(self.finalize(), node), ParsingContext::Idle(NoneContext));
            },
            Err(_) => {},
        }
        match blockquote::parse(line) {
            Ok(content) => {
                return (
                    one_node(self.finalize()),
                    ParsingContext::Blockquote { pending_lines: one_line(content) },
                );
            },
            Err(_) => {},
        }
        match list_item::try_start(line) {
            Ok(ListItemStartReason::Started(start)) => {
                if !start.content.as_str().is_empty() {
                    return (one_node(self.finalize()), open_list(start));
                }
            },
            Err(_) => {},
        }
        let mut pending_lines = self.pending_lines;
        pending_lines.push(stripped);
        assert(pending_lines.deep_view() =~= lines.push(trim(line@)));
        (no_nodes(), ParagraphContext::new(pending_lines).into_context())
    }

    /// This state as a parsing state.
    pub fn into_context(self) -> (context: ParsingContext)
        ensures
            context@ == (ContextView::Paragraph { lines: self.pending_lines.deep_view() }),
    {
        ParsingContext::Paragraph(self)
    }
}

} // verus!
