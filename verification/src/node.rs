//! The document tree.
//!
//! A [`Node`] is either a block (container or leaf) or an inline. Its model,
//! [`NodeView`], is the same tree over `Seq`; contracts speak of the model.

use vstd::prelude::*;
use vstd::pervasive::unreached;
use crate::parser::helpers::{join, join_lines};

verus! {

/// Marker for inline nodes (`Text`).
pub trait Inline {

}

/// Marker for block nodes, container and leaf alike.
pub trait Block {

}

/// A block that owns other blocks: `Document`, `Blockquote`, `List`, `ListItem`.
pub trait ContainerBlock: Block {
    /// The blocks that this container owns.
    fn children(&self) -> &Vec<Node>;
}

/// A block that owns no other block: `ThematicBreak`, `Heading`, `CodeBlock`,
/// `Paragraph`.
pub trait LeafBlock: Block {

}

/// Kind of a list.
#[derive(Debug, Clone, Copy, PartialEq, Eq, Structural)]
pub enum ListType {
    /// A bullet list (`-`, `+` or `*`).
    Bullet,
    /// A numbered list.
    Ordered {
        /// The character after the number: `.` or `)`.
        delimiter: char,
    },
}

/// Mathematical model of a [`Node`]: the same tree over sequences.
pub enum NodeView {
    Document { children: Seq<NodeView> },
    Heading { level: u8, children: Seq<NodeView> },
    Paragraph { children: Seq<NodeView> },
    Blockquote { children: Seq<NodeView> },
    CodeBlock { info: Option<Seq<char>>, content: Seq<char> },
    ThematicBreak,
    List { list_type: ListType, start: usize, tight: bool, children: Seq<NodeView> },
    ListItem { children: Seq<NodeView> },
    Text(Seq<char>),
}

/// A node of the document tree.
#[derive(Debug, PartialEq)]
pub enum Node {
    Document { children: Vec<Node> },
    Heading { level: u8, children: Vec<Node> },
    Paragraph { children: Vec<Node> },
    Blockquote { children: Vec<Node> },
    CodeBlock { info: Option<String>, content: String },
    ThematicBreak,
    /// A list; `start` is 1 for a bullet list.
    List { list_type: ListType, start: usize, tight: bool, children: Vec<Node> },
    ListItem { children: Vec<Node> },
    Text(String),
}

impl Block for Node {

}

impl Inline for Node {

}

/// Model of an optional string.
pub open spec fn option_view(o: Option<String>) -> Option<Seq<char>> {
    match o {
        Some(s) => Some(s@),
        None => None,
    }
}

/// Models of a sequence of nodes, in order.
pub open spec fn nodes_view(nodes: Seq<Node>) -> Seq<NodeView>
    decreases nodes, 0nat,
{
    Seq::new(
        nodes.len(),
        |i: int|
            if 0 <= i < nodes.len() {
                node_view(nodes[i])
            } else {
                NodeView::ThematicBreak
            },
    )
}

/// Model of one node.
pub open spec fn node_view(node: Node) -> NodeView
    decreases node, 1nat,
{
    match node {
        Node::Document { children } => NodeView::Document { children: nodes_view(children@) },
        Node::Heading { level, children } => NodeView::Heading {
            level,
            children: nodes_view(children@),
        },
        Node::Paragraph { children } => NodeView::Paragraph { children: nodes_view(children@) },
        Node::Blockquote { children } => NodeView::Blockquote { children: nodes_view(children@) },
        Node::CodeBlock { info, content } => NodeView::CodeBlock {
            info: option_view(info),
            content: content@,
        },
        Node::ThematicBreak => NodeView::ThematicBreak,
        Node::List { list_type, start, tight, children } => NodeView::List {
            list_type,
            start,
            tight,
            children: nodes_view(children@),
        },
        Node::ListItem { children } => NodeView::ListItem { children: nodes_view(children@) },
        Node::Text(s) => NodeView::Text(s@),
    }
}

impl View for Node {
    type V = NodeView;

    open spec fn view(&self) -> NodeView {
        node_view(*self)
    }
}

/// The model of a vector after a push is the old model with the new node's
/// model appended.
pub proof fn lemma_nodes_view_push(nodes: Seq<Node>, node: Node)
    ensures
        nodes_view(nodes.push(node)) == nodes_view(nodes).push(node@),
{
    assert(nodes_view(nodes.push(node)) =~= nodes_view(nodes).push(node@));
}

/// The model of a concatenation is the concatenation of the models.
pub proof fn lemma_nodes_view_add(a: Seq<Node>, b: Seq<Node>)
    ensures
        nodes_view(a + b) == nodes_view(a) + nodes_view(b),
{
    assert(nodes_view(a + b) =~= nodes_view(a) + nodes_view(b));
}

impl NodeView {
    /// Document, Blockquote, List and ListItem own blocks.
    pub open spec fn is_container_block(self) -> bool {
        self is Document || self is Blockquote || self is List || self is ListItem
    }

    /// ThematicBreak, Heading, CodeBlock and Paragraph own no block.
    pub open spec fn is_leaf_block(self) -> bool {
        self is ThematicBreak || self is Heading || self is CodeBlock || self is Paragraph
    }

    /// Whether the variant carries a `children` field.
    pub open spec fn has_children(self) -> bool {
        !(self is CodeBlock || self is ThematicBreak || self is Text)
    }

    /// The `children` field, empty where the variant has none.
    pub open spec fn children(self) -> Seq<NodeView> {
        match self {
            NodeView::Document { children } => children,
            NodeView::Heading { children, .. } => children,
            NodeView::Paragraph { children } => children,
            NodeView::Blockquote { children } => children,
            NodeView::List { children, .. } => children,
            NodeView::ListItem { children } => children,
            _ => Seq::empty(),
        }
    }

    /// A block that may stand inside a container: any block but `Document`
    /// and `ListItem`.
    pub open spec fn is_nested_block(self) -> bool {
        !(self is Text || self is Document || self is ListItem)
    }

    /// The shape that the parser guarantees: a heading's level is 1 to 6,
    /// headings and paragraphs hold inlines, a list holds list items, and the
    /// other containers hold blocks, all of them well formed in turn.
    pub open spec fn well_formed(self) -> bool
        decreases self,
    {
        match self {
            NodeView::Document { children } => forall|i: int|
                0 <= i < children.len() ==> (#[trigger] children[i]).is_nested_block()
                    && children[i].well_formed(),
            NodeView::Blockquote { children } => forall|i: int|
                0 <= i < children.len() ==> (#[trigger] children[i]).is_nested_block()
                    && children[i].well_formed(),
            NodeView::ListItem { children } => forall|i: int|
                0 <= i < children.len() ==> (#[trigger] children[i]).is_nested_block()
                    && children[i].well_formed(),
            NodeView::List { children, .. } => forall|i: int|
                0 <= i < children.len() ==> (#[trigger] children[i]) is ListItem
                    && children[i].well_formed(),
            NodeView::Heading { level, children } => 1 <= level <= 6 && forall|i: int|
                0 <= i < children.len() ==> (#[trigger] children[i]) is Text,
            NodeView::Paragraph { children } => forall|i: int|
                0 <= i < children.len() ==> (#[trigger] children[i]) is Text,
            NodeView::CodeBlock { .. } => true,
            NodeView::ThematicBreak => true,
            NodeView::Text(_) => true,
        }
    }
}

/// `item` is the ListItem that holds what `parse_item` returned for `lines`
/// joined by newlines.
pub open spec fn item_built<F: Fn(&str) -> Vec<Node>>(
    item: Node,
    lines: Seq<Seq<char>>,
    parse_item: F,
) -> bool {
    &&& item is ListItem
    &&& exists|text: &str|
        text@ == join_lines(lines) && call_ensures(parse_item, (text,), item->ListItem_children)
}

impl Node {
    /// Whether this is a Document, Blockquote, List or ListItem.
    pub fn is_container_block(&self) -> (b: bool)
        ensures
            b == self@.is_container_block(),
    {
        match self {
            Node::Document { .. } => true,
            Node::Blockquote { .. } => true,
            Node::List { .. } => true,
            Node::ListItem { .. } => true,
            _ => false,
        }
    }

    /// Whether this is a ThematicBreak, Heading, CodeBlock or Paragraph.
    pub fn is_leaf_block(&self) -> (b: bool)
        ensures
            b == self@.is_leaf_block(),
    {
        match self {
            Node::ThematicBreak => true,
            Node::Heading { .. } => true,
            Node::CodeBlock { .. } => true,
            Node::Paragraph { .. } => true,
            _ => false,
        }
    }

    /// Whether this is a block, container or leaf.
    pub fn is_block(&self) -> (b: bool)
        ensures
            b == !(self@ is Text),
    {
        self.is_container_block() || self.is_leaf_block()
    }

    /// Whether this is an inline node.
    pub fn is_inline(&self) -> (b: bool)
        ensures
            b == (self@ is Text),
    {
        match self {
            Node::Text(_) => true,
            _ => false,
        }
    }

    /// Builds a List whose items are what `parse_item` makes of each item's
    /// lines joined by newlines.
    pub fn build_list<F>(
        list_type: ListType,
        start: usize,
        tight: bool,
        items: Vec<Vec<String>>,
        parse_item: F,
    ) -> (list: Node) where F: Fn(&str) -> Vec<Node>
        requires
            forall|text: &str| call_requires(parse_item, (text,)),
        ensures
            list is List,
            list->List_list_type == list_type,
            list->List_start == start,
            list->List_tight == tight,
            list->List_children@.len() == items@.len(),
            forall|i: int|
                0 <= i < items@.len() ==> item_built(
                    #[trigger] list->List_children@[i],
                    items@[i].deep_view(),
                    parse_item,
                ),
    {
        let mut children: Vec<Node> = Vec::new();
        let mut i: usize = 0;
        while i < items.len()
            invariant
                i <= items@.len(),
                children@.len() == i,
                forall|text: &str| call_requires(parse_item, (text,)),
                forall|k: int|
                    0 <= k < i ==> item_built(
                        #[trigger] children@[k],
                        items@[k].deep_view(),
                        parse_item,
                    ),
            decreases items@.len() - i,
        {
            let text = join(&items[i]);
            let blocks = parse_item(text.as_str());
            children.push(Node::ListItem { children: blocks });
            i += 1;
        }
        Node::List { list_type, start, tight, children }
    }

    /// The children of a node that has any.
    pub fn children(&self) -> (r: &Vec<Node>)
        requires
            self@.has_children(),
        ensures
            nodes_view(r@) == self@.children(),
    {
        match self {
            Node::Document { children } => children,
            Node::Heading { children, .. } => children,
            Node::Paragraph { children } => children,
            Node::Blockquote { children } => children,
            Node::List { children, .. } => children,
            Node::ListItem { children } => children,
            _ => unreached(),
        }
    }

    /// The string of a Text node.
    pub fn as_text(&self) -> (r: &str)
        requires
            self@ is Text,
        ensures
            r@ == self@->Text_0,
    {
        match self {
            Node::Text(s) => s.as_str(),
            _ => unreached(),
        }
    }

    /// The level of a Heading node.
    pub fn level(&self) -> (r: u8)
        requires
            self@ is Heading,
        ensures
            r == self@->Heading_level,
    {
        match self {
            Node::Heading { level, .. } => *level,
            _ => unreached(),
        }
    }

    /// Whether this is a Heading.
    pub fn is_heading(&self) -> (b: bool)
        ensures
            b == (self@ is Heading),
    {
        match self {
            Node::Heading { .. } => true,
            _ => false,
        }
    }

    /// Whether this is a ThematicBreak.
    pub fn is_thematic_break(&self) -> (b: bool)
        ensures
            b == (self@ is ThematicBreak),
    {
        match self {
            Node::ThematicBreak => true,
            _ => false,
        }
    }

    /// Whether this is a Blockquote.
    pub fn is_blockquote(&self) -> (b: bool)
        ensures
            b == (self@ is Blockquote),
    {
        match self {
            Node::Blockquote { .. } => true,
            _ => false,
        }
    }

    /// Whether this is a CodeBlock.
    pub fn is_code_block(&self) -> (b: bool)
        ensures
            b == (self@ is CodeBlock),
    {
        match self {
            Node::CodeBlock { .. } => true,
            _ => false,
        }
    }

    /// The info string of a CodeBlock, if it has one.
    pub fn info(&self) -> (r: Option<&str>)
        requires
            self@ is CodeBlock,
        ensures
            match r {
                Some(s) => self@->CodeBlock_info == Some(s@),
                None => self@->CodeBlock_info is None,
            },
    {
        match self {
            Node::CodeBlock { info, .. } => match info {
                Some(s) => Some(s.as_str()),
                None => None,
            },
            _ => unreached(),
        }
    }

    /// The content of a CodeBlock.
    pub fn content(&self) -> (r: &str)
        requires
            self@ is CodeBlock,
        ensures
            r@ == self@->CodeBlock_content,
    {
        match self {
            Node::CodeBlock { content, .. } => content.as_str(),
            _ => unreached(),
        }
    }

    /// Whether this is a List.
    pub fn is_list(&self) -> (b: bool)
        ensures
            b == (self@ is List),
    {
        match self {
            Node::List { .. } => true,
            _ => false,
        }
    }

    /// Whether this is a ListItem.
    pub fn is_list_item(&self) -> (b: bool)
        ensures
            b == (self@ is ListItem),
    {
        match self {
            Node::ListItem { .. } => true,
            _ => false,
        }
    }

    /// The kind of a List.
    pub fn list_type(&self) -> (r: &ListType)
        requires
            self@ is List,
        ensures
            *r == self@->List_list_type,
    {
        match self {
            Node::List { list_type, .. } => list_type,
            _ => unreached(),
        }
    }

    /// The number that a List starts with.
    pub fn list_start(&self) -> (r: usize)
        requires
            self@ is List,
        ensures
            r == self@->List_start,
    {
        match self {
            Node::List { start, .. } => *start,
            _ => unreached(),
        }
    }

    /// Whether a List is tight.
    pub fn is_tight(&self) -> (r: bool)
        requires
            self@ is List,
        ensures
            r == self@->List_tight,
    {
        match self {
            Node::List { tight, .. } => *tight,
            _ => unreached(),
        }
    }

    /// The children of a leaf block that holds one text.
    pub fn one_text(text: String) -> (children: Vec<Node>)
        ensures
            nodes_view(children@) == seq![NodeView::Text(text@)],
    {
        let mut children: Vec<Node> = Vec::new();
        children.push(Node::Text(text));
        assert(nodes_view(children@) =~= seq![NodeView::Text(text@)]);
        children
    }

    /// A Text node holding `s`.
    pub fn text(s: &str) -> (n: Node)
        ensures
            n@ == NodeView::Text(s@),
    {
        Node::Text(String::from_str(s))
    }

    /// A Paragraph with the given children.
    pub fn para(children: Vec<Node>) -> (n: Node)
        ensures
            n@ == (NodeView::Paragraph { children: nodes_view(children@) }),
    {
        Node::Paragraph { children }
    }

    /// A ListItem with the given children.
    pub fn item(children: Vec<Node>) -> (n: Node)
        ensures
            n@ == (NodeView::ListItem { children: nodes_view(children@) }),
    {
        Node::ListItem { children }
    }

    /// A bullet List, which starts at 1.
    pub fn bullet_list(tight: bool, children: Vec<Node>) -> (n: Node)
        ensures
            n@ == (NodeView::List {
                list_type: ListType::Bullet,
                start: 1,
                tight,
                children: nodes_view(children@),
            }),
    {
        Node::List { list_type: ListType::Bullet, start: 1, tight, children }
    }

    /// An ordered List.
    pub fn ordered_list(delimiter: char, start: usize, tight: bool, children: Vec<Node>) -> (n:
        Node)
        ensures
            n@ == (NodeView::List {
                list_type: ListType::Ordered { delimiter },
                start,
                tight,
                children: nodes_view(children@),
            }),
    {
        Node::List { list_type: ListType::Ordered { delimiter }, start, tight, children }
    }

    /// A CodeBlock.
    pub fn code_block(info: Option<&str>, content: &str) -> (n: Node)
        ensures
            n@ == (NodeView::CodeBlock {
                info: match info {
                    Some(s) => Some(s@),
                    None => None,
                },
                content: content@,
            }),
    {
        let info = match info {
            Some(s) => Some(String::from_str(s)),
            None => None,
        };
        Node::CodeBlock { info, content: String::from_str(content) }
    }

    /// A Heading of the given level.
    pub fn heading(level: u8, children: Vec<Node>) -> (n: Node)
        ensures
            n@ == (NodeView::Heading { level, children: nodes_view(children@) }),
    {
        Node::Heading { level, children }
    }

    /// A Blockquote with the given children.
    pub fn blockquote(children: Vec<Node>) -> (n: Node)
        ensures
            n@ == (NodeView::Blockquote { children: nodes_view(children@) }),
    {
        Node::Blockquote { children }
    }
}

} // verus!
