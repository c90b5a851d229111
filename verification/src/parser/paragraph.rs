//! Paragraphs: what no other block claims.

use vstd::prelude::*;
use crate::node::{Node, NodeView};

verus! {

/// The Paragraph node over one text.
pub open spec fn paragraph_view(text: Seq<char>) -> NodeView {
    NodeView::Paragraph { children: seq![NodeView::Text(text)] }
}

/// Wraps `text` into a Paragraph.
pub fn parse(text: &str) -> (node: Node)
    ensures
        node@ == paragraph_view(text@),
{
    Node::Paragraph { children: Node::one_text(String::from_str(text)) }
}

} // verus!
