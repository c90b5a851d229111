//! Block-level parser for CommonMark-flavoured Markdown.
//!
//! [`parse`] turns a text into a [`Node::Document`] whose children are block
//! nodes. The parser is a line-driven state machine; every function is
//! specified over `Seq<char>` models of the text it reads.

pub mod node;
pub mod parser;

pub use node::{ListType, Node, NodeView};
pub use parser::parse;
pub use parser::tree::MAX_NESTING_DEPTH;
