//! Blockquotes: lines that start with `>`.

use vstd::prelude::*;
use crate::node::{Node, NodeView};
use crate::parser::helpers::{
    indent_of,
    indent_width,
    join,
    lines_of,
    slice_to_string,
    split_lines,
    to_chars,
    trim,
    trim_bounds,
    trimmed,
};
use crate::parser::machine::Segment;
use crate::parser::parse_nested;
use crate::parser::tree::resolve;

verus! {

/// Why a line carries no blockquote marker.
#[derive(Debug, Clone, Copy, PartialEq, Eq, Structural)]
pub enum BlockquoteErr {
    /// Indented by four columns or more.
    CodeBlockIndented,
    /// Does not start with `>`.
    NotBlockquoteMarker,
}

/// What `line` holds as a quoted line: the trimmed line without its `>` and
/// without one space or tab after it, or the reason why it is not quoted.
pub open spec fn quoted(line: Seq<char>) -> Result<Seq<char>, BlockquoteErr> {
    let t = trim(line);
    if indent_width(line) > 3 {
        Err(BlockquoteErr::CodeBlockIndented)
    } else if t.len() == 0 || t[0] != '>' {
        Err(BlockquoteErr::NotBlockquoteMarker)
    } else if t.len() > 1 && (t[1] == ' ' || t[1] == '\t') {
        Ok(t.skip(2))
    } else {
        Ok(t.skip(1))
    }
}

/// A quoted line is longer than what it quotes.
pub proof fn lemma_quoted_shorter(line: Seq<char>)
    ensures
        quoted(line) matches Ok(content) ==> content.len() < line.len(),
{
    crate::parser::helpers::lemma_trim(line);
}

/// Strips the blockquote marker from a line.
pub fn parse(line: &str) -> (r: Result<String, BlockquoteErr>)
    ensures
        match r {
            Ok(content) => quoted(line@) == Ok::<Seq<char>, BlockquoteErr>(content@),
            Err(e) => quoted(line@) == Err::<Seq<char>, BlockquoteErr>(e),
        },
{
    let chars = to_chars(line);
    let n = chars.len();
    assert(chars@.subrange(0, n as int) =~= line@);
    let indent = indent_of(&chars);
    let (a, b) = trim_bounds(&chars, 0, n);
    let ghost t = trim(line@);
    if indent > 3 {
        return Err(BlockquoteErr::CodeBlockIndented);
    }
    if a == b {
        return Err(BlockquoteErr::NotBlockquoteMarker);
    }
    assert(chars@[a as int] == t[0]);
    if chars[a] != '>' {
        return Err(BlockquoteErr::NotBlockquoteMarker);
    }
    let mut from = a + 1;
    if from < b {
        assert(chars@[from as int] == t[1]);
        if chars[from] == ' ' || chars[from] == '\t' {
            from = from + 1;
        }
    }
    let content = slice_to_string(line, from, b);
    assert(content@ =~= t.skip(from - a));
    Ok(content)
}

/// The Blockquote of the quoted lines `contents`: its children are what the
/// lines, joined by newlines, hold as a text nested with a budget of `depth`
/// levels.
pub fn finalize(contents: Vec<String>, depth: usize) -> (node: Node)
    ensures
        node@ == resolve(Segment::Quote { lines: contents.deep_view() }, depth as nat),
    decreases depth, 6nat,
{
    let text = join(&contents);
    Node::Blockquote { children: parse_nested(text.as_str(), depth) }
}

/// What a line of a quoted text holds: the quoted part if the line carries a
/// marker, else the line trimmed.
pub open spec fn text_line(line: Seq<char>) -> Seq<char> {
    match quoted(line) {
        Ok(content) => content,
        Err(_) => trim(line),
    }
}

/// The blockquote that `text` is as a whole: its first line must carry a
/// marker; the lines after it may go without.
pub open spec fn quote_of_text(text: Seq<char>, depth: nat) -> Option<NodeView> {
    let lines = split_lines(text);
    if lines.len() == 0 || quoted(lines[0]) is Err {
        None
    } else {
        Some(
            resolve(
                Segment::Quote { lines: Seq::new(lines.len(), |i: int| text_line(lines[i])) },
                depth,
            ),
        )
    }
}

/// Reads `text` as one blockquote, with a budget of `depth` nesting levels
/// for what it holds.
pub fn parse_text(text: &str, depth: usize) -> (r: Option<Node>)
    ensures
        match r {
            Some(node) => quote_of_text(text@, depth as nat) == Some(node@),
            None => quote_of_text(text@, depth as nat) is None,
        },
{
    let lines = lines_of(text);
    let ghost all = lines.deep_view();
    let mut contents: Vec<String> = Vec::new();
    let mut i: usize = 0;
    while i < lines.len()
        invariant
            i <= lines.len(),
            all == lines.deep_view(),
            all == split_lines(text@),
            contents.len() == i,
            i > 0 ==> quoted(all[0]) is Ok,
            contents.deep_view() == Seq::new(i as nat, |k: int| text_line(all[k])),
        decreases lines.len() - i,
    {
        let ghost before = contents.deep_view();
        let piece = match parse(lines[i].as_str()) {
            Ok(content) => content,
            Err(_) => {
                if i == 0 {
                    return None;
                }
                trimmed(lines[i].as_str())
            },
        };
        assert(piece@ == text_line(all[i as int]));
        contents.push(piece);
        i += 1;
        assert(contents.deep_view() =~= before.push(piece@));
        assert(before.push(piece@) =~= Seq::new(i as nat, |k: int| text_line(all[k])));
    }
    if contents.len() == 0 {
        return None;
    }
    Some(finalize(contents, depth))
}

} // verus!
