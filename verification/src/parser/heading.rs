//! ATX headings: one to six `#`, then whitespace or the end of the line.

use vstd::prelude::*;
use crate::node::{Node, NodeView};
use crate::parser::helpers::{
    count_prefix,
    count_suffix,
    indent_of,
    indent_width,
    prefix_len,
    slice_to_string,
    suffix_len,
    to_chars,
    trim,
    trim_bounds,
    trim_end,
    trim_end_bound,
    CharClass,
};

verus! {

/// Why a line is no ATX heading.
#[derive(Debug, Clone, Copy, PartialEq, Eq, Structural)]
pub enum HeadingErr {
    /// Indented by four columns or more.
    CodeBlockIndented,
    /// Does not start with `#`.
    NotHashStart,
    /// Seven or more `#`.
    TooManyHashes,
    /// The `#` are followed by something other than a space or a tab.
    NoSpaceAfterHashes,
}

/// `s` without its closing sequence: the `#` at its end go, together with
/// the whitespace before them, if a space or a tab stands before them or
/// nothing stands before them at all. Otherwise they are text and stay.
pub open spec fn strip_closing(s: Seq<char>) -> Seq<char> {
    let hashes = suffix_len(s, CharClass::Exactly('#'));
    let body = s.take(s.len() - hashes);
    if hashes == 0 {
        s
    } else if body.len() == 0 {
        Seq::empty()
    } else if body.last() == ' ' || body.last() == '\t' {
        trim_end(body)
    } else {
        s
    }
}

/// What `line` is as an ATX heading: its level and text, or the first
/// reason against it.
pub open spec fn classify(line: Seq<char>) -> Result<(u8, Seq<char>), HeadingErr> {
    let t = trim(line);
    let level = prefix_len(t, CharClass::Exactly('#'));
    let rest = t.skip(level as int);
    if indent_width(line) > 3 {
        Err(HeadingErr::CodeBlockIndented)
    } else if level == 0 {
        Err(HeadingErr::NotHashStart)
    } else if level > 6 {
        Err(HeadingErr::TooManyHashes)
    } else if rest.len() == 0 || rest[0] == ' ' || rest[0] == '\t' {
        Ok((level as u8, strip_closing(trim(rest))))
    } else {
        Err(HeadingErr::NoSpaceAfterHashes)
    }
}

/// The Heading node of the given level over one text.
pub open spec fn heading_view(level: u8, text: Seq<char>) -> NodeView {
    NodeView::Heading { level, children: seq![NodeView::Text(text)] }
}

/// End of `chars[from..to]` once its closing sequence is stripped.
fn closing_bound(chars: &Vec<char>, from: usize, to: usize) -> (end: usize)
    requires
        from <= to <= chars.len(),
    ensures
        from <= end <= to,
        chars@.subrange(from as int, end as int) == strip_closing(
            chars@.subrange(from as int, to as int),
        ),
{
    let ghost s = chars@.subrange(from as int, to as int);
    let hashes = count_suffix(chars, from, to, CharClass::Exactly('#'));
    let body_end = to - hashes;
    proof {
        assert(chars@.subrange(from as int, body_end as int) =~= s.take(s.len() - hashes));
        assert(chars@.subrange(from as int, to as int) =~= s);
    }
    if hashes == 0 {
        to
    } else if body_end == from {
        assert(chars@.subrange(from as int, from as int) =~= Seq::<char>::empty());
        from
    } else {
        let last = chars[body_end - 1];
        assert(last == s.take(s.len() - hashes).last());
        if last == ' ' || last == '\t' {
            trim_end_bound(chars, from, body_end)
        } else {
            to
        }
    }
}

/// Removes a closing sequence of `#` from a heading's text.
pub fn strip_closing_hashes(s: &str) -> (r: &str)
    ensures
        r@ == strip_closing(s@),
{
    let chars = to_chars(s);
    assert(chars@.subrange(0, chars@.len() as int) =~= s@);
    let end = closing_bound(&chars, 0, chars.len());
    s.substring_char(0, end)
}

/// Recognises an ATX heading and builds its node.
pub fn parse(line: &str) -> (r: Result<Node, HeadingErr>)
    ensures
        match r {
            Ok(node) => classify(line@) matches Ok((level, text)) && node@ == heading_view(
                level,
                text,
            ),
            Err(e) => classify(line@) == Err::<(u8, Seq<char>), HeadingErr>(e),
        },
{
    let chars = to_chars(line);
    let indent = indent_of(&chars);
    let (a, b) = trim_bounds(&chars, 0, chars.len());
    let ghost t = trim(line@);
    assert(chars@.subrange(0, chars@.len() as int) =~= line@);
    if indent > 3 {
        return Err(HeadingErr::CodeBlockIndented);
    }
    let level = count_prefix(&chars, a, b, CharClass::Exactly('#'));
    if level == 0 {
        return Err(HeadingErr::NotHashStart);
    }
    if level > 6 {
        return Err(HeadingErr::TooManyHashes);
    }
    let rest_start = a + level;
    let ghost rest = t.skip(level as int);
    assert(rest =~= chars@.subrange(rest_start as int, b as int));
    if rest_start < b {
        let next = chars[rest_start];
        assert(next == rest[0]);
        if next != ' ' && next != '\t' {
            return Err(HeadingErr::NoSpaceAfterHashes);
        }
    }
    let (c, d) = trim_bounds(&chars, rest_start, b);
    let end = closing_bound(&chars, c, d);
    let text = slice_to_string(line, c, end);
    Ok(Node::Heading { level: level as u8, children: Node::one_text(text) })
}

} // verus!
