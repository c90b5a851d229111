//! Thematic breaks: a line of three or more `*`, `-` or `_`, with nothing
//! but spaces and tabs between them.

use vstd::prelude::*;
use crate::node::{Node, NodeView};
use crate::parser::helpers::{indent_of, indent_width, to_chars, trim, trim_bounds};

verus! {

/// Why a line is no thematic break.
#[derive(Debug, Clone, Copy, PartialEq, Eq, Structural)]
pub enum ThematicBreakErr {
    /// Indented by four columns or more.
    CodeBlockIndented,
    /// Nothing but whitespace.
    Empty,
    /// The first character is none of `*`, `-`, `_`.
    InvalidMarker,
    /// Fewer than three marker characters.
    InsufficientMarkers,
    /// A character other than the marker, a space or a tab.
    MixedCharacters,
}

/// The characters that can draw a thematic break.
pub open spec fn is_break_marker(c: char) -> bool {
    c == '*' || c == '-' || c == '_'
}

/// Number of occurrences of `c` in `s`.
pub open spec fn count_char(s: Seq<char>, c: char) -> nat
    decreases s.len(),
{
    if s.len() == 0 {
        0
    } else {
        count_char(s.drop_last(), c) + if s.last() == c {
            1nat
        } else {
            0nat
        }
    }
}

/// `c` is `marker`, a space or a tab.
pub open spec fn is_marker_or_gap(c: char, marker: char) -> bool {
    c == marker || c == ' ' || c == '\t'
}

/// Every character of `s` is `marker`, a space or a tab.
pub open spec fn only_marker_and_gaps(s: Seq<char>, marker: char) -> bool {
    forall|i: int| 0 <= i < s.len() ==> is_marker_or_gap(#[trigger] s[i], marker)
}

/// What `line` is as a thematic break: `Ok` if it is one, else the first
/// reason against it.
pub open spec fn classify(line: Seq<char>) -> Result<(), ThematicBreakErr> {
    let t = trim(line);
    if indent_width(line) > 3 {
        Err(ThematicBreakErr::CodeBlockIndented)
    } else if t.len() == 0 {
        Err(ThematicBreakErr::Empty)
    } else if !is_break_marker(t[0]) {
        Err(ThematicBreakErr::InvalidMarker)
    } else if !only_marker_and_gaps(t, t[0]) {
        Err(ThematicBreakErr::MixedCharacters)
    } else if count_char(t, t[0]) < 3 {
        Err(ThematicBreakErr::InsufficientMarkers)
    } else {
        Ok(())
    }
}

/// Whether `line` is a thematic break.
pub open spec fn is_thematic_break(line: Seq<char>) -> bool {
    classify(line) is Ok
}

/// A line that holds two different marker characters is no thematic break.
pub proof fn lemma_mixed_markers_never_break(line: Seq<char>, i: int, j: int)
    requires
        0 <= i < trim(line).len(),
        0 <= j < trim(line).len(),
        is_break_marker(trim(line)[i]),
        is_break_marker(trim(line)[j]),
        trim(line)[i] != trim(line)[j],
    ensures
        !is_thematic_break(line),
{
    let t = trim(line);
    if only_marker_and_gaps(t, t[0]) {
        assert(t[i] == t[0]);
        assert(t[j] == t[0]);
    }
}

/// Recognises a thematic break.
pub fn parse(line: &str) -> (r: Result<Node, ThematicBreakErr>)
    ensures
        match r {
            Ok(node) => is_thematic_break(line@) && node@ == NodeView::ThematicBreak,
            Err(e) => classify(line@) == Err::<(), ThematicBreakErr>(e),
        },
{
    let chars = to_chars(line);
    let indent = indent_of(&chars);
    let (a, b) = trim_bounds(&chars, 0, chars.len());
    let ghost t = trim(line@);
    assert(chars@.subrange(0, chars@.len() as int) =~= line@);
    if indent > 3 {
        return Err(ThematicBreakErr::CodeBlockIndented);
    }
    if a == b {
        return Err(ThematicBreakErr::Empty);
    }
    let first = chars[a];
    assert(first == t[0]);
    if first != '*' && first != '-' && first != '_' {
        return Err(ThematicBreakErr::InvalidMarker);
    }
    let mut count: usize = 0;
    let mut i: usize = a;
    assert(t.take(0) =~= Seq::<char>::empty());
    while i < b
        invariant
            a <= i <= b <= chars.len(),
            t == chars@.subrange(a as int, b as int),
            t == trim(line@),
            indent_width(line@) <= 3,
            is_break_marker(first),
            first == t[0],
            count == count_char(t.take(i - a), first),
            count <= i - a,
            only_marker_and_gaps(t.take(i - a), first),
        decreases b - i,
    {
        let c = chars[i];
        assert(c == t[i - a]);
        proof {
            assert(t.take(i + 1 - a).drop_last() =~= t.take(i - a));
            assert(t.take(i + 1 - a).last() == c);
        }
        if c == first {
            count += 1;
        } else if c != ' ' && c != '\t' {
            assert(!is_marker_or_gap(t[i - a], first));
            return Err(ThematicBreakErr::MixedCharacters);
        }
        i += 1;
        assert forall|k: int| 0 <= k < t.take(i - a).len() implies is_marker_or_gap(
            #[trigger] t.take(i - a)[k],
            first,
        ) by {
            if k < i - 1 - a {
                assert(t.take(i - a)[k] == t.take(i - 1 - a)[k]);
            }
        }
    }
    assert(t.take(b - a) =~= t);
    if count < 3 {
        return Err(ThematicBreakErr::InsufficientMarkers);
    }
    Ok(Node::ThematicBreak)
}

} // verus!
