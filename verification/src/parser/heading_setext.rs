//! Setext headings: a paragraph followed by a line of `=` or of `-`.

use vstd::prelude::*;
use crate::parser::helpers::{
    count_prefix,
    prefix_len,
    to_chars,
    trim_end,
    trim_end_bound,
    CharClass,
};

verus! {

/// Level that an underline gives to the paragraph above it.
#[derive(Debug, Clone, Copy, PartialEq, Eq, Structural)]
pub enum SetextLevel {
    /// An underline of `=`: level 1.
    Level1,
    /// An underline of `-`: level 2.
    Level2,
}

impl SetextLevel {
    /// The level as a number.
    pub open spec fn level(self) -> u8 {
        match self {
            SetextLevel::Level1 => 1,
            SetextLevel::Level2 => 2,
        }
    }

    /// The level as a number, for a Heading node.
    pub fn to_level(self) -> (n: u8)
        ensures
            n == self.level(),
            1 <= n <= 2,
    {
        match self {
            SetextLevel::Level1 => 1,
            SetextLevel::Level2 => 2,
        }
    }
}

/// A recognised underline.
#[derive(Debug, Clone, Copy, PartialEq, Eq, Structural)]
pub struct HeadingSetextStart {
    /// Level of the heading.
    pub level: SetextLevel,
}

/// An underline was found.
#[derive(Debug, Clone, Copy, PartialEq, Eq, Structural)]
pub enum HeadingSetextStartReason {
    /// The line is a valid underline.
    Started(HeadingSetextStart),
}

/// Why a line is no underline.
#[derive(Debug, Clone, Copy, PartialEq, Eq, Structural)]
pub enum HeadingSetextNotStartReason {
    /// Indented by four columns or more.
    CodeBlockIndented,
    /// Nothing but whitespace.
    Empty,
    /// The first character is neither `=` nor `-`.
    NotUnderlineChar,
    /// Something other than the first character occurs.
    MixedChars,
}

/// What `line`, indented by `indent` columns, is as an underline: the line
/// without trailing whitespace must be a run of `=` or a run of `-`.
pub open spec fn underline(line: Seq<char>, indent: nat) -> Result<
    HeadingSetextStartReason,
    HeadingSetextNotStartReason,
> {
    let t = trim_end(line);
    if indent > 3 {
        Err(HeadingSetextNotStartReason::CodeBlockIndented)
    } else if t.len() == 0 {
        Err(HeadingSetextNotStartReason::Empty)
    } else if t[0] != '=' && t[0] != '-' {
        Err(HeadingSetextNotStartReason::NotUnderlineChar)
    } else if prefix_len(t, CharClass::Exactly(t[0])) != t.len() {
        Err(HeadingSetextNotStartReason::MixedChars)
    } else if t[0] == '=' {
        Ok(HeadingSetextStartReason::Started(HeadingSetextStart { level: SetextLevel::Level1 }))
    } else {
        Ok(HeadingSetextStartReason::Started(HeadingSetextStart { level: SetextLevel::Level2 }))
    }
}

/// The level that `line` gives as an underline, if it is one.
pub open spec fn underline_level(line: Seq<char>, indent: nat) -> Option<SetextLevel> {
    match underline(line, indent) {
        Ok(HeadingSetextStartReason::Started(start)) => Some(start.level),
        Err(_) => None,
    }
}

/// Recognises the underline of a setext heading. `indent` is the line's
/// indentation in columns; `line` may come with or without it.
pub fn try_start(line: &str, indent: usize) -> (r: Result<
    HeadingSetextStartReason,
    HeadingSetextNotStartReason,
>)
    ensures
        r == underline(line@, indent as nat),
{
    if indent > 3 {
        return Err(HeadingSetextNotStartReason::CodeBlockIndented);
    }
    let chars = to_chars(line);
    assert(chars@.subrange(0, chars@.len() as int) =~= line@);
    let end = trim_end_bound(&chars, 0, chars.len());
    let ghost t = trim_end(line@);
    if end == 0 {
        return Err(HeadingSetextNotStartReason::Empty);
    }
    let first = chars[0];
    assert(first == t[0]);
    if first != '=' && first != '-' {
        return Err(HeadingSetextNotStartReason::NotUnderlineChar);
    }
    let run = count_prefix(&chars, 0, end, CharClass::Exactly(first));
    if run != end {
        return Err(HeadingSetextNotStartReason::MixedChars);
    }
    let level = if first == '=' {
        SetextLevel::Level1
    } else {
        SetextLevel::Level2
    };
    Ok(HeadingSetextStartReason::Started(HeadingSetextStart { level }))
}

} // verus!
