//! Indented code blocks: lines that start with four or more spaces.

use vstd::prelude::*;
use crate::parser::helpers::{
    count_prefix,
    is_blank,
    prefix_len,
    slice_to_string,
    to_chars,
    CharClass,
};

verus! {

/// A line of indented code.
#[derive(Debug, Clone, PartialEq)]
pub struct CodeBlockIndentedStart {
    /// The line without its first four spaces.
    pub content: String,
}

impl View for CodeBlockIndentedStart {
    type V = Seq<char>;

    open spec fn view(&self) -> Seq<char> {
        self.content@
    }
}

/// A line of indented code was found.
#[derive(Debug, Clone, PartialEq)]
pub enum CodeBlockIndentedStartReason {
    /// The line is indented code.
    Started(CodeBlockIndentedStart),
}

/// Why a line is no indented code.
#[derive(Debug, Clone, Copy, PartialEq, Eq, Structural)]
pub enum CodeBlockIndentedNotStartReason {
    /// Fewer than four leading spaces and nothing but whitespace.
    Empty,
    /// Fewer than four leading spaces before some text.
    InsufficientIndent,
}

/// What `line` is as indented code: its content, which is the line without
/// exactly four leading spaces, or the reason against it.
pub open spec fn indented(line: Seq<char>) -> Result<Seq<char>, CodeBlockIndentedNotStartReason> {
    if prefix_len(line, CharClass::Exactly(' ')) >= 4 {
        Ok(line.skip(4))
    } else if is_blank(line) {
        Err(CodeBlockIndentedNotStartReason::Empty)
    } else {
        Err(CodeBlockIndentedNotStartReason::InsufficientIndent)
    }
}

/// Recognises a line of indented code.
pub fn try_start(line: &str) -> (r: Result<
    CodeBlockIndentedStartReason,
    CodeBlockIndentedNotStartReason,
>)
    ensures
        match r {
            Ok(CodeBlockIndentedStartReason::Started(start)) => indented(line@) == Ok::<
                Seq<char>,
                CodeBlockIndentedNotStartReason,
            >(start@),
            Err(e) => indented(line@) == Err::<Seq<char>, CodeBlockIndentedNotStartReason>(e),
        },
{
    let chars = to_chars(line);
    let n = chars.len();
    assert(chars@.subrange(0, n as int) =~= line@);
    let spaces = count_prefix(&chars, 0, n, CharClass::Exactly(' '));
    if spaces >= 4 {
        let content = slice_to_string(line, 4, n);
        assert(content@ =~= line@.skip(4));
        return Ok(CodeBlockIndentedStartReason::Started(CodeBlockIndentedStart { content }));
    }
    if count_prefix(&chars, 0, n, CharClass::Whitespace) == n {
        return Err(CodeBlockIndentedNotStartReason::Empty);
    }
    Err(CodeBlockIndentedNotStartReason::InsufficientIndent)
}

} // verus!
