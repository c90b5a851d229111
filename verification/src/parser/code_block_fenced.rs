//! Fenced code blocks: lines between a fence of three or more backticks or
//! tildes and a closing fence of the same character, at least as long.

use vstd::prelude::*;
use crate::node::{option_view, Node, NodeView};
use crate::parser::helpers::{
    count_prefix,
    is_blank,
    join,
    join_lines,
    lines_of,
    prefix_len,
    remove_indent,
    slice_to_string,
    split_lines,
    to_chars,
    trim,
    trim_bounds,
    without_indent,
    CharClass,
};

verus! {

/// An opening fence.
#[derive(Debug, Clone, PartialEq)]
pub struct CodeBlockFencedStart {
    /// The fence character: a backtick or a tilde.
    pub fence_char: char,
    /// Length of the fence, 3 at least.
    pub fence_len: usize,
    /// The info string, if there is one.
    pub info: Option<String>,
    /// Number of spaces before the fence.
    pub indent: usize,
}

/// Model of a [`CodeBlockFencedStart`].
pub struct FenceView {
    pub fence_char: char,
    pub fence_len: nat,
    pub info: Option<Seq<char>>,
    pub indent: nat,
}

impl FenceView {
    /// What holds of every fence that a line opens: it is made of three or
    /// more backticks or tildes, behind at most three spaces, and its info
    /// string, if it has one, is not empty.
    pub open spec fn well_formed(self) -> bool {
        &&& self.fence_char == '`' || self.fence_char == '~'
        &&& self.fence_len >= 3
        &&& self.indent <= 3
        &&& self.info matches Some(info) ==> info.len() > 0
    }
}

impl View for CodeBlockFencedStart {
    type V = FenceView;

    open spec fn view(&self) -> FenceView {
        FenceView {
            fence_char: self.fence_char,
            fence_len: self.fence_len as nat,
            info: option_view(self.info),
            indent: self.indent as nat,
        }
    }
}

/// An opening fence was found.
#[derive(Debug, Clone, PartialEq)]
pub enum CodeBlockFencedStartReason {
    /// The line opens a fenced code block.
    Started(CodeBlockFencedStart),
}

/// Why a line opens no fenced code block.
#[derive(Debug, Clone, Copy, PartialEq, Eq, Structural)]
pub enum CodeBlockFencedNotStartReason {
    /// Four or more spaces before the text.
    CodeBlockIndented,
    /// No run of three backticks or tildes.
    NoFence,
}

/// A closing fence was found.
#[derive(Debug, Clone, Copy, PartialEq, Eq, Structural)]
pub enum CodeBlockFencedEndReason {
    /// The line closes the block.
    ClosingFence,
}

/// Why a line does not close a fenced code block.
#[derive(Debug, Clone, Copy, PartialEq, Eq, Structural)]
pub enum CodeBlockFencedContinueReason {
    /// Four or more spaces before the text.
    TooMuchIndent,
    /// A fence shorter than the opening one.
    FenceTooShort,
    /// No fence of the opening character.
    FenceCharMismatch,
    /// Something other than whitespace after the fence.
    TextAfterFence,
}

/// Role of a line with respect to a fenced code block.
#[derive(Debug, Clone, PartialEq)]
pub enum CodeBlockFencedOk {
    /// The line opens a block.
    Start(CodeBlockFencedStart),
    /// The line is content; it is given without the fence's indentation.
    Content(String),
    /// The line closes the block.
    End,
}

/// Model of a [`CodeBlockFencedOk`].
pub enum FencedLineView {
    Start(FenceView),
    Content(Seq<char>),
    End,
}

impl View for CodeBlockFencedOk {
    type V = FencedLineView;

    open spec fn view(&self) -> FencedLineView {
        match self {
            CodeBlockFencedOk::Start(start) => FencedLineView::Start(start@),
            CodeBlockFencedOk::Content(text) => FencedLineView::Content(text@),
            CodeBlockFencedOk::End => FencedLineView::End,
        }
    }
}

/// Why a line opens no fenced code block.
#[derive(Debug, Clone, Copy, PartialEq, Eq, Structural)]
pub enum CodeBlockFencedErr {
    /// Four or more spaces before the text.
    CodeBlockIndented,
    /// No run of three backticks or tildes.
    NoFence,
}

/// The info string after a fence: the rest of the line, trimmed, if anything
/// is left of it.
pub open spec fn info_of(rest: Seq<char>) -> Option<Seq<char>> {
    if trim(rest).len() == 0 {
        None
    } else {
        Some(trim(rest))
    }
}

/// What `line` is as an opening fence: after at most three spaces, a run of
/// three or more backticks or of three or more tildes. The rest of the line
/// is the info string.
pub open spec fn opening(line: Seq<char>) -> Result<FenceView, CodeBlockFencedNotStartReason> {
    let indent = prefix_len(line, CharClass::Exactly(' '));
    let after = line.skip(indent as int);
    let ticks = prefix_len(after, CharClass::Exactly('`'));
    let tildes = prefix_len(after, CharClass::Exactly('~'));
    if indent > 3 {
        Err(CodeBlockFencedNotStartReason::CodeBlockIndented)
    } else if ticks >= 3 {
        Ok(
            FenceView {
                fence_char: '`',
                fence_len: ticks,
                info: info_of(after.skip(ticks as int)),
                indent,
            },
        )
    } else if tildes >= 3 {
        Ok(
            FenceView {
                fence_char: '~',
                fence_len: tildes,
                info: info_of(after.skip(tildes as int)),
                indent,
            },
        )
    } else {
        Err(CodeBlockFencedNotStartReason::NoFence)
    }
}

/// What `line` is as the closing fence of a block opened with `min_len`
/// characters `fence_char`: after at most three spaces, a run of `fence_char`
/// that is at least `min_len` long, and then nothing but whitespace.
pub open spec fn closing(line: Seq<char>, fence_char: char, min_len: nat) -> Result<
    CodeBlockFencedEndReason,
    CodeBlockFencedContinueReason,
> {
    let indent = prefix_len(line, CharClass::Exactly(' '));
    let after = line.skip(indent as int);
    let run = prefix_len(after, CharClass::Exactly(fence_char));
    if indent > 3 {
        Err(CodeBlockFencedContinueReason::TooMuchIndent)
    } else if run == 0 {
        Err(CodeBlockFencedContinueReason::FenceCharMismatch)
    } else if run < min_len {
        Err(CodeBlockFencedContinueReason::FenceTooShort)
    } else if !is_blank(after.skip(run as int)) {
        Err(CodeBlockFencedContinueReason::TextAfterFence)
    } else {
        Ok(CodeBlockFencedEndReason::ClosingFence)
    }
}

/// A fence that a line opens is well formed.
pub proof fn lemma_opening_well_formed(line: Seq<char>)
    ensures
        opening(line) matches Ok(fence) ==> fence.well_formed(),
{
}

/// A closing fence starts with the opening character and is at least as
/// long as the opening fence.
pub proof fn lemma_closing_fence_matches(line: Seq<char>, fence_char: char, min_len: nat)
    requires
        closing(line, fence_char, min_len) is Ok,
    ensures
        ({
            let indent = prefix_len(line, CharClass::Exactly(' '));
            let run = prefix_len(line.skip(indent as int), CharClass::Exactly(fence_char));
            &&& indent <= 3
            &&& run >= min_len
            &&& run >= 1
            &&& indent + run <= line.len()
            &&& forall|i: int| indent <= i < indent + run ==> line[i] == fence_char
        }),
{
    let indent = prefix_len(line, CharClass::Exactly(' '));
    let after = line.skip(indent as int);
    crate::parser::helpers::lemma_prefix_len(line, CharClass::Exactly(' '));
    crate::parser::helpers::lemma_prefix_len(after, CharClass::Exactly(fence_char));
    let run = prefix_len(after, CharClass::Exactly(fence_char));
    assert forall|i: int| indent <= i < indent + run implies line[i] == fence_char by {
        assert(after[i - indent] == line[i]);
        assert(CharClass::Exactly(fence_char).has(after[i - indent]));
    }
}

/// Role of `line` inside a block opened by `start`: the closing fence, or
/// content. A line indented by four or more spaces is always content.
pub open spec fn continued(line: Seq<char>, start: FenceView) -> FencedLineView {
    let indent = prefix_len(line, CharClass::Exactly(' '));
    let after = line.skip(indent as int);
    let run = prefix_len(after, CharClass::Exactly(start.fence_char));
    if indent <= 3 && run >= start.fence_len && is_blank(after.skip(run as int)) {
        FencedLineView::End
    } else {
        FencedLineView::Content(without_indent(line, start.indent))
    }
}

/// Role of `line`: with no block open, whether it opens one; inside the
/// block opened by `start`, whether it closes it or is content.
pub open spec fn line_role(line: Seq<char>, start: Option<FenceView>) -> Result<
    FencedLineView,
    CodeBlockFencedErr,
> {
    match start {
        None => match opening(line) {
            Ok(fence) => Ok(FencedLineView::Start(fence)),
            Err(CodeBlockFencedNotStartReason::CodeBlockIndented) => Err(
                CodeBlockFencedErr::CodeBlockIndented,
            ),
            Err(CodeBlockFencedNotStartReason::NoFence) => Err(CodeBlockFencedErr::NoFence),
        },
        Some(fence) => Ok(continued(line, fence)),
    }
}

/// The CodeBlock node with the given info string and content.
pub open spec fn code_block_view(info: Option<Seq<char>>, content: Seq<char>) -> NodeView {
    NodeView::CodeBlock { info, content }
}

/// Each of `lines` without up to `n` leading spaces.
pub open spec fn unindent_all(lines: Seq<Seq<char>>, n: nat) -> Seq<Seq<char>> {
    Seq::new(lines.len(), |i: int| without_indent(lines[i], n))
}

/// The code block that `text` is as a whole: its first line must open a
/// fence; its last line is dropped if it is a closing fence and not the
/// first line; the lines between are the content.
pub open spec fn block_of_text(text: Seq<char>) -> Option<NodeView> {
    let lines = split_lines(text);
    if lines.len() == 0 {
        None
    } else {
        match opening(lines[0]) {
            Err(_) => None,
            Ok(fence) => {
                let closed = lines.len() >= 2 && continued(lines.last(), fence)
                    is End;
                let body = if closed {
                    lines.subrange(1, lines.len() - 1)
                } else {
                    lines.skip(1)
                };
                Some(
                    code_block_view(
                        fence.info,
                        join_lines(unindent_all(body, fence.indent)),
                    ),
                )
            },
        }
    }
}

/// Recognises an opening fence.
pub fn try_start(line: &str) -> (r: Result<
    CodeBlockFencedStartReason,
    CodeBlockFencedNotStartReason,
>)
    ensures
        match r {
            Ok(CodeBlockFencedStartReason::Started(start)) => opening(line@) == Ok::<
                FenceView,
                CodeBlockFencedNotStartReason,
            >(start@) && start@.well_formed(),
            Err(e) => opening(line@) == Err::<FenceView, CodeBlockFencedNotStartReason>(e),
        },
{
    let chars = to_chars(line);
    let n = chars.len();
    assert(chars@.subrange(0, n as int) =~= line@);
    let indent = count_prefix(&chars, 0, n, CharClass::Exactly(' '));
    if indent > 3 {
        return Err(CodeBlockFencedNotStartReason::CodeBlockIndented);
    }
    let ghost after = line@.skip(indent as int);
    assert(chars@.subrange(indent as int, n as int) =~= after);
    let ticks = count_prefix(&chars, indent, n, CharClass::Exactly('`'));
    let tildes = count_prefix(&chars, indent, n, CharClass::Exactly('~'));
    let (fence_char, fence_len) = if ticks >= 3 {
        ('`', ticks)
    } else if tildes >= 3 {
        ('~', tildes)
    } else {
        return Err(CodeBlockFencedNotStartReason::NoFence);
    };
    let rest_start = indent + fence_len;
    assert(chars@.subrange(rest_start as int, n as int) =~= after.skip(fence_len as int));
    let (a, b) = trim_bounds(&chars, rest_start, n);
    let info = if a == b {
        None
    } else {
        Some(slice_to_string(line, a, b))
    };
    Ok(
        CodeBlockFencedStartReason::Started(
            CodeBlockFencedStart { fence_char, fence_len, info, indent },
        ),
    )
}

/// Recognises the closing fence of a block opened with `min_fence_len`
/// characters `fence_char`.
pub fn try_end(line: &str, fence_char: char, min_fence_len: usize) -> (r: Result<
    CodeBlockFencedEndReason,
    CodeBlockFencedContinueReason,
>)
    ensures
        r == closing(line@, fence_char, min_fence_len as nat),
{
    let chars = to_chars(line);
    let n = chars.len();
    assert(chars@.subrange(0, n as int) =~= line@);
    let indent = count_prefix(&chars, 0, n, CharClass::Exactly(' '));
    if indent > 3 {
        return Err(CodeBlockFencedContinueReason::TooMuchIndent);
    }
    let ghost after = line@.skip(indent as int);
    assert(chars@.subrange(indent as int, n as int) =~= after);
    let run = count_prefix(&chars, indent, n, CharClass::Exactly(fence_char));
    if run == 0 {
        return Err(CodeBlockFencedContinueReason::FenceCharMismatch);
    }
    if run < min_fence_len {
        return Err(CodeBlockFencedContinueReason::FenceTooShort);
    }
    let rest_start = indent + run;
    assert(chars@.subrange(rest_start as int, n as int) =~= after.skip(run as int));
    if count_prefix(&chars, rest_start, n, CharClass::Whitespace) != n - rest_start {
        return Err(CodeBlockFencedContinueReason::TextAfterFence);
    }
    Ok(CodeBlockFencedEndReason::ClosingFence)
}

/// Role of a line when no block is open.
pub fn parse_start(line: &str) -> (r: Result<CodeBlockFencedOk, CodeBlockFencedErr>)
    ensures
        match r {
            Ok(role) => line_role(line@, None) == Ok::<FencedLineView, CodeBlockFencedErr>(role@),
            Err(e) => line_role(line@, None) == Err::<FencedLineView, CodeBlockFencedErr>(e),
        },
{
    match try_start(line) {
        Ok(CodeBlockFencedStartReason::Started(start)) => Ok(CodeBlockFencedOk::Start(start)),
        Err(CodeBlockFencedNotStartReason::CodeBlockIndented) => Err(
            CodeBlockFencedErr::CodeBlockIndented,
        ),
        Err(CodeBlockFencedNotStartReason::NoFence) => Err(CodeBlockFencedErr::NoFence),
    }
}

/// Role of a line inside the block opened by `start`.
pub fn parse_continue(line: &str, start: &CodeBlockFencedStart) -> (role: CodeBlockFencedOk)
    ensures
        role@ == continued(line@, start@),
{
    let chars = to_chars(line);
    let n = chars.len();
    assert(chars@.subrange(0, n as int) =~= line@);
    let indent = count_prefix(&chars, 0, n, CharClass::Exactly(' '));
    if indent > 3 {
        return CodeBlockFencedOk::Content(remove_indent(line, start.indent).to_owned());
    }
    let ghost after = line@.skip(indent as int);
    assert(chars@.subrange(indent as int, n as int) =~= after);
    let run = count_prefix(&chars, indent, n, CharClass::Exactly(start.fence_char));
    let rest_start = indent + run;
    assert(chars@.subrange(rest_start as int, n as int) =~= after.skip(run as int));
    if run >= start.fence_len && count_prefix(&chars, rest_start, n, CharClass::Whitespace) == n
        - rest_start {
        return CodeBlockFencedOk::End;
    }
    CodeBlockFencedOk::Content(remove_indent(line, start.indent).to_owned())
}

/// Role of `line`: with `start` absent, whether it opens a block; with the
/// opening fence given, whether it closes that block or is content.
pub fn parse(line: &str, start: Option<&CodeBlockFencedStart>) -> (r: Result<
    CodeBlockFencedOk,
    CodeBlockFencedErr,
>)
    ensures
        match r {
            Ok(role) => line_role(
                line@,
                match start {
                    Some(s) => Some(s@),
                    None => None,
                },
            ) == Ok::<FencedLineView, CodeBlockFencedErr>(role@),
            Err(e) => line_role(
                line@,
                match start {
                    Some(s) => Some(s@),
                    None => None,
                },
            ) == Err::<FencedLineView, CodeBlockFencedErr>(e),
        },
{
    match start {
        None => parse_start(line),
        Some(s) => Ok(parse_continue(line, s)),
    }
}

/// The CodeBlock of an opening fence and the content lines after it.
pub fn finalize(start: CodeBlockFencedStart, content: Vec<String>) -> (node: Node)
    ensures
        node@ == code_block_view(start@.info, join_lines(content.deep_view())),
{
    let text = join(&content);
    Node::CodeBlock { info: start.info, content: text }
}

/// Reads `text` as one fenced code block, from its opening fence to its
/// last line.
pub fn parse_text(text: &str) -> (r: Option<Node>)
    ensures
        match r {
            Some(node) => block_of_text(text@) == Some(node@),
            None => block_of_text(text@) is None,
        },
{
    let lines = lines_of(text);
    if lines.len() == 0 {
        return None;
    }
    let start = match parse(lines[0].as_str(), None) {
        Ok(CodeBlockFencedOk::Start(s)) => s,
        _ => {
            return None;
        },
    };
    let last = lines.len() - 1;
    let closed = if lines.len() >= 2 {
        match parse_continue(lines[last].as_str(), &start) {
            CodeBlockFencedOk::End => true,
            _ => false,
        }
    } else {
        false
    };
    let stop = if closed {
        last
    } else {
        lines.len()
    };
    let ghost all = lines.deep_view();
    let ghost body = all.subrange(1, stop as int);
    let mut content: Vec<String> = Vec::new();
    let mut i: usize = 1;
    while i < stop
        invariant
            1 <= i <= stop <= lines.len(),
            all == lines.deep_view(),
            body == all.subrange(1, stop as int),
            content.deep_view() == unindent_all(body.take(i - 1), start.indent as nat),
        decreases stop - i,
    {
        let ghost before = content.deep_view();
        let piece = remove_indent(lines[i].as_str(), start.indent).to_owned();
        content.push(piece);
        assert(content.deep_view() =~= before.push(piece@));
        i += 1;
        assert(content.deep_view() =~= unindent_all(body.take(i - 1), start.indent as nat));
    }
    proof {
        assert(body.take(stop - 1) =~= body);
        assert(all.skip(1) =~= all.subrange(1, all.len() as int));
        assert(all.last() == lines[last as int]@);
    }
    Some(finalize(start, content))
}

} // verus!
