//! The parsing-state machine as a mathematical function.
//!
//! [`step`] maps a state and a line to the segments that the line finishes
//! and to the next state. A [`Segment`] is a finished block whose nested
//! text is still unread; [`segments`] gives the segments of a whole text.

use vstd::prelude::*;
use crate::node::{ListType, NodeView};
use crate::parser::blockquote::quoted;
use crate::parser::code_block_fenced::{closing, code_block_view, opening, FenceView};
use crate::parser::code_block_indented::{indented, CodeBlockIndentedNotStartReason};
use crate::parser::heading::{classify, heading_view};
use crate::parser::heading_setext::underline_level;
use crate::parser::helpers::{
    indent_width,
    is_blank,
    is_whitespace,
    join_lines,
    split_lines,
    trim,
    without_blank_edges,
    without_indent,
};
use crate::parser::list_item::{
    item_start,
    list_end,
    ContinueView,
    ItemLineView,
    ItemStartView,
    ListEndReason,
};
use crate::parser::paragraph::paragraph_view;
use crate::parser::thematic_break::is_thematic_break;

verus! {

/// Model of the parsing state.
pub enum ContextView {
    /// No block is open.
    Idle,
    /// A paragraph is open; `lines` are its trimmed lines.
    Paragraph { lines: Seq<Seq<char>> },
    /// A blockquote is open; `lines` are its lines without their markers.
    Blockquote { lines: Seq<Seq<char>> },
    /// A fenced code block is open.
    CodeBlockFenced { start: FenceView, content: Seq<Seq<char>> },
    /// An indented code block is open; `pending_blank_count` blank lines
    /// were seen after the last line of code.
    CodeBlockIndented { lines: Seq<Seq<char>>, pending_blank_count: nat },
    /// A list is open.
    List {
        first_item_start: ItemStartView,
        items: Seq<Seq<ItemLineView>>,
        current_item_lines: Seq<ItemLineView>,
        current_content_indent: nat,
        tight: bool,
        pending_blank_count: nat,
    },
}

impl ContextView {
    /// What holds of every state that the machine reaches: an open block has
    /// at least one line; a paragraph's lines are trimmed and not blank; an
    /// open fence and the first marker of an open list are well formed.
    pub open spec fn well_formed(self) -> bool {
        match self {
            ContextView::Idle => true,
            ContextView::Paragraph { lines } => lines.len() > 0 && forall|i: int|
                0 <= i < lines.len() ==> is_trimmed(#[trigger] lines[i]),
            ContextView::Blockquote { lines } => lines.len() > 0,
            ContextView::CodeBlockFenced { start, .. } => start.well_formed(),
            ContextView::CodeBlockIndented { lines, .. } => lines.len() > 0 && !is_blank(lines[0]),
            ContextView::List {
                first_item_start,
                current_item_lines,
                current_content_indent,
                ..
            } => first_item_start.well_formed() && current_item_lines.len() > 0 && 0
                < current_content_indent <= 17,
        }
    }
}

/// A text that is not empty and neither starts nor ends with whitespace.
pub open spec fn is_trimmed(text: Seq<char>) -> bool {
    text.len() > 0 && !is_whitespace(text[0]) && !is_whitespace(text.last())
}

/// A stretch of an item's content.
pub enum ItemPart {
    /// Text that becomes a Paragraph as it stands.
    Plain(Seq<char>),
    /// Text that is read as blocks.
    Nested(Seq<char>),
}

/// A finished block whose nested text is not read yet.
pub enum Segment {
    /// A leaf block.
    Leaf(NodeView),
    /// A blockquote with its lines, markers stripped.
    Quote { lines: Seq<Seq<char>> },
    /// A list with the parts of each item.
    List { list_type: ListType, start: usize, tight: bool, items: Seq<Seq<ItemPart>> },
}

/// The texts of an item's lines.
pub open spec fn contents(lines: Seq<ItemLineView>) -> Seq<Seq<char>> {
    Seq::new(lines.len(), |i: int| lines[i].content)
}

/// Whether any of the lines is flagged as plain text.
pub open spec fn any_text_only(lines: Seq<ItemLineView>) -> bool {
    exists|i: int| 0 <= i < lines.len() && (#[trigger] lines[i]).text_only
}

/// The part that a run of lines makes: plain if any of them is flagged.
pub open spec fn part_of(chunk: Seq<ItemLineView>) -> ItemPart {
    if any_text_only(chunk) {
        ItemPart::Plain(join_lines(contents(chunk)))
    } else {
        ItemPart::Nested(join_lines(contents(chunk)))
    }
}

/// A line that separates two runs: blank and not flagged.
pub open spec fn is_separator(line: ItemLineView) -> bool {
    is_blank(line.content) && !line.text_only
}

/// The runs of `lines` between separators: the finished ones as parts, and
/// the lines of the run that is still open.
pub open spec fn chunked(lines: Seq<ItemLineView>) -> (Seq<ItemPart>, Seq<ItemLineView>)
    decreases lines.len(),
{
    if lines.len() == 0 {
        (Seq::empty(), Seq::empty())
    } else {
        let (parts, open) = chunked(lines.drop_last());
        if is_separator(lines.last()) {
            if open.len() > 0 {
                (parts.push(part_of(open)), Seq::empty())
            } else {
                (parts, open)
            }
        } else {
            (parts, open.push(lines.last()))
        }
    }
}

/// The runs of `lines` between separators, each as a part.
pub open spec fn chunk_parts(lines: Seq<ItemLineView>) -> Seq<ItemPart> {
    let (parts, open) = chunked(lines);
    if open.len() > 0 {
        parts.push(part_of(open))
    } else {
        parts
    }
}

/// The parts of an item. Without a flagged line the whole item is one nested
/// text. With one, the item falls into the runs between its separators, and
/// each run with a flagged line is plain.
pub open spec fn item_parts(lines: Seq<ItemLineView>) -> Seq<ItemPart> {
    if !any_text_only(lines) {
        seq![ItemPart::Nested(join_lines(contents(lines)))]
    } else {
        chunk_parts(lines)
    }
}

/// The List segment of a list opened by `first` with the given items.
pub open spec fn list_segment(
    first: ItemStartView,
    items: Seq<Seq<ItemLineView>>,
    tight: bool,
) -> Segment {
    Segment::List {
        list_type: first.marker.list_type().0,
        start: first.marker.list_type().1,
        tight,
        items: Seq::new(items.len(), |i: int| item_parts(items[i])),
    }
}

/// The state of a list that `start` opens.
pub open spec fn list_opened(start: ItemStartView) -> ContextView {
    ContextView::List {
        first_item_start: start,
        items: Seq::empty(),
        current_item_lines: seq![ItemLineView { content: start.content, text_only: false }],
        current_content_indent: start.content_indent,
        tight: true,
        pending_blank_count: 0,
    }
}

/// `n` empty lines.
pub open spec fn blank_lines(n: nat) -> Seq<Seq<char>> {
    Seq::new(n, |i: int| Seq::<char>::empty())
}

/// `n` empty item lines.
pub open spec fn blank_item_lines(n: nat) -> Seq<ItemLineView> {
    Seq::new(n, |i: int| ItemLineView { content: Seq::empty(), text_only: false })
}

/// The step from the idle state. A blank line changes nothing. Otherwise the
/// first of these that applies decides: thematic break, ATX heading, opening
/// fence, blockquote marker, list item, indented code; a line that is none
/// of them opens a paragraph.
pub open spec fn start_block(line: Seq<char>) -> (Seq<Segment>, ContextView) {
    if is_blank(line) {
        (Seq::empty(), ContextView::Idle)
    } else if is_thematic_break(line) {
        (seq![Segment::Leaf(NodeView::ThematicBreak)], ContextView::Idle)
    } else if classify(line) is Ok {
        (
            seq![Segment::Leaf(heading_view(classify(line)->Ok_0.0, classify(line)->Ok_0.1))],
            ContextView::Idle,
        )
    } else if opening(line) is Ok {
        (
            Seq::empty(),
            ContextView::CodeBlockFenced { start: opening(line)->Ok_0, content: Seq::empty() },
        )
    } else if quoted(line) is Ok {
        (Seq::empty(), ContextView::Blockquote { lines: seq![quoted(line)->Ok_0] })
    } else if item_start(line) is Ok {
        (Seq::empty(), list_opened(item_start(line)->Ok_0))
    } else if indented(line) is Ok {
        (
            Seq::empty(),
            ContextView::CodeBlockIndented {
                lines: seq![indented(line)->Ok_0],
                pending_blank_count: 0,
            },
        )
    } else {
        (Seq::empty(), ContextView::Paragraph { lines: seq![trim(line)] })
    }
}

/// The step from an open paragraph. A blank line ends it. So do, in this
/// order: an opening fence; an underline, which turns the paragraph into a
/// heading; a thematic break; an ATX heading; a blockquote marker; a list
/// item that is not empty. Any other line joins the paragraph, trimmed.
pub open spec fn continue_paragraph(lines: Seq<Seq<char>>, line: Seq<char>) -> (
    Seq<Segment>,
    ContextView,
) {
    let paragraph = Segment::Leaf(paragraph_view(join_lines(lines)));
    if is_blank(line) {
        (seq![paragraph], ContextView::Idle)
    } else if opening(line) is Ok {
        (
            seq![paragraph],
            ContextView::CodeBlockFenced { start: opening(line)->Ok_0, content: Seq::empty() },
        )
    } else if underline_level(trim(line), indent_width(line)) is Some {
        (
            seq![
                Segment::Leaf(
                    heading_view(
                        underline_level(trim(line), indent_width(line))->Some_0.level(),
                        join_lines(lines),
                    ),
                ),
            ],
            ContextView::Idle,
        )
    } else if is_thematic_break(line) {
        (seq![paragraph, Segment::Leaf(NodeView::ThematicBreak)], ContextView::Idle)
    } else if classify(line) is Ok {
        (
            seq![
                paragraph,
                Segment::Leaf(heading_view(classify(line)->Ok_0.0, classify(line)->Ok_0.1)),
            ],
            ContextView::Idle,
        )
    } else if quoted(line) is Ok {
        (seq![paragraph], ContextView::Blockquote { lines: seq![quoted(line)->Ok_0] })
    } else if item_start(line) is Ok && item_start(line)->Ok_0.content.len() > 0 {
        (seq![paragraph], list_opened(item_start(line)->Ok_0))
    } else {
        (Seq::empty(), ContextView::Paragraph { lines: lines.push(trim(line)) })
    }
}

/// What a line adds to an open blockquote: the quoted part if the line
/// carries a marker, else the line as it stands.
pub open spec fn quote_line(line: Seq<char>) -> Seq<char> {
    match quoted(line) {
        Ok(content) => content,
        Err(_) => line,
    }
}

/// The step from an open blockquote. A blank line, an opening fence, a
/// thematic break and an ATX heading end it. Any other line joins it.
pub open spec fn continue_blockquote(lines: Seq<Seq<char>>, line: Seq<char>) -> (
    Seq<Segment>,
    ContextView,
) {
    let quote = Segment::Quote { lines };
    if is_blank(line) {
        (seq![quote], ContextView::Idle)
    } else if opening(line) is Ok {
        (
            seq![quote],
            ContextView::CodeBlockFenced { start: opening(line)->Ok_0, content: Seq::empty() },
        )
    } else if is_thematic_break(line) {
        (seq![quote, Segment::Leaf(NodeView::ThematicBreak)], ContextView::Idle)
    } else if classify(line) is Ok {
        (
            seq![
                quote,
                Segment::Leaf(heading_view(classify(line)->Ok_0.0, classify(line)->Ok_0.1)),
            ],
            ContextView::Idle,
        )
    } else {
        (Seq::empty(), ContextView::Blockquote { lines: lines.push(quote_line(line)) })
    }
}

/// The step from an open fenced code block: the closing fence ends it, any
/// other line is content, without up to as many spaces as stood before the
/// opening fence.
pub open spec fn continue_fenced(start: FenceView, content: Seq<Seq<char>>, line: Seq<char>) -> (
    Seq<Segment>,
    ContextView,
) {
    if closing(line, start.fence_char, start.fence_len) is Ok {
        (seq![Segment::Leaf(code_block_view(start.info, join_lines(content)))], ContextView::Idle)
    } else {
        (
            Seq::empty(),
            ContextView::CodeBlockFenced {
                start,
                content: content.push(without_indent(line, start.indent)),
            },
        )
    }
}

/// The code block of the lines of an indented code block: blank lines at
/// its ends do not count.
pub open spec fn indented_block(lines: Seq<Seq<char>>) -> Segment {
    Segment::Leaf(code_block_view(None, join_lines(without_blank_edges(lines))))
}

/// The step from an open indented code block. A line of indented code joins
/// it, after the blank lines that were pending. A blank line is pending. Any
/// other line ends the block and is read from the idle state.
pub open spec fn continue_indented(
    lines: Seq<Seq<char>>,
    pending_blank_count: nat,
    line: Seq<char>,
) -> (Seq<Segment>, ContextView) {
    match indented(line) {
        Ok(content) => (
            Seq::empty(),
            ContextView::CodeBlockIndented {
                lines: (lines + blank_lines(pending_blank_count)).push(content),
                pending_blank_count: 0,
            },
        ),
        Err(CodeBlockIndentedNotStartReason::Empty) => (
            Seq::empty(),
            ContextView::CodeBlockIndented {
                lines,
                pending_blank_count: pending_blank_count + 1,
            },
        ),
        Err(CodeBlockIndentedNotStartReason::InsufficientIndent) => (
            seq![indented_block(lines)] + start_block(line).0,
            start_block(line).1,
        ),
    }
}

/// The step from an open list. A blank line is pending. A new item closes
/// the current one. A continuation line joins the current item, after the
/// blank lines that were pending. In both cases pending blank lines make
/// the list loose. A line that ends the list is read from the idle state.
pub open spec fn continue_list(
    first_item_start: ItemStartView,
    items: Seq<Seq<ItemLineView>>,
    current_item_lines: Seq<ItemLineView>,
    current_content_indent: nat,
    tight: bool,
    pending_blank_count: nat,
    line: Seq<char>,
) -> (Seq<Segment>, ContextView) {
    match list_end(
        line,
        first_item_start.marker,
        first_item_start.content_indent,
        current_content_indent,
    ) {
        Ok(ListEndReason::Reprocess) => (
            seq![list_segment(first_item_start, items.push(current_item_lines), tight)]
                + start_block(line).0,
            start_block(line).1,
        ),
        Err(ContinueView::Blank) => (
            Seq::empty(),
            ContextView::List {
                first_item_start,
                items,
                current_item_lines,
                current_content_indent,
                tight,
                pending_blank_count: pending_blank_count + 1,
            },
        ),
        Err(ContinueView::NewItem(start)) => (
            Seq::empty(),
            ContextView::List {
                first_item_start,
                items: items.push(current_item_lines),
                current_item_lines: seq![
                    ItemLineView { content: start.content, text_only: false },
                ],
                current_content_indent: start.content_indent,
                tight: tight && pending_blank_count == 0,
                pending_blank_count: 0,
            },
        ),
        Err(ContinueView::ContinuationLine(item_line)) => (
            Seq::empty(),
            ContextView::List {
                first_item_start,
                items,
                current_item_lines: (current_item_lines + blank_item_lines(
                    pending_blank_count,
                )).push(item_line),
                current_content_indent,
                tight: tight && pending_blank_count == 0,
                pending_blank_count: 0,
            },
        ),
    }
}

/// The transition function: the segments that `line` finishes in state
/// `context`, and the next state.
pub open spec fn step(context: ContextView, line: Seq<char>) -> (Seq<Segment>, ContextView) {
    match context {
        ContextView::Idle => start_block(line),
        ContextView::Paragraph { lines } => continue_paragraph(lines, line),
        ContextView::Blockquote { lines } => continue_blockquote(lines, line),
        ContextView::CodeBlockFenced { start, content } => continue_fenced(start, content, line),
        ContextView::CodeBlockIndented { lines, pending_blank_count } => continue_indented(
            lines,
            pending_blank_count,
            line,
        ),
        ContextView::List {
            first_item_start,
            items,
            current_item_lines,
            current_content_indent,
            tight,
            pending_blank_count,
        } => continue_list(
            first_item_start,
            items,
            current_item_lines,
            current_content_indent,
            tight,
            pending_blank_count,
            line,
        ),
    }
}

/// The segments that the end of the input finishes in state `context`.
/// Pending blank lines are dropped; an open fenced code block ends where the
/// input ends.
pub open spec fn finish(context: ContextView) -> Seq<Segment> {
    match context {
        ContextView::Idle => Seq::empty(),
        ContextView::Paragraph { lines } => seq![Segment::Leaf(paragraph_view(join_lines(lines)))],
        ContextView::Blockquote { lines } => seq![Segment::Quote { lines }],
        ContextView::CodeBlockFenced { start, content } => seq![
            Segment::Leaf(code_block_view(start.info, join_lines(content))),
        ],
        ContextView::CodeBlockIndented { lines, .. } => seq![indented_block(lines)],
        ContextView::List { first_item_start, items, current_item_lines, tight, .. } => seq![
            list_segment(first_item_start, items.push(current_item_lines), tight),
        ],
    }
}

/// The segments finished and the state reached after `lines`, from the idle
/// state.
pub open spec fn run(lines: Seq<Seq<char>>) -> (Seq<Segment>, ContextView)
    decreases lines.len(),
{
    if lines.len() == 0 {
        (Seq::empty(), ContextView::Idle)
    } else {
        let (done, context) = run(lines.drop_last());
        let (finished, next) = step(context, lines.last());
        (done + finished, next)
    }
}

/// The segments of a text: what its lines finish, and what its end finishes.
pub open spec fn segments(input: Seq<char>) -> Seq<Segment> {
    let (done, context) = run(split_lines(input));
    done + finish(context)
}

/// Number of blank lines that a state holds back.
pub open spec fn pending_blanks(context: ContextView) -> nat {
    match context {
        ContextView::List { pending_blank_count, .. } => pending_blank_count,
        ContextView::CodeBlockIndented { pending_blank_count, .. } => pending_blank_count,
        _ => 0,
    }
}

/// A line adds at most one to the blank lines held back.
pub proof fn lemma_step_pending(context: ContextView, line: Seq<char>)
    ensures
        pending_blanks(step(context, line).1) <= pending_blanks(context) + 1,
        pending_blanks(start_block(line).1) == 0,
{
}

} // verus!
