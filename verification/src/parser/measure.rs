//! Nested text is shorter than the text it was cut from.
//!
//! The state machine buffers no more than it has consumed, and every
//! container loses at least its first marker. So a text cannot nest deeper
//! than it is long: a budget of as many levels as the text has characters
//! reads all of it.

use vstd::prelude::*;
use crate::parser::blockquote::{lemma_quoted_shorter, quoted};
use crate::parser::helpers::{
    join_lines,
    lemma_join_len,
    lemma_lines_weight_add,
    lemma_prefix_len,
    lemma_split_lines_weight,
    lines_weight,
    split_lines,
    CharClass,
};
use crate::parser::list_item::{
    item_start,
    lemma_item_start_well_formed,
    list_end,
    ContinueView,
    ItemLineView,
    ItemStartView,
    ListEndReason,
};
use crate::parser::machine::{
    any_text_only,
    blank_item_lines,
    chunked,
    contents,
    finish,
    indented_block,
    is_separator,
    item_parts,
    list_segment,
    part_of,
    quote_line,
    run,
    segments,
    start_block,
    step,
    ContextView,
    ItemPart,
    Segment,
};
use crate::parser::tree::{
    fits,
    items_fit,
    part_fits,
    parts_fit,
    segment_fits,
    segments_fit,
    text_fits,
};

verus! {

/// Room that `lines` take when joined, and one more; 1 for no lines.
pub open spec fn text_weight(lines: Seq<Seq<char>>) -> nat {
    join_lines(lines).len() + 1
}

/// The text of a part.
pub open spec fn part_text(part: ItemPart) -> Seq<char> {
    match part {
        ItemPart::Plain(text) => text,
        ItemPart::Nested(text) => text,
    }
}

/// Sum over the parts of the length of each text, plus one each.
pub open spec fn parts_size(parts: Seq<ItemPart>) -> nat
    decreases parts.len(),
{
    if parts.len() == 0 {
        0
    } else {
        parts_size(parts.drop_last()) + part_text(parts.last()).len() + 1
    }
}

/// Sum of `parts_size` over the items.
pub open spec fn items_size(items: Seq<Seq<ItemPart>>) -> nat
    decreases items.len(),
{
    if items.len() == 0 {
        0
    } else {
        items_size(items.drop_last()) + parts_size(items.last())
    }
}

/// Size of the unread text in a segment: more than the length of any text
/// that is read as blocks when the segment is resolved.
pub open spec fn segment_size(segment: Segment) -> nat {
    match segment {
        Segment::Leaf(_) => 0,
        Segment::Quote { lines } => text_weight(lines),
        Segment::List { items, .. } => items_size(items),
    }
}

/// Sum of `segment_size` over the segments.
pub open spec fn segments_size(segments: Seq<Segment>) -> nat
    decreases segments.len(),
{
    if segments.len() == 0 {
        0
    } else {
        segments_size(segments.drop_last()) + segment_size(segments.last())
    }
}

/// Sum of `text_weight` over the items' contents.
pub open spec fn items_weight(items: Seq<Seq<ItemLineView>>) -> nat
    decreases items.len(),
{
    if items.len() == 0 {
        0
    } else {
        items_weight(items.drop_last()) + text_weight(contents(items.last()))
    }
}

/// Size of the text that a state has buffered for a container; 0 for the
/// states that buffer none.
pub open spec fn weight(context: ContextView) -> nat {
    match context {
        ContextView::Blockquote { lines } => text_weight(lines),
        ContextView::List { items, current_item_lines, pending_blank_count, .. } => items_weight(
            items,
        ) + text_weight(contents(current_item_lines)) + pending_blank_count,
        _ => 0,
    }
}


/// Joined lines and one more take the room of the lines with a newline
/// after each; no lines take 1.
pub proof fn lemma_text_weight(lines: Seq<Seq<char>>)
    ensures
        text_weight(lines) == if lines.len() == 0 {
            1
        } else {
            lines_weight(lines)
        },
{
    lemma_join_len(lines);
}

/// One more line adds at most its length and a newline.
pub proof fn lemma_text_weight_push(lines: Seq<Seq<char>>, line: Seq<char>)
    ensures
        text_weight(lines.push(line)) <= text_weight(lines) + line.len() + 1,
        lines.len() == 0 ==> text_weight(lines.push(line)) == line.len() + 1,
{
    lemma_text_weight(lines);
    lemma_text_weight(lines.push(line));
    assert(lines.push(line).drop_last() =~= lines);
    if lines.len() == 0 {
        assert(lines_weight(lines) == 0);
    }
}

/// The contents of a concatenation are the concatenated contents.
pub proof fn lemma_contents_add(a: Seq<ItemLineView>, b: Seq<ItemLineView>)
    ensures
        contents(a + b) == contents(a) + contents(b),
{
    assert(contents(a + b) =~= contents(a) + contents(b));
}

/// `n` empty lines weigh `n`.
pub proof fn lemma_blank_item_lines_weight(n: nat)
    ensures
        lines_weight(contents(blank_item_lines(n))) == n,
    decreases n,
{
    let all = contents(blank_item_lines(n));
    if n > 0 {
        assert(all.drop_last() =~= contents(blank_item_lines((n - 1) as nat)));
        lemma_blank_item_lines_weight((n - 1) as nat);
    }
}

/// The finished runs and the open run of an item weigh no more than its
/// lines.
pub proof fn lemma_chunked_size(lines: Seq<ItemLineView>)
    ensures
        parts_size(chunked(lines).0) + lines_weight(contents(chunked(lines).1)) <= lines_weight(
            contents(lines),
        ),
    decreases lines.len(),
{
    if lines.len() > 0 {
        let init = lines.drop_last();
        lemma_chunked_size(init);
        let (parts, open) = chunked(init);
        assert(contents(lines).drop_last() =~= contents(init));
        assert(contents(lines).last() == lines.last().content);
        if is_separator(lines.last()) {
            if open.len() > 0 {
                assert(parts.push(part_of(open)).drop_last() =~= parts);
                lemma_text_weight(contents(open));
                assert(part_text(part_of(open)) == join_lines(contents(open)));
            }
        } else {
            assert(contents(open.push(lines.last())).drop_last() =~= contents(open));
            assert(contents(open.push(lines.last())).last() == lines.last().content);
        }
    }
}

/// The parts of an item weigh no more than its lines.
pub proof fn lemma_item_parts_size(lines: Seq<ItemLineView>)
    ensures
        parts_size(item_parts(lines)) <= text_weight(contents(lines)),
{
    if !any_text_only(lines) {
        let parts = item_parts(lines);
        assert(parts.drop_last() =~= Seq::<ItemPart>::empty());
        assert(parts_size(parts.drop_last()) == 0);
    } else {
        lemma_chunked_size(lines);
        lemma_text_weight(contents(lines));
        let (parts, open) = chunked(lines);
        if open.len() > 0 {
            assert(parts.push(part_of(open)).drop_last() =~= parts);
            lemma_text_weight(contents(open));
            assert(part_text(part_of(open)) == join_lines(contents(open)));
        }
    }
}

/// The items of a List segment weigh no more than the lines they were made
/// of.
pub proof fn lemma_list_segment_size(
    first: ItemStartView,
    items: Seq<Seq<ItemLineView>>,
    tight: bool,
)
    ensures
        segment_size(list_segment(first, items, tight)) <= items_weight(items),
    decreases items.len(),
{
    let parts = list_segment(first, items, tight)->List_items;
    if items.len() > 0 {
        let init = items.drop_last();
        lemma_list_segment_size(first, init, tight);
        assert(parts.drop_last() =~= list_segment(first, init, tight)->List_items);
        assert(parts.last() == item_parts(items.last()));
        lemma_item_parts_size(items.last());
    }
}

/// Sizes add up over a concatenation.
pub proof fn lemma_segments_size_add(a: Seq<Segment>, b: Seq<Segment>)
    ensures
        segments_size(a + b) == segments_size(a) + segments_size(b),
    decreases b.len(),
{
    if b.len() == 0 {
        assert(a + b =~= a);
    } else {
        assert((a + b).drop_last() =~= a + b.drop_last());
        assert((a + b).last() == b.last());
        lemma_segments_size_add(a, b.drop_last());
    }
}

/// The size of no segments, of one and of two.
pub proof fn lemma_segments_size_small(a: Segment, b: Segment)
    ensures
        segments_size(Seq::empty()) == 0,
        segments_size(seq![a]) == segment_size(a),
        segments_size(seq![a, b]) == segment_size(a) + segment_size(b),
{
    assert(seq![a].drop_last() =~= Seq::<Segment>::empty());
    assert(seq![a, b].drop_last() =~= seq![a]);
}

/// From the idle state a line buffers less than its own length.
pub proof fn lemma_start_block_weight(line: Seq<char>)
    ensures
        segments_size(start_block(line).0) + weight(start_block(line).1) <= line.len(),
{
    let (finished, next) = start_block(line);
    lemma_quoted_shorter(line);
    lemma_item_start_well_formed(line);
    lemma_segments_size_small(finished[0], finished[0]);
    assert(finished.len() <= 1);
    if finished.len() == 1 {
        assert(finished =~= seq![finished[0]]);
    } else {
        assert(finished =~= Seq::<Segment>::empty());
    }
    match next {
        ContextView::Blockquote { lines } => {
            lemma_text_weight_push(Seq::empty(), quoted(line)->Ok_0);
            assert(lines =~= Seq::<Seq<char>>::empty().push(quoted(line)->Ok_0));
        },
        ContextView::List { items, current_item_lines, .. } => {
            let start = item_start(line)->Ok_0;
            assert(contents(current_item_lines) =~= Seq::<Seq<char>>::empty().push(start.content));
            lemma_text_weight_push(Seq::empty(), start.content);
        },
        _ => {},
    }
}

/// What the end of the input finishes is no larger than what was buffered.
pub proof fn lemma_finish_weight(context: ContextView)
    ensures
        segments_size(finish(context)) <= weight(context),
{
    let finished = finish(context);
    if finished.len() == 1 {
        assert(finished =~= seq![finished[0]]);
        lemma_segments_size_small(finished[0], finished[0]);
    }
    match context {
        ContextView::List { first_item_start, items, current_item_lines, tight, .. } => {
            lemma_list_segment_size(first_item_start, items.push(current_item_lines), tight);
            assert(items.push(current_item_lines).drop_last() =~= items);
        },
        _ => {},
    }
}

/// A line adds to what is finished and buffered at most its length and a
/// newline.
pub proof fn lemma_step_weight(context: ContextView, line: Seq<char>)
    ensures
        segments_size(step(context, line).0) + weight(step(context, line).1) <= weight(context)
            + line.len() + 1,
{
    let (finished, next) = step(context, line);
    lemma_start_block_weight(line);
    lemma_quoted_shorter(line);
    lemma_item_start_well_formed(line);
    match context {
        ContextView::Idle => {},
        ContextView::Paragraph { lines } => {
            lemma_segments_size_small(finished[0], finished[1]);
            if finished.len() == 1 {
                assert(finished =~= seq![finished[0]]);
            } else if finished.len() == 2 {
                assert(finished =~= seq![finished[0], finished[1]]);
            } else {
                assert(finished =~= Seq::<Segment>::empty());
            }
            match next {
                ContextView::Blockquote { lines } => {
                    lemma_text_weight_push(Seq::empty(), quoted(line)->Ok_0);
                    assert(lines =~= Seq::<Seq<char>>::empty().push(quoted(line)->Ok_0));
                },
                ContextView::List { items, current_item_lines, .. } => {
                    let start = item_start(line)->Ok_0;
                    assert(contents(current_item_lines) =~= Seq::<Seq<char>>::empty().push(
                        start.content,
                    ));
                    lemma_text_weight_push(Seq::empty(), start.content);
                },
                _ => {},
            }
        },
        ContextView::Blockquote { lines } => {
            lemma_segments_size_small(finished[0], finished[1]);
            if finished.len() == 1 {
                assert(finished =~= seq![finished[0]]);
            } else if finished.len() == 2 {
                assert(finished =~= seq![finished[0], finished[1]]);
            } else {
                assert(finished =~= Seq::<Segment>::empty());
                lemma_text_weight_push(lines, quote_line(line));
            }
        },
        ContextView::CodeBlockFenced { start, content } => {
            lemma_segments_size_small(finished[0], finished[0]);
            if finished.len() == 1 {
                assert(finished =~= seq![finished[0]]);
            } else {
                assert(finished =~= Seq::<Segment>::empty());
            }
        },
        ContextView::CodeBlockIndented { lines, pending_blank_count } => {
            if finished.len() > 0 {
                let block = indented_block(lines);
                lemma_segments_size_add(seq![block], start_block(line).0);
                lemma_segments_size_small(block, block);
            } else {
                lemma_segments_size_small(finished[0], finished[0]);
                assert(finished =~= Seq::<Segment>::empty());
            }
        },
        ContextView::List {
            first_item_start,
            items,
            current_item_lines,
            current_content_indent,
            tight,
            pending_blank_count,
        } => {
            let all = items.push(current_item_lines);
            assert(all.drop_last() =~= items);
            match list_end(
                line,
                first_item_start.marker,
                first_item_start.content_indent,
                current_content_indent,
            ) {
                Ok(ListEndReason::Reprocess) => {
                    let list = list_segment(first_item_start, all, tight);
                    lemma_list_segment_size(first_item_start, all, tight);
                    lemma_segments_size_add(seq![list], start_block(line).0);
                    lemma_segments_size_small(list, list);
                },
                Err(ContinueView::Blank) => {
                    lemma_segments_size_small(finished[0], finished[0]);
                    assert(finished =~= Seq::<Segment>::empty());
                },
                Err(ContinueView::NewItem(start)) => {
                    lemma_segments_size_small(finished[0], finished[0]);
                    assert(finished =~= Seq::<Segment>::empty());
                    let opened = seq![ItemLineView { content: start.content, text_only: false }];
                    assert(contents(opened) =~= Seq::<Seq<char>>::empty().push(start.content));
                    lemma_text_weight_push(Seq::empty(), start.content);
                },
                Err(ContinueView::ContinuationLine(item_line)) => {
                    lemma_segments_size_small(finished[0], finished[0]);
                    assert(finished =~= Seq::<Segment>::empty());
                    let blanks = blank_item_lines(pending_blank_count);
                    let grown = (current_item_lines + blanks).push(item_line);
                    lemma_contents_add(current_item_lines, blanks);
                    assert(contents(grown) =~= (contents(current_item_lines) + contents(
                        blanks,
                    )).push(item_line.content));
                    lemma_blank_item_lines_weight(pending_blank_count);
                    lemma_lines_weight_add(contents(current_item_lines), contents(blanks));
                    lemma_text_weight(contents(current_item_lines));
                    lemma_text_weight(contents(grown));
                    assert(contents(grown).drop_last() =~= contents(current_item_lines)
                        + contents(blanks));
                    lemma_prefix_len(line, CharClass::Exactly(' '));
                },
            }
        },
    }
}

/// After at least one line, what is finished and buffered is less than the
/// room that the lines take with a newline after each.
pub proof fn lemma_run_weight(lines: Seq<Seq<char>>)
    ensures
        lines.len() == 0 ==> run(lines).0.len() == 0 && run(lines).1 is Idle,
        lines.len() > 0 ==> segments_size(run(lines).0) + weight(run(lines).1) + 1 <= lines_weight(
            lines,
        ),
    decreases lines.len(),
{
    if lines.len() > 0 {
        let init = lines.drop_last();
        lemma_run_weight(init);
        let (done, context) = run(init);
        let (finished, next) = step(context, lines.last());
        lemma_segments_size_add(done, finished);
        if init.len() == 0 {
            lemma_start_block_weight(lines.last());
            assert(lines_weight(init) == 0);
            assert(done =~= Seq::<Segment>::empty());
            assert(segments_size(done) == 0);
        } else {
            lemma_step_weight(context, lines.last());
        }
    }
}

/// The segments of a text hold less unread text than the text is long.
pub proof fn lemma_segments_size(input: Seq<char>)
    ensures
        segments_size(segments(input)) <= input.len(),
{
    let lines = split_lines(input);
    lemma_split_lines_weight(input);
    lemma_run_weight(lines);
    let (done, context) = run(lines);
    lemma_finish_weight(context);
    lemma_segments_size_add(done, finish(context));
    if lines.len() == 0 {
        assert(done =~= Seq::<Segment>::empty());
        assert(segments_size(done) == 0);
    }
}

/// A budget of as many levels as the sizes add up to is enough for the
/// segments.
proof fn lemma_segments_fit_size(segments: Seq<Segment>, depth: nat)
    requires
        segments_size(segments) <= depth,
    ensures
        segments_fit(segments, depth),
    decreases depth, 4nat, segments.len(),
{
    if segments.len() > 0 {
        lemma_segments_fit_size(segments.drop_last(), depth);
        match segments.last() {
            Segment::Leaf(_) => {},
            Segment::Quote { lines } => {
                lemma_text_fits_length(join_lines(lines), depth);
            },
            Segment::List { items, .. } => {
                lemma_items_fit_size(items, depth);
            },
        }
        assert(segment_fits(segments.last(), depth));
    }
}

proof fn lemma_items_fit_size(items: Seq<Seq<ItemPart>>, depth: nat)
    requires
        items_size(items) <= depth,
    ensures
        items_fit(items, depth),
    decreases depth, 2nat, items.len(),
{
    if items.len() > 0 {
        lemma_items_fit_size(items.drop_last(), depth);
        lemma_parts_fit_size(items.last(), depth);
    }
}

proof fn lemma_parts_fit_size(parts: Seq<ItemPart>, depth: nat)
    requires
        parts_size(parts) <= depth,
    ensures
        parts_fit(parts, depth),
    decreases depth, 1nat, parts.len(),
{
    if parts.len() > 0 {
        lemma_parts_fit_size(parts.drop_last(), depth);
        match parts.last() {
            ItemPart::Plain(_) => {},
            ItemPart::Nested(text) => {
                lemma_text_fits_length(text, depth);
            },
        }
        assert(part_fits(parts.last(), depth));
    }
}

proof fn lemma_text_fits_length(text: Seq<char>, depth: nat)
    requires
        text.len() < depth,
    ensures
        text_fits(text, depth),
    decreases depth, 0nat, 0nat,
{
    lemma_fits_own_length(text, (depth - 1) as nat);
}

/// A text nests no deeper than it is long: a budget of at least as many
/// levels as the text has characters reads every nested text.
pub proof fn lemma_fits_own_length(input: Seq<char>, depth: nat)
    requires
        input.len() <= depth,
    ensures
        fits(input, depth),
    decreases depth, 5nat, 0nat,
{
    lemma_segments_size(input);
    lemma_segments_fit_size(segments(input), depth);
}

} // verus!
