//! What holds of every parse.
//!
//! Each proof function here states one law of the parser over the
//! mathematical model in [`crate::parser::machine`] and
//! [`crate::parser::tree`]; the executable parser is proved to compute that
//! model.

use vstd::prelude::*;
use crate::node::NodeView;
use crate::parser::blockquote::quoted;
use crate::parser::code_block_fenced::{
    closing,
    code_block_view,
    lemma_opening_well_formed,
    opening,
    FenceView,
};
use crate::parser::code_block_indented::indented;
use crate::parser::heading::classify;
use crate::parser::helpers::{
    blank_suffix,
    indent_width,
    is_blank,
    join_lines,
    lemma_prefix_len,
    lemma_prefix_len_is,
    lemma_suffix_len,
    lemma_trim,
    prefix_len,
    split_lines,
    trim,
    trim_start,
    CharClass,
};
use crate::parser::list_item::{
    item_start,
    lemma_item_start_well_formed,
    lemma_same_type_is_equivalence,
    list_end,
    ContinueView,
    ItemLineView,
    ItemStartView,
    ListMarker,
};
use crate::parser::machine::{
    any_text_only,
    is_trimmed,
    contents,
    continue_fenced,
    continue_list,
    finish,
    item_parts,
    list_opened,
    list_segment,
    run,
    segments,
    start_block,
    step,
    ContextView,
    ItemPart,
    Segment,
};
use crate::parser::measure::{
    lemma_fits_own_length,
    lemma_segments_size,
    segment_size,
    segments_size,
};
use crate::parser::thematic_break::is_thematic_break;
use crate::parser::tree::{
    blocks,
    blocks_within,
    fits,
    lemma_budget,
    lemma_leaf_nodes,
    lemma_resolve_all_index,
    lemma_resolve_all_len,
    lemma_resolve_all_small,
    lemma_resolve_items_index,
    lemma_resolve_items_len,
    lemma_resolve_parts_push,
    nested,
    resolve,
    resolve_all,
    resolve_items,
    resolve_part,
    resolve_parts,
    text_fits,
};

verus! {

/// The empty text has no blocks, whatever the budget.
pub proof fn lemma_blocks_of_nothing(depth: nat)
    ensures
        blocks_within(Seq::empty(), depth) == Seq::<NodeView>::empty(),
        blocks(Seq::empty()) == Seq::<NodeView>::empty(),
{
    let input = Seq::<char>::empty();
    assert(split_lines(input) =~= Seq::<Seq<char>>::empty());
    assert(segments(input) =~= Seq::<Segment>::empty());
    let leaf = Segment::Leaf(NodeView::ThematicBreak);
    lemma_resolve_all_small(leaf, leaf, depth);
    lemma_resolve_all_small(leaf, leaf, 0);
}

/// Where the budget is enough for a text, reading within the budget gives
/// the blocks of the text with every nested text read.
pub proof fn lemma_parse_reads_all(input: Seq<char>, depth: nat)
    ensures
        fits(input, depth) ==> blocks_within(input, depth) == blocks(input),
        fits(input, input.len()),
{
    lemma_fits_own_length(input, input.len());
    if fits(input, depth) {
        if depth <= input.len() {
            lemma_budget(input, depth, input.len());
        } else {
            lemma_budget(input, input.len(), depth);
        }
    }
}

/// Every node of `nodes` is a well-formed block that may stand in a
/// container.
pub open spec fn well_formed_blocks(nodes: Seq<NodeView>) -> bool {
    forall|i: int|
        0 <= i < nodes.len() ==> (#[trigger] nodes[i]).is_nested_block() && nodes[i].well_formed()
}

/// A segment's own node, if it is a leaf, is a well-formed leaf block.
pub open spec fn sound_leaf(segment: Segment) -> bool {
    segment matches Segment::Leaf(node) ==> node.is_leaf_block() && node.well_formed()
}

/// Every leaf among `segments` is a well-formed leaf block.
pub open spec fn sound_leaves(segments: Seq<Segment>) -> bool {
    forall|i: int| 0 <= i < segments.len() ==> sound_leaf(#[trigger] segments[i])
}

/// The leaves that a line finishes are well-formed leaf blocks: a heading
/// has a level from 1 to 6 and holds one text, a paragraph holds one text.
pub proof fn lemma_step_leaves(context: ContextView, line: Seq<char>)
    ensures
        sound_leaves(step(context, line).0),
        sound_leaves(start_block(line).0),
{
}

/// The leaves that the end of the input finishes are well-formed.
pub proof fn lemma_finish_leaves(context: ContextView)
    ensures
        sound_leaves(finish(context)),
{
}

/// The leaves among the segments of a text are well-formed.
pub proof fn lemma_segments_leaves(input: Seq<char>)
    ensures
        sound_leaves(segments(input)),
{
    lemma_run_leaves(split_lines(input));
    lemma_finish_leaves(run(split_lines(input)).1);
}

/// The leaves among the segments finished by `lines` are well-formed.
proof fn lemma_run_leaves(lines: Seq<Seq<char>>)
    ensures
        sound_leaves(run(lines).0),
    decreases lines.len(),
{
    if lines.len() > 0 {
        lemma_run_leaves(lines.drop_last());
        lemma_step_leaves(run(lines.drop_last()).1, lines.last());
    }
}

/// Every block of every text is well formed, whatever the budget. In
/// particular every Heading, at any depth, has a level from 1 to 6, every
/// List holds ListItems only, and no Document, ListItem or Text stands where
/// a block is expected.
pub proof fn lemma_blocks_well_formed(input: Seq<char>, depth: nat)
    ensures
        well_formed_blocks(blocks_within(input, depth)),
    decreases depth, 5nat, 0nat,
{
    lemma_segments_leaves(input);
    lemma_resolve_all_well_formed(segments(input), depth);
}

proof fn lemma_resolve_all_well_formed(segments: Seq<Segment>, depth: nat)
    requires
        sound_leaves(segments),
    ensures
        well_formed_blocks(resolve_all(segments, depth)),
        resolve_all(segments, depth).len() == segments.len(),
    decreases depth, 4nat, segments.len(),
{
    if segments.len() > 0 {
        let init = segments.drop_last();
        assert forall|i: int| 0 <= i < init.len() implies sound_leaf(#[trigger] init[i]) by {
            assert(init[i] == segments[i]);
        }
        lemma_resolve_all_well_formed(init, depth);
        assert(sound_leaf(segments[segments.len() - 1]));
        lemma_resolve_well_formed(segments.last(), depth);
    }
}

proof fn lemma_resolve_well_formed(segment: Segment, depth: nat)
    requires
        sound_leaf(segment),
    ensures
        resolve(segment, depth).is_nested_block(),
        resolve(segment, depth).well_formed(),
    decreases depth, 3nat, 0nat,
{
    match segment {
        Segment::Leaf(node) => {},
        Segment::Quote { lines } => {
            lemma_nested_well_formed(join_lines(lines), depth);
        },
        Segment::List { list_type, start, tight, items } => {
            lemma_resolve_items_well_formed(items, depth);
        },
    }
}

proof fn lemma_resolve_items_well_formed(items: Seq<Seq<ItemPart>>, depth: nat)
    ensures
        forall|i: int|
            0 <= i < resolve_items(items, depth).len() ==> (#[trigger] resolve_items(
                items,
                depth,
            )[i]) is ListItem && resolve_items(items, depth)[i].well_formed(),
        resolve_items(items, depth).len() == items.len(),
    decreases depth, 2nat, items.len(),
{
    if items.len() > 0 {
        lemma_resolve_items_well_formed(items.drop_last(), depth);
        lemma_resolve_parts_well_formed(items.last(), depth);
    }
}

proof fn lemma_resolve_parts_well_formed(parts: Seq<ItemPart>, depth: nat)
    ensures
        well_formed_blocks(resolve_parts(parts, depth)),
    decreases depth, 1nat, parts.len(),
{
    if parts.len() > 0 {
        lemma_resolve_parts_well_formed(parts.drop_last(), depth);
        match parts.last() {
            ItemPart::Plain(text) => {},
            ItemPart::Nested(text) => {
                lemma_nested_well_formed(text, depth);
            },
        }
        assert(well_formed_blocks(resolve_part(parts.last(), depth)));
    }
}

proof fn lemma_nested_well_formed(text: Seq<char>, depth: nat)
    ensures
        well_formed_blocks(nested(text, depth)),
    decreases depth, 0nat, 0nat,
{
    if depth > 0 {
        lemma_blocks_well_formed(text, (depth - 1) as nat);
    }
}

/// Where the budget reads a nested text, the container holds the blocks of
/// that text.
pub proof fn lemma_nested_reads_all(text: Seq<char>, depth: nat)
    requires
        text_fits(text, depth),
    ensures
        nested(text, depth) == blocks(text),
{
    lemma_parse_reads_all(text, (depth - 1) as nat);
}

/// No segment is larger than all of them together.
proof fn lemma_segment_size_index(segments: Seq<Segment>, i: int)
    requires
        0 <= i < segments.len(),
    ensures
        segment_size(segments[i]) <= segments_size(segments),
    decreases segments.len(),
{
    if i < segments.len() - 1 {
        lemma_segment_size_index(segments.drop_last(), i);
    }
}

/// A blockquote is read as a text of its own: where a text has a
/// blockquote, and the budget reads the quoted text, the Blockquote node
/// holds exactly the blocks that the quoted lines, joined by newlines, have
/// when they are parsed alone, with the same budget or with every nested
/// text read.
pub proof fn lemma_blockquote_holds_blocks_of_inner_text(input: Seq<char>, depth: nat, i: int)
    requires
        0 <= i < segments(input).len(),
        segments(input)[i] is Quote,
        text_fits(join_lines(segments(input)[i]->Quote_lines), depth),
    ensures
        blocks_within(input, depth).len() == segments(input).len(),
        blocks_within(input, depth)[i] == (NodeView::Blockquote {
            children: blocks(join_lines(segments(input)[i]->Quote_lines)),
        }),
        blocks_within(join_lines(segments(input)[i]->Quote_lines), depth) == blocks(
            join_lines(segments(input)[i]->Quote_lines),
        ),
{
    let text = join_lines(segments(input)[i]->Quote_lines);
    lemma_resolve_all_index(segments(input), depth, i);
    lemma_nested_reads_all(text, depth);
    lemma_budget(text, (depth - 1) as nat, depth);
    lemma_parse_reads_all(text, depth);
}

/// With every nested text read, the Blockquote node at the place of a
/// blockquote holds exactly the blocks of the quoted text.
pub proof fn lemma_blockquote_is_reparsed(input: Seq<char>, i: int)
    requires
        0 <= i < segments(input).len(),
        segments(input)[i] is Quote,
    ensures
        blocks(input).len() == segments(input).len(),
        blocks(input)[i] == (NodeView::Blockquote {
            children: blocks(join_lines(segments(input)[i]->Quote_lines)),
        }),
{
    let text = join_lines(segments(input)[i]->Quote_lines);
    lemma_segments_size(input);
    lemma_segment_size_index(segments(input), i);
    lemma_fits_own_length(text, (input.len() - 1) as nat);
    lemma_blockquote_holds_blocks_of_inner_text(input, input.len(), i);
}

/// A list item is read as a text of its own: an item without a line flagged
/// as plain text holds, where the budget reads its text, exactly the blocks
/// that its lines, joined by newlines, have when they are parsed alone, with
/// the same budget or with every nested text read.
pub proof fn lemma_item_holds_blocks_of_inner_text(lines: Seq<ItemLineView>, depth: nat)
    requires
        !any_text_only(lines),
        text_fits(join_lines(contents(lines)), depth),
    ensures
        resolve_parts(item_parts(lines), depth) == blocks(join_lines(contents(lines))),
        blocks_within(join_lines(contents(lines)), depth) == blocks(join_lines(contents(lines))),
{
    let text = join_lines(contents(lines));
    lemma_resolve_parts_push(Seq::empty(), ItemPart::Nested(text), depth);
    lemma_nested_reads_all(text, depth);
    lemma_budget(text, (depth - 1) as nat, depth);
    lemma_parse_reads_all(text, depth);
}

/// Where a text has a list, the List node holds one ListItem for each item,
/// and the ListItem holds the blocks of the item's parts.
pub proof fn lemma_list_holds_items(input: Seq<char>, depth: nat, i: int, j: int)
    requires
        0 <= i < segments(input).len(),
        segments(input)[i] is List,
        0 <= j < segments(input)[i]->List_items.len(),
    ensures
        blocks_within(input, depth).len() == segments(input).len(),
        blocks_within(input, depth)[i] is List,
        blocks_within(input, depth)[i]->List_children.len() == segments(
            input,
        )[i]->List_items.len(),
        blocks_within(input, depth)[i]->List_children[j] == (NodeView::ListItem {
            children: resolve_parts(segments(input)[i]->List_items[j], depth),
        }),
{
    lemma_resolve_all_index(segments(input), depth, i);
    lemma_resolve_items_index(segments(input)[i]->List_items, depth, j);
}

/// All items of a list have markers of one type: an open list takes a line
/// as a new item only if the line's marker is of the type of the list's
/// first marker.
pub proof fn lemma_list_grows_by_same_type_only(
    first_item_start: ItemStartView,
    items: Seq<Seq<ItemLineView>>,
    current_item_lines: Seq<ItemLineView>,
    current_content_indent: nat,
    tight: bool,
    pending_blank_count: nat,
    line: Seq<char>,
)
    ensures
        ({
            let next = continue_list(
                first_item_start,
                items,
                current_item_lines,
                current_content_indent,
                tight,
                pending_blank_count,
                line,
            ).1;
            next is List && next->List_items.len() > items.len() ==> {
                &&& item_start(line) is Ok
                &&& first_item_start.marker.same_type(item_start(line)->Ok_0.marker)
                &&& next->List_items == items.push(current_item_lines)
                &&& next->List_first_item_start == first_item_start
            }
        }),
{
    let end = list_end(
        line,
        first_item_start.marker,
        first_item_start.content_indent,
        current_content_indent,
    );
    match end {
        Ok(_) => {
            assert(start_block(line).1 is List ==> start_block(line).1->List_items.len() == 0);
        },
        Err(_) => {},
    }
}

/// A change of marker starts a new list: a line that starts an item with a
/// marker of another type, indented less than the current item's content,
/// closes the list with the items it has and is read from the idle state.
/// Unless the line is a thematic break, it opens a new list there.
pub proof fn lemma_marker_change_starts_new_list(
    first_item_start: ItemStartView,
    items: Seq<Seq<ItemLineView>>,
    current_item_lines: Seq<ItemLineView>,
    current_content_indent: nat,
    tight: bool,
    pending_blank_count: nat,
    line: Seq<char>,
)
    requires
        item_start(line) is Ok,
        !first_item_start.marker.same_type(item_start(line)->Ok_0.marker),
        prefix_len(line, CharClass::Exactly(' ')) < current_content_indent,
    ensures
        ({
            let (finished, next) = continue_list(
                first_item_start,
                items,
                current_item_lines,
                current_content_indent,
                tight,
                pending_blank_count,
                line,
            );
            &&& finished == seq![
                list_segment(first_item_start, items.push(current_item_lines), tight),
            ] + start_block(line).0
            &&& next == start_block(line).1
            &&& !is_thematic_break(line) ==> next == list_opened(item_start(line)->Ok_0)
        }),
{
    lemma_marker_line_opens_list(line);
}

/// From the idle state, a line that starts a list item opens a list, unless
/// it is a thematic break.
pub proof fn lemma_marker_line_opens_list(line: Seq<char>)
    requires
        item_start(line) is Ok,
    ensures
        !is_blank(line),
        !is_thematic_break(line) ==> start_block(line) == (
            Seq::<Segment>::empty(),
            list_opened(item_start(line)->Ok_0),
        ),
{
    lemma_marker_position(line);
}

/// What stands at the marker's place: after at most three spaces, the first
/// character that is no whitespace, and it is a bullet or a digit. So the
/// line is neither a heading nor a fence nor quoted.
proof fn lemma_marker_position(line: Seq<char>)
    requires
        item_start(line) is Ok,
    ensures
        !is_blank(line),
        trim(line).len() > 0,
        indent_width(line) <= 3,
        classify(line) is Err,
        opening(line) is Err,
        quoted(line) is Err,
{
    let indent = prefix_len(line, CharClass::Exactly(' '));
    lemma_prefix_len(line, CharClass::Exactly(' '));
    let after = line.skip(indent as int);
    lemma_prefix_len(after, CharClass::Digit);
    assert(after.len() > 0);
    let mark = after[0];
    assert(mark == line[indent as int]);
    assert(mark == '-' || mark == '+' || mark == '*' || ('0' <= mark <= '9'));
    assert forall|i: int| 0 <= i < indent implies CharClass::Whitespace.has(#[trigger] line[i]) by {
        assert(CharClass::Exactly(' ').has(line[i]));
    }
    lemma_prefix_len_is(line, CharClass::Whitespace, indent as int);
    lemma_trim(line);
    let t = trim_start(line);
    assert(t =~= after);
    lemma_suffix_len(t, CharClass::Whitespace);
    assert(trim(line)[0] == t[0]);
    lemma_indent_of_spaces(line, indent as int);
    lemma_prefix_len_is(trim(line), CharClass::Exactly('#'), 0);
    lemma_prefix_len_is(after, CharClass::Exactly('`'), 0);
    lemma_prefix_len_is(after, CharClass::Exactly('~'), 0);
}

/// A line that starts with `n` spaces and then a character that is neither
/// a space nor a tab is indented by `n` columns.
proof fn lemma_indent_of_spaces(line: Seq<char>, n: int)
    requires
        0 <= n < line.len(),
        forall|i: int| 0 <= i < n ==> line[i] == ' ',
        line[n] != ' ',
        line[n] != '\t',
    ensures
        indent_width(line) == n,
    decreases n,
{
    if n > 0 {
        let rest = line.drop_first();
        assert forall|i: int| 0 <= i < n - 1 implies rest[i] == ' ' by {
            assert(rest[i] == line[i + 1]);
        }
        assert(rest[n - 1] == line[n]);
        lemma_indent_of_spaces(rest, n - 1);
    }
}

/// The state after `lines`, from `context`, and what they finish.
pub open spec fn feed(context: ContextView, lines: Seq<Seq<char>>) -> (Seq<Segment>, ContextView)
    decreases lines.len(),
{
    if lines.len() == 0 {
        (Seq::empty(), context)
    } else {
        let (done, before) = feed(context, lines.drop_last());
        let (finished, next) = step(before, lines.last());
        (done + finished, next)
    }
}

/// Reading two runs of lines one after the other is reading the second from
/// the state that the first leads to.
pub proof fn lemma_run_add(first: Seq<Seq<char>>, second: Seq<Seq<char>>)
    ensures
        run(first + second) == (
            run(first).0 + feed(run(first).1, second).0,
            feed(run(first).1, second).1,
        ),
    decreases second.len(),
{
    if second.len() == 0 {
        assert(first + second =~= first);
        assert(run(first).0 + feed(run(first).1, second).0 =~= run(first).0);
    } else {
        assert((first + second).drop_last() =~= first + second.drop_last());
        assert((first + second).last() == second.last());
        lemma_run_add(first, second.drop_last());
        let (done, before) = feed(run(first).1, second.drop_last());
        let finished = step(before, second.last()).0;
        assert((run(first).0 + done) + finished =~= run(first).0 + (done + finished));
    }
}

/// The list that `start` opens is still open after each of `lines`.
pub open spec fn stays_open(start: ItemStartView, lines: Seq<Seq<char>>) -> bool {
    forall|k: int|
        0 <= k <= lines.len() ==> (#[trigger] feed(list_opened(start), lines.take(k))).1 is List
            && feed(list_opened(start), lines.take(k)).0.len() == 0
}

/// Whether `line` is an item of the list whose first marker is `marker` and
/// whose current item has its content at `current_content_indent`: it starts
/// with fewer spaces than that, and with a marker of the list's type.
pub open spec fn is_next_item(
    line: Seq<char>,
    marker: ListMarker,
    current_content_indent: nat,
) -> bool {
    &&& prefix_len(line, CharClass::Exactly(' ')) < current_content_indent
    &&& item_start(line) is Ok
    &&& marker.same_type(item_start(line)->Ok_0.marker)
}

/// What a line does to an open list, case by case: `nodes` are the nodes
/// that it finishes and `next` is the state that it leads to.
///
/// The line either ends the list or leaves it open, and it finishes a List
/// exactly when it ends the list: that List stands first among the nodes,
/// with the list's flag, type and start number and with one ListItem for
/// each item, and no other node is a List.
///
/// A line that leaves the list open finishes nothing and keeps the first
/// marker. The current item becomes one more finished item if and only if
/// the line is the next item. A blank line adds one to the blank lines held
/// back and keeps the flag; any other line takes them in, so that the list
/// stays tight only if there were none.
pub open spec fn list_step_outcome(
    first_item_start: ItemStartView,
    items: Seq<Seq<ItemLineView>>,
    current_item_lines: Seq<ItemLineView>,
    current_content_indent: nat,
    tight: bool,
    pending_blank_count: nat,
    line: Seq<char>,
    nodes: Seq<NodeView>,
    next: ContextView,
) -> bool {
    let ends = list_end(
        line,
        first_item_start.marker,
        first_item_start.content_indent,
        current_content_indent,
    ) is Ok;
    let joins = is_next_item(line, first_item_start.marker, current_content_indent);
    &&& ends <==> nodes.len() > 0
    &&& ends ==> {
        &&& nodes[0] is List
        &&& nodes[0]->List_tight == tight
        &&& nodes[0]->List_list_type == first_item_start.marker.list_type().0
        &&& nodes[0]->List_start == first_item_start.marker.list_type().1
        &&& nodes[0]->List_children.len() == items.len() + 1
        &&& forall|i: int| 1 <= i < nodes.len() ==> !((#[trigger] nodes[i]) is List)
        &&& next == start_block(line).1
        &&& !joins
    }
    &&& !ends ==> {
        &&& next is List
        &&& next->List_first_item_start == first_item_start
        &&& next->List_items == if joins {
            items.push(current_item_lines)
        } else {
            items
        }
        &&& joins ==> next->List_current_item_lines == seq![
            ItemLineView { content: item_start(line)->Ok_0.content, text_only: false },
        ] && next->List_current_content_indent == item_start(line)->Ok_0.content_indent
        &&& !joins ==> next->List_current_content_indent == current_content_indent
        &&& is_blank(line) ==> next->List_tight == tight && next->List_pending_blank_count
            == pending_blank_count + 1 && next->List_current_item_lines == current_item_lines
        &&& !is_blank(line) ==> next->List_tight == (tight && pending_blank_count == 0)
            && next->List_pending_blank_count == 0
    }
}

/// The step from an open list has the outcome described, whatever the
/// nesting budget.
pub proof fn lemma_list_step(
    first_item_start: ItemStartView,
    items: Seq<Seq<ItemLineView>>,
    current_item_lines: Seq<ItemLineView>,
    current_content_indent: nat,
    tight: bool,
    pending_blank_count: nat,
    line: Seq<char>,
    depth: nat,
)
    ensures
        ({
            let (finished, next) = continue_list(
                first_item_start,
                items,
                current_item_lines,
                current_content_indent,
                tight,
                pending_blank_count,
                line,
            );
            list_step_outcome(
                first_item_start,
                items,
                current_item_lines,
                current_content_indent,
                tight,
                pending_blank_count,
                line,
                resolve_all(finished, depth),
                next,
            )
        }),
{
    let (finished, next) = continue_list(
        first_item_start,
        items,
        current_item_lines,
        current_content_indent,
        tight,
        pending_blank_count,
        line,
    );
    lemma_resolve_all_len(finished, depth);
    if finished.len() > 0 {
        let list = list_segment(first_item_start, items.push(current_item_lines), tight);
        lemma_resolve_all_index(finished, depth, 0);
        lemma_resolve_items_len(list->List_items, depth);
        let started = start_block(line).0;
        lemma_leaf_nodes(started, depth);
        assert forall|i: int| 1 <= i < finished.len() implies !((#[trigger] resolve_all(
            finished,
            depth,
        )[i]) is List) by {
            lemma_resolve_all_index(finished, depth, i);
            assert(finished[i] == started[i - 1]);
        }
    }
    lemma_item_start_well_formed(line);
    if item_start(line) is Ok {
        lemma_marker_line_opens_list(line);
    }
}

/// The marker of the item that `line` adds to the list in state `context`,
/// if it adds one.
pub open spec fn marker_taken(context: ContextView, line: Seq<char>) -> Option<ListMarker> {
    match context {
        ContextView::List { first_item_start, current_content_indent, .. } => match list_end(
            line,
            first_item_start.marker,
            first_item_start.content_indent,
            current_content_indent,
        ) {
            Err(ContinueView::NewItem(start)) => Some(start.marker),
            _ => None,
        },
        _ => None,
    }
}

/// The markers of the items of the list that `start` opens and `lines`
/// continue, the first item's marker first.
pub open spec fn markers_taken(start: ItemStartView, lines: Seq<Seq<char>>) -> Seq<ListMarker>
    decreases lines.len(),
{
    if lines.len() == 0 {
        seq![start.marker]
    } else {
        let before = markers_taken(start, lines.drop_last());
        match marker_taken(feed(list_opened(start), lines.drop_last()).1, lines.last()) {
            Some(marker) => before.push(marker),
            None => before,
        }
    }
}

/// As long as a list stays open, it has one item for each marker that it
/// took, every one of these markers is of the type of the first, and the
/// List node that the end of the input makes of it has as many ListItems,
/// and the type and start number of the first marker.
pub proof fn lemma_items_share_marker_type(
    start: ItemStartView,
    lines: Seq<Seq<char>>,
    depth: nat,
)
    requires
        stays_open(start, lines),
    ensures
        ({
            let list = feed(list_opened(start), lines).1;
            let markers = markers_taken(start, lines);
            let node = resolve(finish(list)[0], depth);
            &&& list is List
            &&& list->List_first_item_start == start
            &&& list->List_items.len() + 1 == markers.len()
            &&& forall|k: int|
                0 <= k < markers.len() ==> start.marker.same_type(#[trigger] markers[k])
            &&& node is List
            &&& node->List_children.len() == markers.len()
            &&& node->List_list_type == start.marker.list_type().0
            &&& node->List_start == start.marker.list_type().1
        }),
    decreases lines.len(),
{
    let opened = list_opened(start);
    assert(lines.take(lines.len() as int) =~= lines);
    assert(feed(opened, lines.take(lines.len() as int)).1 is List);
    if lines.len() > 0 {
        let init = lines.drop_last();
        let last = lines.last();
        assert forall|k: int| 0 <= k <= init.len() implies (#[trigger] feed(
            opened,
            init.take(k),
        )).1 is List && feed(opened, init.take(k)).0.len() == 0 by {
            assert(init.take(k) =~= lines.take(k));
        }
        lemma_items_share_marker_type(start, init, depth);
        let before = feed(opened, init).1;
        assert(init =~= lines.take(init.len() as int));
        assert(feed(opened, lines).0.len() == 0);
        assert(feed(opened, init).0.len() == 0);
        assert(step(before, last).0.len() == 0);
        lemma_same_type_is_equivalence(start.marker, start.marker, start.marker);
        let markers = markers_taken(start, lines);
        let earlier = markers_taken(start, init);
        assert forall|k: int| 0 <= k < markers.len() implies start.marker.same_type(
            #[trigger] markers[k],
        ) by {
            if k < earlier.len() {
                assert(markers[k] == earlier[k]);
            }
        }
    } else {
        assert(feed(opened, lines).1 == opened);
        lemma_same_type_is_equivalence(start.marker, start.marker, start.marker);
    }
    let list = feed(opened, lines).1;
    lemma_resolve_items_len(finish(list)[0]->List_items, depth);
}

/// No blank line of `lines` comes before a line that is not blank.
pub open spec fn no_blank_inside(lines: Seq<Seq<char>>) -> bool {
    forall|i: int, j: int|
        0 <= i < j < lines.len() && is_blank(#[trigger] lines[i]) ==> is_blank(#[trigger] lines[j])
}

/// As long as a list stays open, it is tight if and only if no blank line
/// came before a line that the list took in. The blank lines at the end are
/// held back, and the end of the list drops them: the List node has the flag
/// of the state.
pub proof fn lemma_tight_iff_no_blank_inside(
    start: ItemStartView,
    lines: Seq<Seq<char>>,
    depth: nat,
)
    requires
        stays_open(start, lines),
    ensures
        ({
            let list = feed(list_opened(start), lines).1;
            &&& list is List
            &&& list->List_tight == no_blank_inside(lines)
            &&& list->List_pending_blank_count == blank_suffix(lines)
            &&& finish(list).len() == 1
            &&& resolve(finish(list)[0], depth) is List
            &&& resolve(finish(list)[0], depth)->List_tight == no_blank_inside(lines)
        }),
    decreases lines.len(),
{
    let opened = list_opened(start);
    assert(lines.take(lines.len() as int) =~= lines);
    assert(feed(opened, lines.take(lines.len() as int)).1 is List);
    if lines.len() > 0 {
        let init = lines.drop_last();
        let last = lines.last();
        assert forall|k: int| 0 <= k <= init.len() implies (#[trigger] feed(
            opened,
            init.take(k),
        )).1 is List && feed(opened, init.take(k)).0.len() == 0 by {
            assert(init.take(k) =~= lines.take(k));
        }
        lemma_tight_iff_no_blank_inside(start, init, depth);
        let before = feed(opened, init).1;
        let after = feed(opened, lines).1;
        assert(init =~= lines.take(init.len() as int));
        assert(feed(opened, lines).0.len() == 0);
        assert(feed(opened, init).0.len() == 0);
        assert(step(before, last).0.len() == 0);
        assert(after == step(before, last).1);
        lemma_blank_suffix_facts(init);
        lemma_blank_suffix_facts(lines);
        if is_blank(last) {
            assert(no_blank_inside(init) == no_blank_inside(lines)) by {
                if no_blank_inside(init) {
                    assert forall|i: int, j: int|
                        0 <= i < j < lines.len() && is_blank(
                            #[trigger] lines[i],
                        ) implies is_blank(#[trigger] lines[j]) by {
                        if j < init.len() {
                            assert(init[i] == lines[i] && init[j] == lines[j]);
                        }
                    }
                }
                if no_blank_inside(lines) {
                    assert forall|i: int, j: int|
                        0 <= i < j < init.len() && is_blank(#[trigger] init[i]) implies is_blank(
                            #[trigger] init[j],
                        ) by {
                        assert(init[i] == lines[i] && init[j] == lines[j]);
                    }
                }
            }
        } else {
            assert(blank_suffix(lines) == 0);
            if no_blank_inside(lines) {
                assert forall|i: int, j: int|
                    0 <= i < j < init.len() && is_blank(#[trigger] init[i]) implies is_blank(
                        #[trigger] init[j],
                    ) by {
                    assert(init[i] == lines[i] && init[j] == lines[j]);
                }
                if blank_suffix(init) > 0 {
                    assert(is_blank(init.last()));
                    assert(init.last() == lines[init.len() - 1]);
                    assert(is_blank(lines[lines.len() - 1]));
                }
            }
            if no_blank_inside(init) && blank_suffix(init) == 0 {
                assert forall|i: int, j: int|
                    0 <= i < j < lines.len() && is_blank(#[trigger] lines[i]) implies is_blank(
                        #[trigger] lines[j],
                    ) by {
                    assert(init[i] == lines[i]);
                    if j < init.len() {
                        assert(init[j] == lines[j]);
                    } else {
                        if i < init.len() - 1 {
                            assert(is_blank(init[init.len() - 1]));
                        }
                        assert(is_blank(init.last()));
                    }
                }
            }
        }
    } else {
        assert(feed(opened, lines).1 == opened);
    }
}

/// The blank lines at the end of `lines` are none if the last line is not
/// blank, and one more than before it if it is.
proof fn lemma_blank_suffix_facts(lines: Seq<Seq<char>>)
    ensures
        lines.len() > 0 && !is_blank(lines.last()) ==> blank_suffix(lines) == 0,
        lines.len() > 0 && is_blank(lines.last()) ==> blank_suffix(lines) == blank_suffix(
            lines.drop_last(),
        ) + 1,
        lines.len() == 0 ==> blank_suffix(lines) == 0,
        blank_suffix(lines) > 0 ==> lines.len() > 0 && is_blank(lines.last()),
{
}

/// An open fenced code block ends at a line if and only if the line is a
/// closing fence for it: a run of the opening character, at least as long as
/// the opening fence, indented by at most three spaces and followed by
/// whitespace only. Any other line is content, even a fence of the other
/// character or a shorter one.
pub proof fn lemma_fence_closes_on_match_only(
    start: FenceView,
    content: Seq<Seq<char>>,
    line: Seq<char>,
)
    ensures
        ({
            let (finished, next) = continue_fenced(start, content, line);
            let closes = closing(line, start.fence_char, start.fence_len) is Ok;
            &&& closes ==> next is Idle && finished == seq![
                Segment::Leaf(code_block_view(start.info, join_lines(content))),
            ]
            &&& !closes ==> finished.len() == 0 && next is CodeBlockFenced
                && next->CodeBlockFenced_content.len() == content.len() + 1
                && next->CodeBlockFenced_start == start
        }),
{
}

/// A step from a well-formed state leads to a well-formed state.
pub proof fn lemma_step_keeps_well_formed(context: ContextView, line: Seq<char>)
    requires
        context.well_formed(),
    ensures
        step(context, line).1.well_formed(),
        start_block(line).1.well_formed(),
{
    lemma_trim(line);
    lemma_opening_well_formed(line);
    lemma_item_start_well_formed(line);
    lemma_indented_keeps_text(line);
    match context {
        ContextView::Paragraph { lines } => {
            let next = step(context, line).1;
            if next is Paragraph {
                assert forall|i: int| 0 <= i < next->Paragraph_lines.len() implies is_trimmed(
                    #[trigger] next->Paragraph_lines[i],
                ) by {
                    if i < lines.len() {
                        assert(next->Paragraph_lines[i] == lines[i]);
                    }
                }
            }
        },
        ContextView::CodeBlockIndented { lines, pending_blank_count } => {
            let next = step(context, line).1;
            if next is CodeBlockIndented {
                assert(next->CodeBlockIndented_lines[0] == lines[0]);
            }
        },
        _ => {},
    }
}

/// A line that is not blank and starts with four spaces holds text behind
/// them.
proof fn lemma_indented_keeps_text(line: Seq<char>)
    ensures
        !is_blank(line) && indented(line) is Ok ==> !is_blank(indented(line)->Ok_0),
{
    if !is_blank(line) && indented(line) is Ok {
        let rest = line.skip(4);
        lemma_prefix_len(line, CharClass::Exactly(' '));
        lemma_prefix_len(line, CharClass::Whitespace);
        lemma_prefix_len(rest, CharClass::Whitespace);
        let k = prefix_len(rest, CharClass::Whitespace);
        if k == rest.len() {
            assert forall|i: int| 0 <= i < line.len() implies CharClass::Whitespace.has(
                #[trigger] line[i],
            ) by {
                if i < 4 {
                    assert(CharClass::Exactly(' ').has(line[i]));
                } else {
                    assert(line[i] == rest[i - 4]);
                }
            }
            lemma_prefix_len_is(line, CharClass::Whitespace, line.len() as int);
        }
    }
}

/// Every state that lines lead to from the idle state is well formed.
pub proof fn lemma_run_well_formed(lines: Seq<Seq<char>>)
    ensures
        run(lines).1.well_formed(),
    decreases lines.len(),
{
    if lines.len() > 0 {
        lemma_run_well_formed(lines.drop_last());
        lemma_step_keeps_well_formed(run(lines.drop_last()).1, lines.last());
    }
}

} // verus!
