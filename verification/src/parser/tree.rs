//! From segments to nodes.
//!
//! A container's text is read by the parser that found the container. The
//! nesting that is followed this way is bounded: [`blocks_within`] reads a
//! text with a budget of nesting levels, and text nested deeper than the
//! budget stays a plain Paragraph. [`blocks`] is the reading in which no
//! text is cut; [`fits`] says when a budget is enough for that.

use vstd::prelude::*;
use crate::node::NodeView;
use crate::parser::helpers::join_lines;
use crate::parser::machine::{segments, ItemPart, Segment};
use crate::parser::paragraph::paragraph_view;

verus! {

/// Number of nesting levels that [`crate::parse`] follows. A blockquote or
/// list item nested deeper holds its text as one Paragraph.
pub const MAX_NESTING_DEPTH: usize = 128;

/// The blocks of a text, reading containers up to `depth` levels deep.
pub open spec fn blocks_within(input: Seq<char>, depth: nat) -> Seq<NodeView>
    decreases depth, 5nat, 0nat,
{
    resolve_all(segments(input), depth)
}

/// The nodes of a sequence of segments.
pub open spec fn resolve_all(segments: Seq<Segment>, depth: nat) -> Seq<NodeView>
    decreases depth, 4nat, segments.len(),
{
    if segments.len() == 0 {
        Seq::empty()
    } else {
        resolve_all(segments.drop_last(), depth).push(resolve(segments.last(), depth))
    }
}

/// The node of a segment. A blockquote holds what its lines, joined by
/// newlines, hold as a nested text; a list holds one ListItem for each of
/// its items.
pub open spec fn resolve(segment: Segment, depth: nat) -> NodeView
    decreases depth, 3nat, 0nat,
{
    match segment {
        Segment::Leaf(node) => node,
        Segment::Quote { lines } => NodeView::Blockquote {
            children: nested(join_lines(lines), depth),
        },
        Segment::List { list_type, start, tight, items } => NodeView::List {
            list_type,
            start,
            tight,
            children: resolve_items(items, depth),
        },
    }
}

/// One ListItem for each item, holding the blocks of its parts.
pub open spec fn resolve_items(items: Seq<Seq<ItemPart>>, depth: nat) -> Seq<NodeView>
    decreases depth, 2nat, items.len(),
{
    if items.len() == 0 {
        Seq::empty()
    } else {
        resolve_items(items.drop_last(), depth).push(
            NodeView::ListItem { children: resolve_parts(items.last(), depth) },
        )
    }
}

/// The blocks of one part: a plain part is one Paragraph, a nested part is
/// read as a nested text.
pub open spec fn resolve_part(part: ItemPart, depth: nat) -> Seq<NodeView>
    decreases depth, 1nat, 0nat,
{
    match part {
        ItemPart::Plain(text) => seq![paragraph_view(text)],
        ItemPart::Nested(text) => nested(text, depth),
    }
}

/// The blocks of an item's parts, in order.
pub open spec fn resolve_parts(parts: Seq<ItemPart>, depth: nat) -> Seq<NodeView>
    decreases depth, 1nat, parts.len() + 1,
{
    if parts.len() == 0 {
        Seq::empty()
    } else {
        resolve_parts(parts.drop_last(), depth) + resolve_part(parts.last(), depth)
    }
}

/// What a container holds for its text: with a budget left, the blocks of
/// the text, read with one level less; with none, the text as one Paragraph.
pub open spec fn nested(text: Seq<char>, depth: nat) -> Seq<NodeView>
    decreases depth, 0nat, 0nat,
{
    if depth == 0 {
        seq![paragraph_view(text)]
    } else {
        blocks_within(text, (depth - 1) as nat)
    }
}

/// The blocks of a text, with every nested text read. A budget of as many
/// levels as the text has characters is always enough for that.
pub open spec fn blocks(input: Seq<char>) -> Seq<NodeView> {
    blocks_within(input, input.len())
}

/// Whether a budget of `depth` levels reads every nested text of `input`.
pub open spec fn fits(input: Seq<char>, depth: nat) -> bool
    decreases depth, 5nat, 0nat,
{
    segments_fit(segments(input), depth)
}

/// Whether the budget is enough for each of the segments.
pub open spec fn segments_fit(segments: Seq<Segment>, depth: nat) -> bool
    decreases depth, 4nat, segments.len(),
{
    segments.len() == 0 || (segments_fit(segments.drop_last(), depth) && segment_fits(
        segments.last(),
        depth,
    ))
}

/// Whether the budget is enough for a segment.
pub open spec fn segment_fits(segment: Segment, depth: nat) -> bool
    decreases depth, 3nat, 0nat,
{
    match segment {
        Segment::Leaf(_) => true,
        Segment::Quote { lines } => text_fits(join_lines(lines), depth),
        Segment::List { items, .. } => items_fit(items, depth),
    }
}

/// Whether the budget is enough for each of the items.
pub open spec fn items_fit(items: Seq<Seq<ItemPart>>, depth: nat) -> bool
    decreases depth, 2nat, items.len(),
{
    items.len() == 0 || (items_fit(items.drop_last(), depth) && parts_fit(items.last(), depth))
}

/// Whether the budget is enough for a part.
pub open spec fn part_fits(part: ItemPart, depth: nat) -> bool
    decreases depth, 1nat, 0nat,
{
    match part {
        ItemPart::Plain(_) => true,
        ItemPart::Nested(text) => text_fits(text, depth),
    }
}

/// Whether the budget is enough for each of the parts.
pub open spec fn parts_fit(parts: Seq<ItemPart>, depth: nat) -> bool
    decreases depth, 1nat, parts.len() + 1,
{
    parts.len() == 0 || (parts_fit(parts.drop_last(), depth) && part_fits(parts.last(), depth))
}

/// Whether the budget is enough for a nested text: a level is left for the
/// text itself, and the rest is enough for what is nested in it.
pub open spec fn text_fits(text: Seq<char>, depth: nat) -> bool
    decreases depth, 0nat, 0nat,
{
    depth > 0 && fits(text, (depth - 1) as nat)
}

/// The nodes of no segments, of one and of two.
pub proof fn lemma_resolve_all_small(a: Segment, b: Segment, depth: nat)
    ensures
        resolve_all(Seq::empty(), depth) == Seq::<NodeView>::empty(),
        resolve_all(seq![a], depth) == seq![resolve(a, depth)],
        resolve_all(seq![a, b], depth) == seq![resolve(a, depth), resolve(b, depth)],
{
    assert(resolve_all(Seq::<Segment>::empty(), depth) =~= Seq::<NodeView>::empty());
    assert(seq![a].drop_last() =~= Seq::<Segment>::empty());
    assert(seq![a, b].drop_last() =~= seq![a]);
    assert(resolve_all(seq![a], depth) =~= seq![resolve(a, depth)]);
    assert(resolve_all(seq![a, b], depth) =~= seq![resolve(a, depth), resolve(b, depth)]);
}

/// Every one of the segments is a leaf.
pub open spec fn only_leaves(segments: Seq<Segment>) -> bool {
    forall|i: int| 0 <= i < segments.len() ==> (#[trigger] segments[i]) is Leaf
}

/// The nodes of segments that are leaves.
pub open spec fn leaf_nodes(segments: Seq<Segment>) -> Seq<NodeView> {
    Seq::new(segments.len(), |i: int| segments[i]->Leaf_0)
}

/// Leaves are their own nodes, whatever the budget.
pub proof fn lemma_leaf_nodes(segments: Seq<Segment>, depth: nat)
    requires
        only_leaves(segments),
    ensures
        resolve_all(segments, depth) == leaf_nodes(segments),
    decreases segments.len(),
{
    if segments.len() > 0 {
        let init = segments.drop_last();
        assert forall|i: int| 0 <= i < init.len() implies (#[trigger] init[i]) is Leaf by {
            assert(init[i] == segments[i]);
        }
        lemma_leaf_nodes(init, depth);
        assert(segments[segments.len() - 1] is Leaf);
        assert(resolve(segments.last(), depth) == segments.last()->Leaf_0);
    }
    assert(resolve_all(segments, depth) =~= leaf_nodes(segments));
}

/// The leaves of no nodes, of one and of two.
pub proof fn lemma_leaf_nodes_small(a: NodeView, b: NodeView)
    ensures
        leaf_nodes(Seq::empty()) == Seq::<NodeView>::empty(),
        leaf_nodes(seq![Segment::Leaf(a)]) == seq![a],
        leaf_nodes(seq![Segment::Leaf(a), Segment::Leaf(b)]) == seq![a, b],
{
    assert(leaf_nodes(Seq::empty()) =~= Seq::<NodeView>::empty());
    assert(leaf_nodes(seq![Segment::Leaf(a)]) =~= seq![a]);
    assert(leaf_nodes(seq![Segment::Leaf(a), Segment::Leaf(b)]) =~= seq![a, b]);
}

/// The nodes of a concatenation are the concatenated nodes.
pub proof fn lemma_resolve_all_add(a: Seq<Segment>, b: Seq<Segment>, depth: nat)
    ensures
        resolve_all(a + b, depth) == resolve_all(a, depth) + resolve_all(b, depth),
    decreases b.len(),
{
    if b.len() == 0 {
        assert(a + b =~= a);
        assert(resolve_all(a, depth) + resolve_all(b, depth) =~= resolve_all(a, depth));
    } else {
        assert((a + b).drop_last() =~= a + b.drop_last());
        assert((a + b).last() == b.last());
        lemma_resolve_all_add(a, b.drop_last(), depth);
        assert(resolve_all(a + b, depth) =~= resolve_all(a, depth) + resolve_all(b, depth));
    }
}

/// The nodes of segments stand at the segments' places.
pub proof fn lemma_resolve_all_index(segments: Seq<Segment>, depth: nat, i: int)
    requires
        0 <= i < segments.len(),
    ensures
        resolve_all(segments, depth).len() == segments.len(),
        resolve_all(segments, depth)[i] == resolve(segments[i], depth),
    decreases segments.len(),
{
    let init = segments.drop_last();
    lemma_resolve_all_len(init, depth);
    if i < segments.len() - 1 {
        lemma_resolve_all_index(init, depth, i);
    }
}

/// There are as many nodes as segments.
pub proof fn lemma_resolve_all_len(segments: Seq<Segment>, depth: nat)
    ensures
        resolve_all(segments, depth).len() == segments.len(),
    decreases segments.len(),
{
    if segments.len() > 0 {
        lemma_resolve_all_len(segments.drop_last(), depth);
    }
}

/// The blocks of no parts, of one part, and of parts with one more part.
pub proof fn lemma_resolve_parts_push(parts: Seq<ItemPart>, part: ItemPart, depth: nat)
    ensures
        resolve_parts(Seq::empty(), depth) == Seq::<NodeView>::empty(),
        resolve_parts(seq![part], depth) == resolve_part(part, depth),
        resolve_parts(parts.push(part), depth) == resolve_parts(parts, depth) + resolve_part(
            part,
            depth,
        ),
{
    assert(resolve_parts(Seq::<ItemPart>::empty(), depth) =~= Seq::<NodeView>::empty());
    assert(seq![part].drop_last() =~= Seq::<ItemPart>::empty());
    assert(resolve_parts(seq![part], depth) =~= resolve_part(part, depth));
    assert(parts.push(part).drop_last() =~= parts);
}

/// The ListItems of no items, and of items with one more item.
pub proof fn lemma_resolve_items_push(items: Seq<Seq<ItemPart>>, item: Seq<ItemPart>, depth: nat)
    ensures
        resolve_items(Seq::empty(), depth) == Seq::<NodeView>::empty(),
        resolve_items(items.push(item), depth) == resolve_items(items, depth).push(
            NodeView::ListItem { children: resolve_parts(item, depth) },
        ),
{
    assert(items.push(item).drop_last() =~= items);
}

/// The items of a list stand at the items' places.
pub proof fn lemma_resolve_items_index(items: Seq<Seq<ItemPart>>, depth: nat, j: int)
    requires
        0 <= j < items.len(),
    ensures
        resolve_items(items, depth).len() == items.len(),
        resolve_items(items, depth)[j] == (NodeView::ListItem {
            children: resolve_parts(items[j], depth),
        }),
    decreases items.len(),
{
    let init = items.drop_last();
    lemma_resolve_items_len(init, depth);
    if j < items.len() - 1 {
        lemma_resolve_items_index(init, depth, j);
    }
}

/// There are as many ListItems as items.
pub proof fn lemma_resolve_items_len(items: Seq<Seq<ItemPart>>, depth: nat)
    ensures
        resolve_items(items, depth).len() == items.len(),
    decreases items.len(),
{
    if items.len() > 0 {
        lemma_resolve_items_len(items.drop_last(), depth);
    }
}

/// A budget that is enough stays enough when it grows, and the blocks stay
/// the same.
pub proof fn lemma_budget(input: Seq<char>, depth: nat, more: nat)
    requires
        fits(input, depth),
        depth <= more,
    ensures
        fits(input, more),
        blocks_within(input, more) == blocks_within(input, depth),
    decreases depth, 5nat, 0nat,
{
    lemma_budget_segments(segments(input), depth, more);
}

proof fn lemma_budget_segments(segments: Seq<Segment>, depth: nat, more: nat)
    requires
        segments_fit(segments, depth),
        depth <= more,
    ensures
        segments_fit(segments, more),
        resolve_all(segments, more) == resolve_all(segments, depth),
    decreases depth, 4nat, segments.len(),
{
    if segments.len() > 0 {
        lemma_budget_segments(segments.drop_last(), depth, more);
        lemma_budget_segment(segments.last(), depth, more);
    }
}

proof fn lemma_budget_segment(segment: Segment, depth: nat, more: nat)
    requires
        segment_fits(segment, depth),
        depth <= more,
    ensures
        segment_fits(segment, more),
        resolve(segment, more) == resolve(segment, depth),
    decreases depth, 3nat, 0nat,
{
    match segment {
        Segment::Leaf(_) => {},
        Segment::Quote { lines } => {
            lemma_budget_text(join_lines(lines), depth, more);
        },
        Segment::List { items, .. } => {
            lemma_budget_items(items, depth, more);
        },
    }
}

proof fn lemma_budget_items(items: Seq<Seq<ItemPart>>, depth: nat, more: nat)
    requires
        items_fit(items, depth),
        depth <= more,
    ensures
        items_fit(items, more),
        resolve_items(items, more) == resolve_items(items, depth),
    decreases depth, 2nat, items.len(),
{
    if items.len() > 0 {
        lemma_budget_items(items.drop_last(), depth, more);
        lemma_budget_parts(items.last(), depth, more);
    }
}

proof fn lemma_budget_parts(parts: Seq<ItemPart>, depth: nat, more: nat)
    requires
        parts_fit(parts, depth),
        depth <= more,
    ensures
        parts_fit(parts, more),
        resolve_parts(parts, more) == resolve_parts(parts, depth),
    decreases depth, 1nat, parts.len(),
{
    if parts.len() > 0 {
        lemma_budget_parts(parts.drop_last(), depth, more);
        assert(part_fits(parts.last(), depth));
        match parts.last() {
            ItemPart::Plain(_) => {},
            ItemPart::Nested(text) => {
                lemma_budget_text(text, depth, more);
            },
        }
        assert(part_fits(parts.last(), more));
        assert(resolve_part(parts.last(), more) == resolve_part(parts.last(), depth));
    }
}

proof fn lemma_budget_text(text: Seq<char>, depth: nat, more: nat)
    requires
        text_fits(text, depth),
        depth <= more,
    ensures
        text_fits(text, more),
        nested(text, more) == nested(text, depth),
    decreases depth, 0nat, 0nat,
{
    lemma_budget(text, (depth - 1) as nat, (more - 1) as nat);
}

} // verus!
