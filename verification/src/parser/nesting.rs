//! How deep a tree nests, and the bound that the parsers keep: no tree is
//! deeper than the depth to which it was parsed.

use crate::parser::block::lines::lines_of;
use crate::parser::block::{
    block_end, block_node, blocks_from, blocks_of, continues, document, item_lines, item_stop,
    lemma_block_end, lemma_item_bounds, list_items, mark_width, next_item, unquote_all,
    BLOCK_DEPTH,
};
use crate::parser::span::{
    lemma_shape_bounds, scan, shape_at, span_of, spans_in, spans_of, text_span, ShapeView,
    SPAN_DEPTH,
};
use crate::parser::text::is_blank;
use crate::parser::{BlockView, ListItemView, SpanView};
use vstd::prelude::*;

verus! {

/// Whether a span nests at most `d` levels of spans that hold spans.
pub open spec fn span_within(span: SpanView, d: nat) -> bool
    decreases d,
{
    match span {
        SpanView::Link(content, _, _) => d > 0 && forall|i: int|
            0 <= i < content.len() ==> span_within(#[trigger] content[i], (d - 1) as nat),
        SpanView::RefLink(content, _, _) => d > 0 && forall|i: int|
            0 <= i < content.len() ==> span_within(#[trigger] content[i], (d - 1) as nat),
        SpanView::Emphasis(content) => d > 0 && forall|i: int|
            0 <= i < content.len() ==> span_within(#[trigger] content[i], (d - 1) as nat),
        SpanView::Strong(content) => d > 0 && forall|i: int|
            0 <= i < content.len() ==> span_within(#[trigger] content[i], (d - 1) as nat),
        _ => true,
    }
}

/// Whether each span of a sequence nests at most `d` levels.
pub open spec fn spans_within(spans: Seq<SpanView>, d: nat) -> bool {
    forall|i: int| 0 <= i < spans.len() ==> span_within(#[trigger] spans[i], d)
}

/// Whether a list item nests at most `d` levels of blocks that hold
/// blocks.
pub open spec fn item_within(item: ListItemView, d: nat) -> bool
    decreases d, 0nat,
{
    match item {
        ListItemView::Paragraph(blocks) => d > 0 && forall|i: int|
            0 <= i < blocks.len() ==> block_within(#[trigger] blocks[i], (d - 1) as nat),
        ListItemView::Simple(_) => true,
    }
}

/// Whether a block nests at most `d` levels of blocks that hold blocks: a
/// block quote and a loose list item are one level each.
pub open spec fn block_within(block: BlockView, d: nat) -> bool
    decreases d, 1nat,
{
    match block {
        BlockView::Blockquote(blocks) => d > 0 && forall|i: int|
            0 <= i < blocks.len() ==> block_within(#[trigger] blocks[i], (d - 1) as nat),
        BlockView::OrderedList(items, _) => forall|i: int|
            0 <= i < items.len() ==> item_within(#[trigger] items[i], d),
        BlockView::UnorderedList(items) => forall|i: int|
            0 <= i < items.len() ==> item_within(#[trigger] items[i], d),
        _ => true,
    }
}

/// Whether each block of a sequence nests at most `d` levels.
pub open spec fn blocks_within(blocks: Seq<BlockView>, d: nat) -> bool {
    forall|i: int| 0 <= i < blocks.len() ==> block_within(#[trigger] blocks[i], d)
}

/// The span of a shape that was recognised nests at most one level more
/// than its content was parsed deep.
pub proof fn lemma_span_of_depth(
    s: Seq<char>,
    pos: int,
    hi: int,
    end: int,
    shape: ShapeView,
    inner: nat,
)
    requires
        shape_at(s, pos, hi) == Some((shape, end)),
    ensures
        span_within(span_of(s, pos, end, shape, inner), inner + 1),
    decreases inner, 2nat, 0nat,
{
    match shape {
        ShapeView::Reference { from, to, id_from, id_to } => {
            lemma_spans_in_depth(s, from, to, inner);
        },
        ShapeView::Link { from, to, target_from, target_to } => {
            lemma_spans_in_depth(s, from, to, inner);
        },
        ShapeView::Strong { from, to } => {
            lemma_spans_in_depth(s, from, to, inner);
        },
        ShapeView::Emphasis { from, to } => {
            lemma_spans_in_depth(s, from, to, inner);
        },
        _ => {},
    }
}

/// What a scan gives nests at most `depth` levels.
pub proof fn lemma_scan_depth(s: Seq<char>, start: int, pos: int, hi: int, depth: nat)
    ensures
        spans_within(scan(s, start, pos, hi, depth), depth),
    decreases depth, 0nat, hi - pos,
{
    if pos >= hi || pos < 0 || hi > s.len() || depth == 0 {
    } else {
        match shape_at(s, pos, hi) {
            Some((shape, end)) => {
                lemma_shape_bounds(s, pos, hi);
                lemma_span_of_depth(s, pos, hi, end, shape, (depth - 1) as nat);
                lemma_scan_depth(s, end, end, hi, depth);
                let span = span_of(s, pos, end, shape, (depth - 1) as nat);
                let head = text_span(s, start, pos).push(span);
                let rest = scan(s, end, end, hi, depth);
                let all = head + rest;
                assert forall|i: int| 0 <= i < all.len() implies span_within(
                    #[trigger] all[i],
                    depth,
                ) by {
                    if i < head.len() {
                        assert(all[i] == head[i]);
                    } else {
                        assert(all[i] == rest[i - head.len()]);
                    }
                }
            },
            None => {
                lemma_scan_depth(s, start, pos + 1, hi, depth);
            },
        }
    }
}

/// The spans of a text that was parsed `depth` levels deep nest at most
/// `depth` levels.
pub proof fn lemma_spans_in_depth(s: Seq<char>, lo: int, hi: int, depth: nat)
    ensures
        spans_within(spans_in(s, lo, hi, depth), depth),
    decreases depth, 1nat, 0nat,
{
    if depth > 0 {
        lemma_scan_depth(s, lo, lo, hi, depth);
    }
}

/// Bounded nesting of spans: the spans of any text nest at most
/// `SPAN_DEPTH` levels.
pub proof fn lemma_spans_are_bounded(text: Seq<char>)
    ensures
        spans_within(spans_of(text), SPAN_DEPTH as nat),
{
    lemma_spans_in_depth(text, 0, text.len() as int, SPAN_DEPTH as nat);
}

/// The items of a list whose content was parsed `inner` levels deep nest
/// at most one level more.
pub proof fn lemma_list_items_depth(ls: Seq<Seq<char>>, p: int, loose_before: bool, inner: nat)
    ensures
        forall|k: int|
            0 <= k < list_items(ls, p, loose_before, inner).len() ==> item_within(
                #[trigger] list_items(ls, p, loose_before, inner)[k],
                inner + 1,
            ),
    decreases inner, 3nat, ls.len() - p,
{
    if 0 <= p < ls.len() {
        let e = item_stop(ls, p);
        let b = next_item(ls, p);
        let loose_after = continues(ls, p) && b > e;
        let all = list_items(ls, p, loose_before, inner);
        let item = all[0];
        match item {
            ListItemView::Paragraph(blocks) => {
                lemma_blocks_of_depth(item_lines(ls, p, e, mark_width(ls[p])), inner);
            },
            ListItemView::Simple(_) => {},
        }
        assert(item_within(item, inner + 1));
        if continues(ls, p) {
            lemma_item_bounds(ls, p);
            lemma_list_items_depth(ls, b, loose_after, inner);
            let rest = list_items(ls, b, loose_after, inner);
            assert forall|k: int| 0 <= k < all.len() implies item_within(
                #[trigger] all[k],
                inner + 1,
            ) by {
                if k > 0 {
                    assert(all[k] == rest[k - 1]);
                }
            }
        }
    }
}

/// A block whose content was parsed `inner` levels deep nests at most one
/// level more.
pub proof fn lemma_block_node_depth(ls: Seq<Seq<char>>, i: int, inner: nat)
    ensures
        block_within(block_node(ls, i, inner), inner + 1),
    decreases inner, 4nat, 0nat,
{
    let node = block_node(ls, i, inner);
    match node {
        BlockView::Blockquote(blocks) => {
            let content = unquote_all(ls.subrange(i, block_end(ls, i)));
            lemma_blocks_of_depth(content, inner);
            assert(blocks == blocks_of(content, inner));
            assert(block_within(node, inner + 1));
        },
        BlockView::OrderedList(items, _) => {
            lemma_list_items_depth(ls, i, false, inner);
            assert(items == list_items(ls, i, false, inner));
            assert(block_within(node, inner + 1));
        },
        BlockView::UnorderedList(items) => {
            lemma_list_items_depth(ls, i, false, inner);
            assert(items == list_items(ls, i, false, inner));
            assert(block_within(node, inner + 1));
        },
        _ => {
            assert(block_within(node, inner + 1));
        },
    }
}

/// The blocks from a line on nest at most `depth` levels.
pub proof fn lemma_blocks_from_depth(ls: Seq<Seq<char>>, i: int, depth: nat)
    ensures
        blocks_within(blocks_from(ls, i, depth), depth),
    decreases depth, 1nat, ls.len() - i,
{
    if i < 0 || i >= ls.len() || depth == 0 {
    } else if is_blank(ls[i]) {
        lemma_blocks_from_depth(ls, i + 1, depth);
    } else {
        lemma_block_end(ls, i);
        lemma_block_node_depth(ls, i, (depth - 1) as nat);
        lemma_blocks_from_depth(ls, block_end(ls, i), depth);
        let rest = blocks_from(ls, block_end(ls, i), depth);
        let all = blocks_from(ls, i, depth);
        assert forall|k: int| 0 <= k < all.len() implies block_within(#[trigger] all[k], depth) by {
            if k > 0 {
                assert(all[k] == rest[k - 1]);
            }
        }
    }
}

/// The blocks of lines that were parsed `depth` levels deep nest at most
/// `depth` levels.
pub proof fn lemma_blocks_of_depth(ls: Seq<Seq<char>>, depth: nat)
    ensures
        blocks_within(blocks_of(ls, depth), depth),
    decreases depth, 2nat, 0nat,
{
    if depth > 0 {
        lemma_blocks_from_depth(ls, 0, depth);
    }
}

/// Bounded nesting of blocks: the tree of any document nests at most
/// `BLOCK_DEPTH` levels of blocks.
pub proof fn lemma_document_is_bounded(text: Seq<char>)
    ensures
        blocks_within(document(text), BLOCK_DEPTH as nat),
{
    lemma_blocks_of_depth(lines_of(text), BLOCK_DEPTH as nat);
}

} // verus!
