//! The source of reference links: what a reference link of a document
//! holds as its raw text is a piece of the document's text, as it stands
//! there.

use crate::parser::block::lines::{join_lines, lines_from, lines_of};
use crate::parser::block::{
    block_end, block_node, blocks_from, blocks_of, continues, document, drop_columns,
    header_level, item_lines, item_stop, kind_of, lemma_block_end, lemma_item_bounds,
    list_items, mark_width, next_item, unquote, unquote_all, BlockKind, BLOCK_DEPTH,
};
use crate::parser::resolve::{
    children, definitions, lemma_undefined_reference_falls_back, lookup, path_resolves, resolved,
    span_under, spans_under, spans_under_item,
};
use crate::parser::span::{
    lemma_reference_keeps_its_source, lemma_shape_bounds, scan, shape_at, span_of, spans_in,
    spans_of, text_span, ShapeView, SPAN_DEPTH,
};
use crate::parser::text::{index_of, is_blank, lemma_index_of, trim_range};
use crate::parser::{BlockView, ListItemView, SpanView};
use vstd::prelude::*;

verus! {

/// Whether `t` is a piece of `of`: characters of `of` that follow each
/// other there.
pub open spec fn is_part(t: Seq<char>, of: Seq<char>) -> bool {
    exists|a: int, b: int| 0 <= a <= b <= of.len() && t == #[trigger] of.subrange(a, b)
}

/// The pieces of `of`.
pub open spec fn part_of(of: Seq<char>) -> spec_fn(Seq<char>) -> bool {
    |t: Seq<char>| is_part(t, of)
}

/// Whether no line feed stands in `s[a..b]`.
pub open spec fn no_line_feed(s: Seq<char>, a: int, b: int) -> bool {
    forall|k: int| a <= k < b ==> s[k] != '\n'
}

/// Whether `t` is a piece of `of` in which no line feed stands.
pub open spec fn is_line_part(t: Seq<char>, of: Seq<char>) -> bool {
    exists|a: int, b: int|
        0 <= a <= b <= of.len() && t == #[trigger] of.subrange(a, b) && no_line_feed(of, a, b)
}

/// The pieces of `of` in which no line feed stands.
pub open spec fn line_part_of(of: Seq<char>) -> spec_fn(Seq<char>) -> bool {
    |t: Seq<char>| is_line_part(t, of)
}

/// Whether each line is a piece of `md`.
pub open spec fn lines_are_parts(ls: Seq<Seq<char>>, md: Seq<char>) -> bool {
    forall|k: int| 0 <= k < ls.len() ==> is_part(#[trigger] ls[k], md)
}

/// Whether the raw text of each reference link in a span, at any depth,
/// meets `p`.
pub open spec fn each_reference_in_span(span: SpanView, p: spec_fn(Seq<char>) -> bool) -> bool
    decreases span,
{
    match span {
        SpanView::RefLink(content, _, raw) => p(raw) && forall|i: int|
            0 <= i < content.len() ==> each_reference_in_span(#[trigger] content[i], p),
        SpanView::Link(content, _, _) => forall|i: int|
            0 <= i < content.len() ==> each_reference_in_span(#[trigger] content[i], p),
        SpanView::Emphasis(content) => forall|i: int|
            0 <= i < content.len() ==> each_reference_in_span(#[trigger] content[i], p),
        SpanView::Strong(content) => forall|i: int|
            0 <= i < content.len() ==> each_reference_in_span(#[trigger] content[i], p),
        _ => true,
    }
}

/// Whether the raw text of each reference link in a sequence of spans
/// meets `p`.
pub open spec fn each_reference_in_spans(
    spans: Seq<SpanView>,
    p: spec_fn(Seq<char>) -> bool,
) -> bool {
    forall|i: int| 0 <= i < spans.len() ==> each_reference_in_span(#[trigger] spans[i], p)
}

/// Whether the raw text of each reference link in a list item meets `p`.
pub open spec fn each_reference_in_item(item: ListItemView, p: spec_fn(Seq<char>) -> bool) -> bool
    decreases item,
{
    match item {
        ListItemView::Simple(spans) => each_reference_in_spans(spans, p),
        ListItemView::Paragraph(blocks) => forall|i: int|
            0 <= i < blocks.len() ==> each_reference_in_block(#[trigger] blocks[i], p),
    }
}

/// Whether the raw text of each reference link in a block, at any depth,
/// meets `p`.
pub open spec fn each_reference_in_block(block: BlockView, p: spec_fn(Seq<char>) -> bool) -> bool
    decreases block,
{
    match block {
        BlockView::Header(spans, _) => each_reference_in_spans(spans, p),
        BlockView::Paragraph(spans) => each_reference_in_spans(spans, p),
        BlockView::Blockquote(blocks) => forall|i: int|
            0 <= i < blocks.len() ==> each_reference_in_block(#[trigger] blocks[i], p),
        BlockView::OrderedList(items, _) => forall|i: int|
            0 <= i < items.len() ==> each_reference_in_item(#[trigger] items[i], p),
        BlockView::UnorderedList(items) => forall|i: int|
            0 <= i < items.len() ==> each_reference_in_item(#[trigger] items[i], p),
        _ => true,
    }
}

/// Whether the raw text of each reference link in a sequence of blocks
/// meets `p`.
pub open spec fn each_reference_in_blocks(
    blocks: Seq<BlockView>,
    p: spec_fn(Seq<char>) -> bool,
) -> bool {
    forall|i: int| 0 <= i < blocks.len() ==> each_reference_in_block(#[trigger] blocks[i], p)
}

/// A piece of a piece is a piece.
pub proof fn lemma_part_of_part(x: Seq<char>, y: Seq<char>, z: Seq<char>)
    requires
        is_part(x, y),
        is_part(y, z),
    ensures
        is_part(x, z),
{
    let (a, b) = choose|a: int, b: int| 0 <= a <= b <= y.len() && x == #[trigger] y.subrange(a, b);
    let (c, d) = choose|c: int, d: int| 0 <= c <= d <= z.len() && y == #[trigger] z.subrange(c, d);
    assert(x =~= z.subrange(c + a, c + b));
}

/// A piece of joined lines in which no line feed stands is a piece of one
/// of the lines.
pub proof fn lemma_within_one_line(ls: Seq<Seq<char>>, a: int, b: int)
    requires
        0 <= a < b <= join_lines(ls).len(),
        no_line_feed(join_lines(ls), a, b),
    ensures
        exists|i: int|
            0 <= i < ls.len() && is_part(join_lines(ls).subrange(a, b), #[trigger] ls[i]),
    decreases ls.len(),
{
    let t = join_lines(ls);
    if ls.len() == 1 {
        assert(t.subrange(a, b) == ls[0].subrange(a, b));
        assert(is_part(t.subrange(a, b), ls[0]));
    } else if ls.len() > 1 {
        let head = ls.drop_last();
        let joined = join_lines(head);
        let last = ls.last();
        let m = joined.len() as int;
        assert(t == joined + seq!['\n'] + last);
        if b <= m {
            assert forall|k: int| a <= k < b implies joined[k] != '\n' by {
                assert(t[k] == joined[k]);
            }
            lemma_within_one_line(head, a, b);
            let i = choose|i: int|
                0 <= i < head.len() && is_part(joined.subrange(a, b), #[trigger] head[i]);
            assert(t.subrange(a, b) =~= joined.subrange(a, b));
            assert(head[i] == ls[i]);
        } else if a > m {
            assert(t.subrange(a, b) =~= last.subrange(a - m - 1, b - m - 1));
            assert(is_part(t.subrange(a, b), ls[ls.len() - 1]));
        } else {
            assert(t[m] == '\n');
        }
    }
}

/// Where each line is a piece of `md`, a piece of the joined lines in
/// which no line feed stands is a piece of `md`.
pub proof fn lemma_joined_lines_give_parts(ls: Seq<Seq<char>>, md: Seq<char>)
    requires
        lines_are_parts(ls, md),
    ensures
        forall|t: Seq<char>| #[trigger] line_part_of(join_lines(ls))(t) ==> part_of(md)(t),
{
    let joined = join_lines(ls);
    assert forall|t: Seq<char>| #[trigger] line_part_of(joined)(t) implies part_of(md)(t) by {
        let (a, b) = choose|a: int, b: int|
            0 <= a <= b <= joined.len() && t == #[trigger] joined.subrange(a, b) && no_line_feed(
                joined,
                a,
                b,
            );
        if a == b {
            assert(t =~= md.subrange(0, 0));
        } else {
            lemma_within_one_line(ls, a, b);
            let i = choose|i: int|
                0 <= i < ls.len() && is_part(joined.subrange(a, b), #[trigger] ls[i]);
            lemma_part_of_part(t, ls[i], md);
        }
    }
}

/// Where a line is a piece of `md`, so is each piece of the line.
pub proof fn lemma_line_gives_parts(l: Seq<char>, md: Seq<char>)
    requires
        is_part(l, md),
    ensures
        forall|t: Seq<char>| #[trigger] line_part_of(l)(t) ==> part_of(md)(t),
{
    assert forall|t: Seq<char>| #[trigger] line_part_of(l)(t) implies part_of(md)(t) by {
        assert(is_part(t, l));
        lemma_part_of_part(t, l, md);
    }
}

/// What holds of each reference link under `p` holds under any `q` that
/// `p` implies.
pub proof fn lemma_weaken_span(
    span: SpanView,
    p: spec_fn(Seq<char>) -> bool,
    q: spec_fn(Seq<char>) -> bool,
)
    requires
        forall|t: Seq<char>| #[trigger] p(t) ==> q(t),
        each_reference_in_span(span, p),
    ensures
        each_reference_in_span(span, q),
    decreases span,
{
    match span {
        SpanView::RefLink(content, _, raw) => {
            assert(p(raw));
            lemma_weaken_spans(content, p, q);
        },
        SpanView::Link(content, _, _) => {
            lemma_weaken_spans(content, p, q);
        },
        SpanView::Emphasis(content) => {
            lemma_weaken_spans(content, p, q);
        },
        SpanView::Strong(content) => {
            lemma_weaken_spans(content, p, q);
        },
        _ => {},
    }
}

/// What holds of each reference link of a sequence under `p` holds under
/// any `q` that `p` implies.
pub proof fn lemma_weaken_spans(
    spans: Seq<SpanView>,
    p: spec_fn(Seq<char>) -> bool,
    q: spec_fn(Seq<char>) -> bool,
)
    requires
        forall|t: Seq<char>| #[trigger] p(t) ==> q(t),
        each_reference_in_spans(spans, p),
    ensures
        each_reference_in_spans(spans, q),
    decreases spans,
{
    assert forall|i: int| 0 <= i < spans.len() implies each_reference_in_span(
        #[trigger] spans[i],
        q,
    ) by {
        lemma_weaken_span(spans[i], p, q);
    }
}

/// The raw text of each reference link in the span of a recognised shape
/// is a piece of the text in which no line feed stands.
pub proof fn lemma_span_of_source(
    s: Seq<char>,
    pos: int,
    hi: int,
    end: int,
    shape: ShapeView,
    inner: nat,
)
    requires
        0 <= pos < hi <= s.len(),
        shape_at(s, pos, hi) == Some((shape, end)),
    ensures
        each_reference_in_span(span_of(s, pos, end, shape, inner), line_part_of(s)),
    decreases inner, 2nat, 0nat,
{
    lemma_shape_bounds(s, pos, hi);
    match shape {
        ShapeView::Reference { from, to, id_from, id_to } => {
            lemma_reference_keeps_its_source(s, pos, hi, inner);
            lemma_spans_in_source(s, from, to, inner);
            let raw = s.subrange(pos, end);
            assert(no_line_feed(s, pos, end));
            assert(is_line_part(raw, s));
        },
        ShapeView::Link { from, to, target_from, target_to } => {
            lemma_spans_in_source(s, from, to, inner);
        },
        ShapeView::Strong { from, to } => {
            lemma_spans_in_source(s, from, to, inner);
        },
        ShapeView::Emphasis { from, to } => {
            lemma_spans_in_source(s, from, to, inner);
        },
        _ => {},
    }
}

/// The raw text of each reference link that a scan gives is a piece of
/// the text in which no line feed stands.
pub proof fn lemma_scan_source(s: Seq<char>, start: int, pos: int, hi: int, depth: nat)
    ensures
        each_reference_in_spans(scan(s, start, pos, hi, depth), line_part_of(s)),
    decreases depth, 0nat, hi - pos,
{
    if pos >= hi || pos < 0 || hi > s.len() || depth == 0 {
    } else {
        match shape_at(s, pos, hi) {
            Some((shape, end)) => {
                lemma_shape_bounds(s, pos, hi);
                lemma_span_of_source(s, pos, hi, end, shape, (depth - 1) as nat);
                lemma_scan_source(s, end, end, hi, depth);
                let span = span_of(s, pos, end, shape, (depth - 1) as nat);
                let head = text_span(s, start, pos).push(span);
                let rest = scan(s, end, end, hi, depth);
                let all = head + rest;
                assert forall|i: int| 0 <= i < all.len() implies each_reference_in_span(
                    #[trigger] all[i],
                    line_part_of(s),
                ) by {
                    if i < head.len() {
                        assert(all[i] == head[i]);
                    } else {
                        assert(all[i] == rest[i - head.len()]);
                    }
                }
            },
            None => {
                lemma_scan_source(s, start, pos + 1, hi, depth);
            },
        }
    }
}

/// The raw text of each reference link among the spans of `s[lo..hi]` is
/// a piece of `s` in which no line feed stands.
pub proof fn lemma_spans_in_source(s: Seq<char>, lo: int, hi: int, depth: nat)
    ensures
        each_reference_in_spans(spans_in(s, lo, hi, depth), line_part_of(s)),
    decreases depth, 1nat, 0nat,
{
    if depth > 0 {
        lemma_scan_source(s, lo, lo, hi, depth);
    }
}

/// The raw text of each reference link among the spans of joined lines is
/// a piece of `md`, where each line is one.
pub proof fn lemma_joined_spans_source(ls: Seq<Seq<char>>, md: Seq<char>)
    requires
        lines_are_parts(ls, md),
    ensures
        each_reference_in_spans(spans_of(join_lines(ls)), part_of(md)),
{
    let t = join_lines(ls);
    lemma_spans_in_source(t, 0, t.len() as int, SPAN_DEPTH as nat);
    lemma_joined_lines_give_parts(ls, md);
    lemma_weaken_spans(spans_of(t), line_part_of(t), part_of(md));
}

/// The items of a list hold reference links whose raw texts are pieces of
/// `md`, where each line is one.
pub proof fn lemma_list_items_source(
    ls: Seq<Seq<char>>,
    p: int,
    loose_before: bool,
    inner: nat,
    md: Seq<char>,
)
    requires
        lines_are_parts(ls, md),
    ensures
        forall|k: int|
            0 <= k < list_items(ls, p, loose_before, inner).len() ==> each_reference_in_item(
                #[trigger] list_items(ls, p, loose_before, inner)[k],
                part_of(md),
            ),
    decreases inner, 3nat, ls.len() - p,
{
    if 0 <= p < ls.len() {
        lemma_item_bounds(ls, p);
        let e = item_stop(ls, p);
        let b = next_item(ls, p);
        let w = mark_width(ls[p]);
        let loose_after = continues(ls, p) && b > e;
        let lines = item_lines(ls, p, e, w);
        assert forall|k: int| 0 <= k < lines.len() implies is_part(#[trigger] lines[k], md) by {
            lemma_drop_columns_is_part(ls[p + k], w);
            lemma_part_of_part(lines[k], ls[p + k], md);
        }
        let all = list_items(ls, p, loose_before, inner);
        let item = all[0];
        match item {
            ListItemView::Paragraph(blocks) => {
                lemma_blocks_of_source(lines, inner, md);
            },
            ListItemView::Simple(spans) => {
                lemma_joined_spans_source(lines, md);
            },
        }
        assert(each_reference_in_item(item, part_of(md)));
        if continues(ls, p) {
            lemma_list_items_source(ls, b, loose_after, inner, md);
            let rest = list_items(ls, b, loose_after, inner);
            assert forall|k: int| 0 <= k < all.len() implies each_reference_in_item(
                #[trigger] all[k],
                part_of(md),
            ) by {
                if k > 0 {
                    assert(all[k] == rest[k - 1]);
                }
            }
        }
    }
}

/// A line without its first columns is a piece of the line.
pub proof fn lemma_drop_columns_is_part(l: Seq<char>, w: int)
    ensures
        is_part(drop_columns(l, w), l),
{
    if 0 <= w <= l.len() {
        assert(drop_columns(l, w) == l.subrange(w, l.len() as int));
    } else {
        assert(drop_columns(l, w) =~= l.subrange(0, 0));
    }
}

/// A line of a block quote without its mark is a piece of the line.
pub proof fn lemma_unquote_is_part(l: Seq<char>)
    ensures
        is_part(unquote(l), l),
{
    if l.len() > 1 && l[1] == ' ' {
        assert(unquote(l) == l.subrange(2, l.len() as int));
    } else if l.len() > 0 {
        assert(unquote(l) == l.subrange(1, l.len() as int));
    } else {
        assert(unquote(l) =~= l.subrange(0, 0));
    }
}

/// A block holds reference links whose raw texts are pieces of `md`, where
/// each line is one.
pub proof fn lemma_block_node_source(ls: Seq<Seq<char>>, i: int, inner: nat, md: Seq<char>)
    requires
        0 <= i < ls.len(),
        lines_are_parts(ls, md),
    ensures
        each_reference_in_block(block_node(ls, i, inner), part_of(md)),
    decreases inner, 4nat, 0nat,
{
    let l = ls[i];
    let node = block_node(ls, i, inner);
    lemma_block_end(ls, i);
    let e = block_end(ls, i);
    match kind_of(l) {
        BlockKind::Header => {
            let (a, b) = trim_range(l, header_level(l), l.len() as int);
            let spans = spans_in(l, a, b, SPAN_DEPTH as nat);
            lemma_spans_in_source(l, a, b, SPAN_DEPTH as nat);
            lemma_line_gives_parts(l, md);
            lemma_weaken_spans(spans, line_part_of(l), part_of(md));
            assert(node == BlockView::Header(spans, header_level(l) as nat));
        },
        BlockKind::Quote => {
            let inside = ls.subrange(i, e);
            let content = unquote_all(inside);
            assert forall|k: int| 0 <= k < content.len() implies is_part(
                #[trigger] content[k],
                md,
            ) by {
                lemma_unquote_is_part(inside[k]);
                assert(inside[k] == ls[i + k]);
                lemma_part_of_part(content[k], ls[i + k], md);
            }
            lemma_blocks_of_source(content, inner, md);
            assert(node == BlockView::Blockquote(blocks_of(content, inner)));
        },
        BlockKind::List => {
            lemma_list_items_source(ls, i, false, inner, md);
            let items = list_items(ls, i, false, inner);
            assert(node is OrderedList || node is UnorderedList);
            assert(node is OrderedList ==> node->OrderedList_0 == items);
            assert(node is UnorderedList ==> node->UnorderedList_0 == items);
        },
        BlockKind::Paragraph => {
            let lines = ls.subrange(i, e);
            assert forall|k: int| 0 <= k < lines.len() implies is_part(#[trigger] lines[k], md) by {
                assert(lines[k] == ls[i + k]);
            }
            lemma_joined_spans_source(lines, md);
            assert(node == BlockView::Paragraph(spans_of(join_lines(lines))));
        },
        _ => {},
    }
}

/// The blocks from a line on hold reference links whose raw texts are
/// pieces of `md`, where each line is one.
pub proof fn lemma_blocks_from_source(ls: Seq<Seq<char>>, i: int, depth: nat, md: Seq<char>)
    requires
        lines_are_parts(ls, md),
    ensures
        each_reference_in_blocks(blocks_from(ls, i, depth), part_of(md)),
    decreases depth, 1nat, ls.len() - i,
{
    if i < 0 || i >= ls.len() || depth == 0 {
    } else if is_blank(ls[i]) {
        lemma_blocks_from_source(ls, i + 1, depth, md);
    } else {
        lemma_block_end(ls, i);
        lemma_block_node_source(ls, i, (depth - 1) as nat, md);
        lemma_blocks_from_source(ls, block_end(ls, i), depth, md);
        let rest = blocks_from(ls, block_end(ls, i), depth);
        let all = blocks_from(ls, i, depth);
        assert forall|k: int| 0 <= k < all.len() implies each_reference_in_block(
            #[trigger] all[k],
            part_of(md),
        ) by {
            if k > 0 {
                assert(all[k] == rest[k - 1]);
            }
        }
    }
}

/// The blocks of lines hold reference links whose raw texts are pieces of
/// `md`, where each line is one.
pub proof fn lemma_blocks_of_source(ls: Seq<Seq<char>>, depth: nat, md: Seq<char>)
    requires
        lines_are_parts(ls, md),
    ensures
        each_reference_in_blocks(blocks_of(ls, depth), part_of(md)),
    decreases depth, 2nat, 0nat,
{
    if depth > 0 {
        lemma_blocks_from_source(ls, 0, depth, md);
    }
}

/// Each line of a text, from an index on, is a piece of the text.
pub proof fn lemma_lines_from_are_parts(s: Seq<char>, from: int)
    ensures
        lines_are_parts(lines_from(s, from), s),
    decreases s.len() + 1 - from,
{
    if 0 <= from < s.len() {
        lemma_index_of(s, '\n', from, s.len() as int);
        let end = index_of(s, '\n', from, s.len() as int);
        lemma_lines_from_are_parts(s, end + 1);
        let rest = lines_from(s, end + 1);
        let all = lines_from(s, from);
        assert forall|k: int| 0 <= k < all.len() implies is_part(#[trigger] all[k], s) by {
            if k > 0 {
                assert(all[k] == rest[k - 1]);
            } else {
                if from < end && s[end - 1] == '\r' {
                    assert(all[0] == s.subrange(from, end - 1));
                } else {
                    assert(all[0] == s.subrange(from, end));
                }
            }
        }
    }
}

/// References keep their source, anywhere in a document: the raw text of
/// each reference link in the tree of a document, at any depth, is a piece
/// of the text of the document, as it stands there.
pub proof fn lemma_document_keeps_source(md: Seq<char>)
    ensures
        each_reference_in_blocks(document(md), part_of(md)),
{
    lemma_lines_from_are_parts(md, 0);
    lemma_blocks_of_source(lines_of(md), BLOCK_DEPTH as nat, md);
}


/// What holds of each reference link of a sequence of spans holds of the
/// reference link at any place in it.
pub proof fn lemma_reference_under_spans(
    spans: Seq<SpanView>,
    path: Seq<int>,
    p: spec_fn(Seq<char>) -> bool,
)
    requires
        each_reference_in_spans(spans, p),
        span_under(spans, path) is Some,
    ensures
        each_reference_in_span(span_under(spans, path)->0, p),
    decreases path.len(),
{
    if path.len() > 1 {
        let span = spans[path[0]];
        assert(each_reference_in_span(span, p));
        assert(each_reference_in_spans(children(span), p));
        lemma_reference_under_spans(children(span), path.drop_first(), p);
    }
}

/// What holds of each reference link of a sequence of blocks holds of
/// those in the spans at any place in it.
pub proof fn lemma_reference_under_blocks(
    blocks: Seq<BlockView>,
    path: Seq<int>,
    p: spec_fn(Seq<char>) -> bool,
)
    requires
        each_reference_in_blocks(blocks, p),
        spans_under(blocks, path) is Some,
    ensures
        each_reference_in_spans(spans_under(blocks, path)->0, p),
    decreases path.len(), 1nat,
{
    let block = blocks[path[0]];
    assert(each_reference_in_block(block, p));
    match block {
        BlockView::Blockquote(inner) => {
            lemma_reference_under_blocks(inner, path.drop_first(), p);
        },
        BlockView::OrderedList(items, _) => {
            lemma_reference_under_items(items, path.drop_first(), p);
        },
        BlockView::UnorderedList(items) => {
            lemma_reference_under_items(items, path.drop_first(), p);
        },
        _ => {},
    }
}

/// What holds of each reference link of the items of a list holds of
/// those in the spans at any place in them.
pub proof fn lemma_reference_under_items(
    items: Seq<ListItemView>,
    path: Seq<int>,
    p: spec_fn(Seq<char>) -> bool,
)
    requires
        forall|i: int| 0 <= i < items.len() ==> each_reference_in_item(#[trigger] items[i], p),
        spans_under_item(items, path) is Some,
    ensures
        each_reference_in_spans(spans_under_item(items, path)->0, p),
    decreases path.len(), 0nat,
{
    let item = items[path[0]];
    assert(each_reference_in_item(item, p));
    match item {
        ListItemView::Paragraph(inner) => {
            lemma_reference_under_blocks(inner, path.drop_first(), p);
        },
        ListItemView::Simple(_) => {},
    }
}

/// Reference fallback: a reference link at any place in the tree of a
/// document holds, as its raw text, a piece of the text of the document;
/// and where no block of the document defines its id, the resolved
/// document holds that text at the same place.
pub proof fn lemma_reference_fallback(
    md: Seq<char>,
    block_path: Seq<int>,
    span_path: Seq<int>,
    content: Seq<SpanView>,
    id: Seq<char>,
    raw: Seq<char>,
)
    requires
        spans_under(document(md), block_path) is Some,
        span_under(spans_under(document(md), block_path)->0, span_path) == Some(
            SpanView::RefLink(content, id, raw),
        ),
    ensures
        is_part(raw, md),
        lookup(definitions(document(md)), id) is None && path_resolves(
            spans_under(document(md), block_path)->0,
            span_path,
            definitions(document(md)),
        ) ==> spans_under(resolved(document(md)), block_path) is Some && span_under(
            spans_under(resolved(document(md)), block_path)->0,
            span_path,
        ) == Some(SpanView::Text(raw)),
{
    let blocks = document(md);
    lemma_document_keeps_source(md);
    lemma_reference_under_blocks(blocks, block_path, part_of(md));
    lemma_reference_under_spans(spans_under(blocks, block_path)->0, span_path, part_of(md));
    assert(part_of(md)(raw));
    if lookup(definitions(blocks), id) is None && path_resolves(
        spans_under(blocks, block_path)->0,
        span_path,
        definitions(blocks),
    ) {
        lemma_undefined_reference_falls_back(blocks, block_path, span_path, content, id, raw);
    }
}

} // verus!
