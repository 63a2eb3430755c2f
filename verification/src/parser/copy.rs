//! Copies of the nodes of the tree.

use crate::parser::{
    blocks_view, items_view, lemma_block_view, lemma_blocks_view_push, lemma_item_view,
    lemma_items_view_push, lemma_span_view, lemma_spans_view_push, opt_chars, opt_size,
    spans_view, Block, ListItem, ObjectSize, Span,
};
use vstd::prelude::*;

verus! {

/// A copy of an optional string.
pub fn copy_opt(s: &Option<String>) -> (r: Option<String>)
    ensures
        opt_chars(r) == opt_chars(*s),
{
    match s {
        Some(t) => Some(t.clone()),
        None => None,
    }
}

/// A copy of an optional size.
pub fn copy_size(s: &Option<ObjectSize>) -> (r: Option<ObjectSize>)
    ensures
        opt_size(r) == opt_size(*s),
{
    match s {
        Some(t) => Some(ObjectSize { width: copy_opt(&t.width), height: copy_opt(&t.height) }),
        None => None,
    }
}

/// A copy of a sequence of spans.
pub fn copy_spans(spans: &Vec<Span>) -> (r: Vec<Span>)
    ensures
        spans_view(r@) == spans_view(spans@),
    decreases spans,
{
    let mut out: Vec<Span> = Vec::new();
    let mut i: usize = 0;
    while i < spans.len()
        invariant
            i <= spans.len(),
            spans_view(out@) =~= spans_view(spans@).subrange(0, i as int),
        decreases spans.len() - i,
    {
        let span = spans[i].clone();
        proof {
            lemma_spans_view_push(out@, span);
        }
        out.push(span);
        i += 1;
    }
    assert(spans_view(spans@).subrange(0, spans.len() as int) =~= spans_view(spans@));
    out
}

impl Clone for Span {
    /// A copy with the same model.
    fn clone(&self) -> (r: Span)
        ensures
            r@ == self@,
        decreases self,
    {
        proof {
            lemma_span_view(*self);
        }
        let r = match self {
            Span::Break => Span::Break,
            Span::Text(t) => Span::Text(t.clone()),
            Span::Code(t) => Span::Code(t.clone()),
            Span::Literal(c) => Span::Literal(*c),
            Span::Link(content, url, title) => Span::Link(
                copy_spans(content),
                url.clone(),
                copy_opt(title),
            ),
            Span::RefLink(content, id, raw) => Span::RefLink(
                copy_spans(content),
                id.clone(),
                raw.clone(),
            ),
            Span::Image(alt, url, title, size) => Span::Image(
                alt.clone(),
                url.clone(),
                copy_opt(title),
                copy_size(size),
            ),
            Span::Emphasis(content) => Span::Emphasis(copy_spans(content)),
            Span::Strong(content) => Span::Strong(copy_spans(content)),
        };
        proof {
            lemma_span_view(r);
        }
        r
    }
}

/// A copy of a sequence of blocks.
pub fn copy_blocks(blocks: &Vec<Block>) -> (r: Vec<Block>)
    ensures
        blocks_view(r@) == blocks_view(blocks@),
    decreases blocks,
{
    let mut out: Vec<Block> = Vec::new();
    let mut i: usize = 0;
    while i < blocks.len()
        invariant
            i <= blocks.len(),
            blocks_view(out@) =~= blocks_view(blocks@).subrange(0, i as int),
        decreases blocks.len() - i,
    {
        let block = blocks[i].clone();
        proof {
            lemma_blocks_view_push(out@, block);
        }
        out.push(block);
        i += 1;
    }
    assert(blocks_view(blocks@).subrange(0, blocks.len() as int) =~= blocks_view(blocks@));
    out
}

/// A copy of a sequence of list items.
pub fn copy_items(items: &Vec<ListItem>) -> (r: Vec<ListItem>)
    ensures
        items_view(r@) == items_view(items@),
    decreases items,
{
    let mut out: Vec<ListItem> = Vec::new();
    let mut i: usize = 0;
    while i < items.len()
        invariant
            i <= items.len(),
            items_view(out@) =~= items_view(items@).subrange(0, i as int),
        decreases items.len() - i,
    {
        let item = items[i].clone();
        proof {
            lemma_items_view_push(out@, item);
        }
        out.push(item);
        i += 1;
    }
    assert(items_view(items@).subrange(0, items.len() as int) =~= items_view(items@));
    out
}

impl Clone for ListItem {
    /// A copy with the same model.
    fn clone(&self) -> (r: ListItem)
        ensures
            r@ == self@,
        decreases self,
    {
        proof {
            lemma_item_view(*self);
        }
        let r = match self {
            ListItem::Simple(spans) => ListItem::Simple(copy_spans(spans)),
            ListItem::Paragraph(blocks) => ListItem::Paragraph(copy_blocks(blocks)),
        };
        proof {
            lemma_item_view(r);
        }
        r
    }
}

impl Clone for Block {
    /// A copy with the same model.
    fn clone(&self) -> (r: Block)
        ensures
            r@ == self@,
        decreases self,
    {
        proof {
            lemma_block_view(*self);
        }
        let r = match self {
            Block::Header(spans, level) => Block::Header(copy_spans(spans), *level),
            Block::Paragraph(spans) => Block::Paragraph(copy_spans(spans)),
            Block::Blockquote(blocks) => Block::Blockquote(copy_blocks(blocks)),
            Block::CodeBlock(language, body) => Block::CodeBlock(copy_opt(language), body.clone()),
            Block::LinkReference(id, url, title) => Block::LinkReference(
                id.clone(),
                url.clone(),
                copy_opt(title),
            ),
            Block::OrderedList(items, style) => Block::OrderedList(copy_items(items), *style),
            Block::UnorderedList(items) => Block::UnorderedList(copy_items(items)),
            Block::Raw(t) => Block::Raw(t.clone()),
            Block::Hr => Block::Hr,
        };
        proof {
            lemma_block_view(r);
        }
        r
    }
}

} // verus!
