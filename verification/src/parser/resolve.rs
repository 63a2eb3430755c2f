//! Reference resolution: the definitions of a document, and the tree in
//! which each reference link has become a link or, where its id is not
//! defined, the text that it was written as.

use crate::parser::copy::{copy_opt, copy_size};
use crate::parser::{
    blocks_view, items_view, lemma_block_view, lemma_blocks_view_push, lemma_item_view,
    lemma_items_view_push, lemma_span_view, lemma_spans_view_push, opt_chars, spans_view, Block,
    BlockView, ListItem, ListItemView, Span, SpanView,
};
use vstd::prelude::*;

verus! {

/// One definition of a link reference.
#[derive(Debug, PartialEq, Clone)]
pub struct Reference {
    pub id: String,
    pub url: String,
    pub title: Option<String>,
}

/// The model of a [`Reference`].
pub struct ReferenceView {
    pub id: Seq<char>,
    pub url: Seq<char>,
    pub title: Option<Seq<char>>,
}

impl View for Reference {
    type V = ReferenceView;

    open spec fn view(&self) -> ReferenceView {
        ReferenceView { id: self.id@, url: self.url@, title: opt_chars(self.title) }
    }
}

/// The models of a sequence of references, one for one.
pub open spec fn references_view(v: Seq<Reference>) -> Seq<ReferenceView> {
    Seq::new(v.len(), |i: int| v[i]@)
}

/// The definitions in the blocks from index `i` on, in the order of the
/// document.
pub open spec fn definitions_from(blocks: Seq<BlockView>, i: int) -> Seq<ReferenceView>
    decreases blocks, blocks.len() - i,
{
    if i < 0 || i >= blocks.len() {
        Seq::<ReferenceView>::empty()
    } else {
        definitions_in(blocks[i]) + definitions_from(blocks, i + 1)
    }
}

/// The definitions in the list items from index `i` on.
pub open spec fn definitions_of_items(items: Seq<ListItemView>, i: int) -> Seq<ReferenceView>
    decreases items, items.len() - i,
{
    if i < 0 || i >= items.len() {
        Seq::<ReferenceView>::empty()
    } else {
        (match items[i] {
            ListItemView::Paragraph(blocks) => definitions_from(blocks, 0),
            ListItemView::Simple(_) => Seq::<ReferenceView>::empty(),
        }) + definitions_of_items(items, i + 1)
    }
}

/// The definitions in a block: the block itself, or those in the blocks
/// that it holds.
pub open spec fn definitions_in(block: BlockView) -> Seq<ReferenceView>
    decreases block, 0nat,
{
    match block {
        BlockView::LinkReference(id, url, title) => seq![ReferenceView { id, url, title }],
        BlockView::Blockquote(blocks) => definitions_from(blocks, 0),
        BlockView::OrderedList(items, _) => definitions_of_items(items, 0),
        BlockView::UnorderedList(items) => definitions_of_items(items, 0),
        _ => Seq::<ReferenceView>::empty(),
    }
}

/// The definitions of a document, in its order.
pub open spec fn definitions(blocks: Seq<BlockView>) -> Seq<ReferenceView> {
    definitions_from(blocks, 0)
}

/// The index of the first definition of `id` at or after `from`, or the
/// length of the table.
pub open spec fn definition_index(table: Seq<ReferenceView>, id: Seq<char>, from: int) -> int
    decreases table.len() - from,
{
    if 0 <= from < table.len() && table[from].id != id {
        definition_index(table, id, from + 1)
    } else {
        from
    }
}

/// The first definition of `id` in the table.
pub open spec fn lookup(table: Seq<ReferenceView>, id: Seq<char>) -> Option<ReferenceView> {
    let i = definition_index(table, id, 0);
    if i < table.len() {
        Some(table[i])
    } else {
        None
    }
}

/// The spans from index `i` on, resolved.
pub open spec fn resolved_spans_from(
    spans: Seq<SpanView>,
    i: int,
    table: Seq<ReferenceView>,
) -> Seq<SpanView>
    decreases spans, spans.len() - i,
{
    if i < 0 || i >= spans.len() {
        Seq::<SpanView>::empty()
    } else {
        seq![resolved_span(spans[i], table)] + resolved_spans_from(spans, i + 1, table)
    }
}

/// A span, resolved: a reference link whose id is defined becomes a link
/// to what the first definition of the id gives; one whose id is not
/// defined becomes the text that it was written as.
pub open spec fn resolved_span(span: SpanView, table: Seq<ReferenceView>) -> SpanView
    decreases span, 0nat,
{
    match span {
        SpanView::RefLink(content, id, raw) => match lookup(table, id) {
            Some(reference) => SpanView::Link(
                resolved_spans_from(content, 0, table),
                reference.url,
                reference.title,
            ),
            None => SpanView::Text(raw),
        },
        SpanView::Link(content, url, title) => SpanView::Link(
            resolved_spans_from(content, 0, table),
            url,
            title,
        ),
        SpanView::Emphasis(content) => SpanView::Emphasis(resolved_spans_from(content, 0, table)),
        SpanView::Strong(content) => SpanView::Strong(resolved_spans_from(content, 0, table)),
        _ => span,
    }
}

/// The blocks from index `i` on, resolved.
pub open spec fn resolved_blocks_from(
    blocks: Seq<BlockView>,
    i: int,
    table: Seq<ReferenceView>,
) -> Seq<BlockView>
    decreases blocks, blocks.len() - i,
{
    if i < 0 || i >= blocks.len() {
        Seq::<BlockView>::empty()
    } else {
        seq![resolved_block(blocks[i], table)] + resolved_blocks_from(blocks, i + 1, table)
    }
}

/// The list items from index `i` on, resolved.
pub open spec fn resolved_items_from(
    items: Seq<ListItemView>,
    i: int,
    table: Seq<ReferenceView>,
) -> Seq<ListItemView>
    decreases items, items.len() - i,
{
    if i < 0 || i >= items.len() {
        Seq::<ListItemView>::empty()
    } else {
        seq![
            match items[i] {
                ListItemView::Simple(spans) => ListItemView::Simple(
                    resolved_spans_from(spans, 0, table),
                ),
                ListItemView::Paragraph(blocks) => ListItemView::Paragraph(
                    resolved_blocks_from(blocks, 0, table),
                ),
            },
        ] + resolved_items_from(items, i + 1, table)
    }
}

/// A block, resolved: the spans and blocks that it holds are resolved.
pub open spec fn resolved_block(block: BlockView, table: Seq<ReferenceView>) -> BlockView
    decreases block, 0nat,
{
    match block {
        BlockView::Header(spans, level) => BlockView::Header(
            resolved_spans_from(spans, 0, table),
            level,
        ),
        BlockView::Paragraph(spans) => BlockView::Paragraph(resolved_spans_from(spans, 0, table)),
        BlockView::Blockquote(blocks) => BlockView::Blockquote(
            resolved_blocks_from(blocks, 0, table),
        ),
        BlockView::OrderedList(items, style) => BlockView::OrderedList(
            resolved_items_from(items, 0, table),
            style,
        ),
        BlockView::UnorderedList(items) => BlockView::UnorderedList(
            resolved_items_from(items, 0, table),
        ),
        _ => block,
    }
}

/// A document, resolved against its own definitions.
pub open spec fn resolved(blocks: Seq<BlockView>) -> Seq<BlockView> {
    resolved_blocks_from(blocks, 0, definitions(blocks))
}


/// Adds the definitions in `blocks` to the table, in the order of the
/// document.
pub fn collect_definitions(blocks: &Vec<Block>, table: &mut Vec<Reference>)
    ensures
        references_view(final(table)@) == references_view(old(table)@) + definitions(
            blocks_view(blocks@),
        ),
    decreases blocks,
{
    let ghost start = references_view(table@);
    let ghost bv = blocks_view(blocks@);
    let mut i: usize = 0;
    assert(start + Seq::<ReferenceView>::empty() =~= start);
    while i < blocks.len()
        invariant
            i <= blocks.len(),
            bv == blocks_view(blocks@),
            references_view(table@) + definitions_from(bv, i as int) =~= start + definitions_from(
                bv,
                0,
            ),
        decreases blocks.len() - i,
    {
        collect_in_block(&blocks[i], table);
        i += 1;
    }
}

/// Adds the definitions in the list items to the table.
pub fn collect_in_items(items: &Vec<ListItem>, table: &mut Vec<Reference>)
    ensures
        references_view(final(table)@) == references_view(old(table)@) + definitions_of_items(
            items_view(items@),
            0,
        ),
    decreases items,
{
    let ghost start = references_view(table@);
    let ghost iv = items_view(items@);
    let mut i: usize = 0;
    assert(start + Seq::<ReferenceView>::empty() =~= start);
    while i < items.len()
        invariant
            i <= items.len(),
            iv == items_view(items@),
            references_view(table@) + definitions_of_items(iv, i as int) =~= start
                + definitions_of_items(iv, 0),
        decreases items.len() - i,
    {
        let ghost before = references_view(table@);
        match &items[i] {
            ListItem::Paragraph(blocks) => {
                proof {
                    lemma_item_view(items[i as int]);
                }
                collect_definitions(blocks, table);
            },
            ListItem::Simple(_) => {
                assert(before + Seq::<ReferenceView>::empty() =~= before);
            },
        }
        i += 1;
    }
}

/// Adds the definitions in a block to the table.
pub fn collect_in_block(block: &Block, table: &mut Vec<Reference>)
    ensures
        references_view(final(table)@) == references_view(old(table)@) + definitions_in(block@),
    decreases block,
{
    let ghost start = references_view(table@);
    proof {
        lemma_block_view(*block);
        assert(start + Seq::<ReferenceView>::empty() =~= start);
    }
    match block {
        Block::LinkReference(id, url, title) => {
            let reference = Reference { id: id.clone(), url: url.clone(), title: copy_opt(title) };
            proof {
                assert(references_view(table@.push(reference)) =~= start + seq![reference@]);
            }
            table.push(reference);
        },
        Block::Blockquote(blocks) => {
            collect_definitions(blocks, table);
        },
        Block::OrderedList(items, _) => {
            collect_in_items(items, table);
        },
        Block::UnorderedList(items) => {
            collect_in_items(items, table);
        },
        _ => {},
    }
}

/// The definitions of a document, in its order.
pub fn reference_table(blocks: &Vec<Block>) -> (r: Vec<Reference>)
    ensures
        references_view(r@) == definitions(blocks_view(blocks@)),
{
    let mut table: Vec<Reference> = Vec::new();
    assert(references_view(table@) =~= Seq::<ReferenceView>::empty());
    collect_definitions(blocks, &mut table);
    assert(Seq::<ReferenceView>::empty() + definitions(blocks_view(blocks@)) =~= definitions(
        blocks_view(blocks@),
    ));
    table
}

/// Finds the first definition of `id` in the table.
pub fn find_definition(table: &Vec<Reference>, id: &String) -> (r: Option<usize>)
    ensures
        r matches Some(i) ==> i < table.len() && lookup(references_view(table@), id@) == Some(
            table[i as int]@,
        ),
        r is None ==> lookup(references_view(table@), id@) is None,
{
    let ghost tv = references_view(table@);
    let mut i: usize = 0;
    while i < table.len()
        invariant
            i <= table.len(),
            tv == references_view(table@),
            definition_index(tv, id@, i as int) == definition_index(tv, id@, 0),
        decreases table.len() - i,
    {
        if table[i].id == *id {
            return Some(i);
        }
        i += 1;
    }
    None
}

/// Resolves a sequence of spans against a table of definitions.
pub fn resolve_spans(spans: &Vec<Span>, table: &Vec<Reference>) -> (r: Vec<Span>)
    ensures
        spans_view(r@) == resolved_spans_from(spans_view(spans@), 0, references_view(table@)),
    decreases spans,
{
    let ghost sv = spans_view(spans@);
    let ghost tv = references_view(table@);
    let mut out: Vec<Span> = Vec::new();
    let mut i: usize = 0;
    assert(spans_view(out@) =~= Seq::<SpanView>::empty());
    while i < spans.len()
        invariant
            i <= spans.len(),
            sv == spans_view(spans@),
            tv == references_view(table@),
            spans_view(out@) + resolved_spans_from(sv, i as int, tv) =~= resolved_spans_from(
                sv,
                0,
                tv,
            ),
        decreases spans.len() - i,
    {
        let span = resolve_span(&spans[i], table);
        proof {
            lemma_spans_view_push(out@, span);
        }
        out.push(span);
        i += 1;
    }
    out
}

/// Resolves a span against a table of definitions.
pub fn resolve_span(span: &Span, table: &Vec<Reference>) -> (r: Span)
    ensures
        r@ == resolved_span(span@, references_view(table@)),
    decreases span,
{
    proof {
        lemma_span_view(*span);
    }
    let r = match span {
        Span::Break => Span::Break,
        Span::Text(t) => Span::Text(t.clone()),
        Span::Code(t) => Span::Code(t.clone()),
        Span::Literal(c) => Span::Literal(*c),
        Span::Image(alt, url, title, size) => Span::Image(
            alt.clone(),
            url.clone(),
            copy_opt(title),
            copy_size(size),
        ),
        Span::Link(content, url, title) => Span::Link(
            resolve_spans(content, table),
            url.clone(),
            copy_opt(title),
        ),
        Span::RefLink(content, id, raw) => match find_definition(table, id) {
            Some(i) => Span::Link(
                resolve_spans(content, table),
                table[i].url.clone(),
                copy_opt(&table[i].title),
            ),
            None => Span::Text(raw.clone()),
        },
        Span::Emphasis(content) => Span::Emphasis(resolve_spans(content, table)),
        Span::Strong(content) => Span::Strong(resolve_spans(content, table)),
    };
    proof {
        lemma_span_view(r);
    }
    r
}

/// Resolves a sequence of blocks against a table of definitions.
pub fn resolve_blocks(blocks: &Vec<Block>, table: &Vec<Reference>) -> (r: Vec<Block>)
    ensures
        blocks_view(r@) == resolved_blocks_from(blocks_view(blocks@), 0, references_view(table@)),
    decreases blocks,
{
    let ghost bv = blocks_view(blocks@);
    let ghost tv = references_view(table@);
    let mut out: Vec<Block> = Vec::new();
    let mut i: usize = 0;
    assert(blocks_view(out@) =~= Seq::<BlockView>::empty());
    while i < blocks.len()
        invariant
            i <= blocks.len(),
            bv == blocks_view(blocks@),
            tv == references_view(table@),
            blocks_view(out@) + resolved_blocks_from(bv, i as int, tv) =~= resolved_blocks_from(
                bv,
                0,
                tv,
            ),
        decreases blocks.len() - i,
    {
        let block = resolve_block(&blocks[i], table);
        proof {
            lemma_blocks_view_push(out@, block);
        }
        out.push(block);
        i += 1;
    }
    out
}

/// Resolves a sequence of list items against a table of definitions.
pub fn resolve_items(items: &Vec<ListItem>, table: &Vec<Reference>) -> (r: Vec<ListItem>)
    ensures
        items_view(r@) == resolved_items_from(items_view(items@), 0, references_view(table@)),
    decreases items,
{
    let ghost iv = items_view(items@);
    let ghost tv = references_view(table@);
    let mut out: Vec<ListItem> = Vec::new();
    let mut i: usize = 0;
    assert(items_view(out@) =~= Seq::<ListItemView>::empty());
    while i < items.len()
        invariant
            i <= items.len(),
            iv == items_view(items@),
            tv == references_view(table@),
            items_view(out@) + resolved_items_from(iv, i as int, tv) =~= resolved_items_from(
                iv,
                0,
                tv,
            ),
        decreases items.len() - i,
    {
        proof {
            lemma_item_view(items[i as int]);
        }
        let item = match &items[i] {
            ListItem::Simple(spans) => ListItem::Simple(resolve_spans(spans, table)),
            ListItem::Paragraph(blocks) => ListItem::Paragraph(resolve_blocks(blocks, table)),
        };
        proof {
            lemma_item_view(item);
            lemma_items_view_push(out@, item);
        }
        out.push(item);
        i += 1;
    }
    out
}

/// Resolves a block against a table of definitions.
pub fn resolve_block(block: &Block, table: &Vec<Reference>) -> (r: Block)
    ensures
        r@ == resolved_block(block@, references_view(table@)),
    decreases block,
{
    proof {
        lemma_block_view(*block);
    }
    let r = match block {
        Block::Header(spans, level) => Block::Header(resolve_spans(spans, table), *level),
        Block::Paragraph(spans) => Block::Paragraph(resolve_spans(spans, table)),
        Block::Blockquote(blocks) => Block::Blockquote(resolve_blocks(blocks, table)),
        Block::CodeBlock(language, body) => Block::CodeBlock(copy_opt(language), body.clone()),
        Block::LinkReference(id, url, title) => Block::LinkReference(
            id.clone(),
            url.clone(),
            copy_opt(title),
        ),
        Block::OrderedList(items, style) => Block::OrderedList(
            resolve_items(items, table),
            *style,
        ),
        Block::UnorderedList(items) => Block::UnorderedList(resolve_items(items, table)),
        Block::Raw(t) => Block::Raw(t.clone()),
        Block::Hr => Block::Hr,
    };
    proof {
        lemma_block_view(r);
    }
    r
}

/// Resolves the reference links of a document against the definitions of
/// the same document, wherever in it they stand.
pub fn resolve(blocks: &Vec<Block>) -> (r: Vec<Block>)
    ensures
        blocks_view(r@) == resolved(blocks_view(blocks@)),
{
    let table = reference_table(blocks);
    resolve_blocks(blocks, &table)
}

/// Reference fallback: a reference link whose id the table does not define
/// resolves to the text that it was written as.
pub proof fn lemma_unknown_reference_becomes_its_source(
    content: Seq<SpanView>,
    id: Seq<char>,
    raw: Seq<char>,
    table: Seq<ReferenceView>,
)
    requires
        forall|i: int| 0 <= i < table.len() ==> (#[trigger] table[i]).id != id,
    ensures
        resolved_span(SpanView::RefLink(content, id, raw), table) == SpanView::Text(raw),
{
    lemma_definition_index(table, id, 0);
}

/// A reference link whose id the table defines resolves to a link to the
/// url and title of the first definition of the id.
pub proof fn lemma_known_reference_becomes_a_link(
    content: Seq<SpanView>,
    id: Seq<char>,
    raw: Seq<char>,
    table: Seq<ReferenceView>,
    i: int,
)
    requires
        0 <= i < table.len(),
        table[i].id == id,
        forall|k: int| 0 <= k < i ==> (#[trigger] table[k]).id != id,
    ensures
        resolved_span(SpanView::RefLink(content, id, raw), table) == SpanView::Link(
            resolved_spans_from(content, 0, table),
            table[i].url,
            table[i].title,
        ),
{
    lemma_definition_index(table, id, 0);
}

/// What `definition_index` returns: no definition of `id` stands before
/// it, and one stands at it unless it is the length of the table.
pub proof fn lemma_definition_index(table: Seq<ReferenceView>, id: Seq<char>, from: int)
    requires
        0 <= from <= table.len(),
    ensures
        from <= definition_index(table, id, from) <= table.len(),
        forall|k: int|
            from <= k < definition_index(table, id, from) ==> (#[trigger] table[k]).id != id,
        definition_index(table, id, from) < table.len() ==> table[definition_index(
            table,
            id,
            from,
        )].id == id,
    decreases table.len() - from,
{
    if from < table.len() && table[from].id != id {
        lemma_definition_index(table, id, from + 1);
    }
}


/// Whether no reference link is left in a span.
pub open spec fn span_is_resolved(span: SpanView) -> bool
    decreases span,
{
    match span {
        SpanView::RefLink(_, _, _) => false,
        SpanView::Link(content, _, _) => forall|i: int|
            0 <= i < content.len() ==> span_is_resolved(#[trigger] content[i]),
        SpanView::Emphasis(content) => forall|i: int|
            0 <= i < content.len() ==> span_is_resolved(#[trigger] content[i]),
        SpanView::Strong(content) => forall|i: int|
            0 <= i < content.len() ==> span_is_resolved(#[trigger] content[i]),
        _ => true,
    }
}

/// Whether no reference link is left in a sequence of spans.
pub open spec fn spans_are_resolved(spans: Seq<SpanView>) -> bool {
    forall|i: int| 0 <= i < spans.len() ==> span_is_resolved(#[trigger] spans[i])
}

/// Whether no reference link is left in a list item.
pub open spec fn item_is_resolved(item: ListItemView) -> bool
    decreases item,
{
    match item {
        ListItemView::Simple(spans) => spans_are_resolved(spans),
        ListItemView::Paragraph(blocks) => forall|i: int|
            0 <= i < blocks.len() ==> block_is_resolved(#[trigger] blocks[i]),
    }
}

/// Whether no reference link is left in a block.
pub open spec fn block_is_resolved(block: BlockView) -> bool
    decreases block,
{
    match block {
        BlockView::Header(spans, _) => spans_are_resolved(spans),
        BlockView::Paragraph(spans) => spans_are_resolved(spans),
        BlockView::Blockquote(blocks) => forall|i: int|
            0 <= i < blocks.len() ==> block_is_resolved(#[trigger] blocks[i]),
        BlockView::OrderedList(items, _) => forall|i: int|
            0 <= i < items.len() ==> item_is_resolved(#[trigger] items[i]),
        BlockView::UnorderedList(items) => forall|i: int|
            0 <= i < items.len() ==> item_is_resolved(#[trigger] items[i]),
        _ => true,
    }
}

/// Whether no reference link is left in a sequence of blocks.
pub open spec fn blocks_are_resolved(blocks: Seq<BlockView>) -> bool {
    forall|i: int| 0 <= i < blocks.len() ==> block_is_resolved(#[trigger] blocks[i])
}

/// Resolving a sequence of spans resolves each span, in place.
pub proof fn lemma_resolved_spans(spans: Seq<SpanView>, i: int, table: Seq<ReferenceView>)
    requires
        0 <= i <= spans.len(),
    ensures
        resolved_spans_from(spans, i, table).len() == spans.len() - i,
        forall|k: int|
            0 <= k < spans.len() - i ==> #[trigger] resolved_spans_from(spans, i, table)[k]
                == resolved_span(spans[i + k], table),
    decreases spans.len() - i,
{
    if i < spans.len() {
        lemma_resolved_spans(spans, i + 1, table);
    }
}

/// Resolving a sequence of blocks resolves each block, in place.
pub proof fn lemma_resolved_blocks(blocks: Seq<BlockView>, i: int, table: Seq<ReferenceView>)
    requires
        0 <= i <= blocks.len(),
    ensures
        resolved_blocks_from(blocks, i, table).len() == blocks.len() - i,
        forall|k: int|
            0 <= k < blocks.len() - i ==> #[trigger] resolved_blocks_from(blocks, i, table)[k]
                == resolved_block(blocks[i + k], table),
    decreases blocks.len() - i,
{
    if i < blocks.len() {
        lemma_resolved_blocks(blocks, i + 1, table);
    }
}

/// Resolving a sequence of list items resolves what each item holds, in
/// place.
pub proof fn lemma_resolved_items(items: Seq<ListItemView>, i: int, table: Seq<ReferenceView>)
    requires
        0 <= i <= items.len(),
    ensures
        resolved_items_from(items, i, table).len() == items.len() - i,
        forall|k: int|
            0 <= k < items.len() - i ==> #[trigger] resolved_items_from(items, i, table)[k]
                == resolved_items_from(items, i + k, table)[0],
    decreases items.len() - i,
{
    if i < items.len() {
        lemma_resolved_items(items, i + 1, table);
    }
}

/// Every reference link is replaced: no reference link is left in a
/// resolved span.
pub proof fn lemma_resolved_span_has_no_reference(span: SpanView, table: Seq<ReferenceView>)
    ensures
        span_is_resolved(resolved_span(span, table)),
    decreases span,
{
    match span {
        SpanView::RefLink(content, _, _) => {
            lemma_resolved_spans_have_no_reference(content, table);
        },
        SpanView::Link(content, _, _) => {
            lemma_resolved_spans_have_no_reference(content, table);
        },
        SpanView::Emphasis(content) => {
            lemma_resolved_spans_have_no_reference(content, table);
        },
        SpanView::Strong(content) => {
            lemma_resolved_spans_have_no_reference(content, table);
        },
        _ => {},
    }
}

/// No reference link is left in a resolved sequence of spans.
pub proof fn lemma_resolved_spans_have_no_reference(
    spans: Seq<SpanView>,
    table: Seq<ReferenceView>,
)
    ensures
        spans_are_resolved(resolved_spans_from(spans, 0, table)),
    decreases spans,
{
    lemma_resolved_spans(spans, 0, table);
    let r = resolved_spans_from(spans, 0, table);
    assert forall|k: int| 0 <= k < r.len() implies span_is_resolved(#[trigger] r[k]) by {
        lemma_resolved_span_has_no_reference(spans[k], table);
    }
}

/// No reference link is left in a resolved block.
pub proof fn lemma_resolved_block_has_no_reference(block: BlockView, table: Seq<ReferenceView>)
    ensures
        block_is_resolved(resolved_block(block, table)),
    decreases block,
{
    let r = resolved_block(block, table);
    match block {
        BlockView::Header(spans, _) => {
            lemma_resolved_spans_have_no_reference(spans, table);
        },
        BlockView::Paragraph(spans) => {
            lemma_resolved_spans_have_no_reference(spans, table);
        },
        BlockView::Blockquote(blocks) => {
            lemma_resolved_blocks_have_no_reference(blocks, table);
        },
        BlockView::OrderedList(items, style) => {
            lemma_resolved_items_have_no_reference(items, table);
            assert(r == BlockView::OrderedList(resolved_items_from(items, 0, table), style));
        },
        BlockView::UnorderedList(items) => {
            lemma_resolved_items_have_no_reference(items, table);
            assert(r == BlockView::UnorderedList(resolved_items_from(items, 0, table)));
        },
        _ => {},
    }
}

/// No reference link is left in a resolved sequence of list items.
pub proof fn lemma_resolved_items_have_no_reference(
    items: Seq<ListItemView>,
    table: Seq<ReferenceView>,
)
    ensures
        forall|k: int|
            0 <= k < resolved_items_from(items, 0, table).len() ==> item_is_resolved(
                #[trigger] resolved_items_from(items, 0, table)[k],
            ),
    decreases items,
{
    lemma_resolved_items(items, 0, table);
    let r = resolved_items_from(items, 0, table);
    assert forall|k: int| 0 <= k < r.len() implies item_is_resolved(#[trigger] r[k]) by {
        assert(r[k] == resolved_items_from(items, k, table)[0]);
        match items[k] {
            ListItemView::Simple(spans) => {
                lemma_resolved_spans_have_no_reference(spans, table);
            },
            ListItemView::Paragraph(blocks) => {
                lemma_resolved_blocks_have_no_reference(blocks, table);
            },
        }
    }
}

/// No reference link is left in a resolved sequence of blocks.
pub proof fn lemma_resolved_blocks_have_no_reference(
    blocks: Seq<BlockView>,
    table: Seq<ReferenceView>,
)
    ensures
        blocks_are_resolved(resolved_blocks_from(blocks, 0, table)),
    decreases blocks,
{
    lemma_resolved_blocks(blocks, 0, table);
    let r = resolved_blocks_from(blocks, 0, table);
    assert forall|k: int| 0 <= k < r.len() implies block_is_resolved(#[trigger] r[k]) by {
        lemma_resolved_block_has_no_reference(blocks[k], table);
    }
}

/// Every reference link of a document is replaced when the document is
/// resolved.
pub proof fn lemma_resolved_has_no_reference(blocks: Seq<BlockView>)
    ensures
        blocks_are_resolved(resolved(blocks)),
{
    lemma_resolved_blocks_have_no_reference(blocks, definitions(blocks));
}


/// The spans that a span holds.
pub open spec fn children(span: SpanView) -> Seq<SpanView> {
    match span {
        SpanView::Link(content, _, _) => content,
        SpanView::RefLink(content, _, _) => content,
        SpanView::Emphasis(content) => content,
        SpanView::Strong(content) => content,
        _ => Seq::<SpanView>::empty(),
    }
}

/// The span at a place in a sequence of spans. A place is a path of
/// indices: the first into the sequence, each next one into the spans that
/// the span before holds.
pub open spec fn span_under(spans: Seq<SpanView>, path: Seq<int>) -> Option<SpanView>
    decreases path.len(),
{
    if path.len() == 0 || !(0 <= path[0] < spans.len()) {
        None
    } else if path.len() == 1 {
        Some(spans[path[0]])
    } else {
        span_under(children(spans[path[0]]), path.drop_first())
    }
}

/// The spans of the block at a place in a sequence of blocks. A place is a
/// path of indices: into the sequence, then into the blocks of a block
/// quote, or into the items of a list and from there into the blocks of a
/// loose item. It ends at a header, a paragraph or a simple item.
pub open spec fn spans_under(blocks: Seq<BlockView>, path: Seq<int>) -> Option<Seq<SpanView>>
    decreases path.len(),
{
    if path.len() == 0 || !(0 <= path[0] < blocks.len()) {
        None
    } else {
        match blocks[path[0]] {
            BlockView::Header(spans, _) => if path.len() == 1 {
                Some(spans)
            } else {
                None
            },
            BlockView::Paragraph(spans) => if path.len() == 1 {
                Some(spans)
            } else {
                None
            },
            BlockView::Blockquote(inner) => spans_under(inner, path.drop_first()),
            BlockView::OrderedList(items, _) => spans_under_item(items, path.drop_first()),
            BlockView::UnorderedList(items) => spans_under_item(items, path.drop_first()),
            _ => None,
        }
    }
}

/// The spans at a place in the items of a list: the path begins with the
/// index of the item.
pub open spec fn spans_under_item(items: Seq<ListItemView>, path: Seq<int>) -> Option<
    Seq<SpanView>,
>
    decreases path.len(),
{
    if path.len() == 0 || !(0 <= path[0] < items.len()) {
        None
    } else {
        match items[path[0]] {
            ListItemView::Simple(spans) => if path.len() == 1 {
                Some(spans)
            } else {
                None
            },
            ListItemView::Paragraph(inner) => spans_under(inner, path.drop_first()),
        }
    }
}

/// Whether each reference link that holds the place `path`, above the
/// place itself, has a definition in the table: the place is then still
/// there when the spans are resolved.
pub open spec fn path_resolves(
    spans: Seq<SpanView>,
    path: Seq<int>,
    table: Seq<ReferenceView>,
) -> bool
    decreases path.len(),
{
    if path.len() <= 1 || !(0 <= path[0] < spans.len()) {
        true
    } else {
        &&& spans[path[0]] matches SpanView::RefLink(_, id, _) ==> lookup(table, id) is Some
        &&& path_resolves(children(spans[path[0]]), path.drop_first(), table)
    }
}

/// Resolution works in place: what stands at a place in resolved spans is
/// what stood there before, resolved.
pub proof fn lemma_resolved_span_under(
    spans: Seq<SpanView>,
    path: Seq<int>,
    table: Seq<ReferenceView>,
)
    requires
        span_under(spans, path) is Some,
        path_resolves(spans, path, table),
    ensures
        span_under(resolved_spans_from(spans, 0, table), path) == Some(
            resolved_span(span_under(spans, path)->0, table),
        ),
    decreases path.len(),
{
    let i = path[0];
    lemma_resolved_spans(spans, 0, table);
    let after = resolved_spans_from(spans, 0, table);
    assert(after[i] == resolved_span(spans[0 + i], table));
    if path.len() > 1 {
        let inside = children(spans[i]);
        lemma_resolved_span_under(inside, path.drop_first(), table);
        assert(children(after[i]) == resolved_spans_from(inside, 0, table));
    }
}

/// Resolution works in place: the spans at a place in resolved blocks are
/// the spans that stood there before, resolved.
pub proof fn lemma_resolved_spans_under(
    blocks: Seq<BlockView>,
    path: Seq<int>,
    table: Seq<ReferenceView>,
)
    requires
        spans_under(blocks, path) is Some,
    ensures
        spans_under(resolved_blocks_from(blocks, 0, table), path) == Some(
            resolved_spans_from(spans_under(blocks, path)->0, 0, table),
        ),
    decreases path.len(), 1nat,
{
    let i = path[0];
    lemma_resolved_blocks(blocks, 0, table);
    let after = resolved_blocks_from(blocks, 0, table);
    assert(after[i] == resolved_block(blocks[0 + i], table));
    match blocks[i] {
        BlockView::Blockquote(inner) => {
            lemma_resolved_spans_under(inner, path.drop_first(), table);
        },
        BlockView::OrderedList(items, style) => {
            lemma_resolved_spans_under_item(items, path.drop_first(), table);
            assert(after[i] == BlockView::OrderedList(resolved_items_from(items, 0, table), style));
        },
        BlockView::UnorderedList(items) => {
            lemma_resolved_spans_under_item(items, path.drop_first(), table);
            assert(after[i] == BlockView::UnorderedList(resolved_items_from(items, 0, table)));
        },
        _ => {},
    }
}

/// Resolution works in place in the items of a list.
pub proof fn lemma_resolved_spans_under_item(
    items: Seq<ListItemView>,
    path: Seq<int>,
    table: Seq<ReferenceView>,
)
    requires
        spans_under_item(items, path) is Some,
    ensures
        spans_under_item(resolved_items_from(items, 0, table), path) == Some(
            resolved_spans_from(spans_under_item(items, path)->0, 0, table),
        ),
    decreases path.len(), 0nat,
{
    let i = path[0];
    lemma_resolved_items(items, 0, table);
    let after = resolved_items_from(items, 0, table);
    assert(after[i] == resolved_items_from(items, 0 + i, table)[0]);
    match items[i] {
        ListItemView::Paragraph(inner) => {
            lemma_resolved_spans_under(inner, path.drop_first(), table);
            assert(after[i] == ListItemView::Paragraph(resolved_blocks_from(inner, 0, table)));
        },
        ListItemView::Simple(spans) => {
            assert(after[i] == ListItemView::Simple(resolved_spans_from(spans, 0, table)));
        },
    }
}

/// Reference fallback, anywhere in a document: where a reference link
/// stands at any place of the tree and no block of the tree defines its
/// id, the resolved tree holds, at the same place, the text that the
/// reference link was written as. (A place inside a reference link that is
/// not defined either is gone with that link, whose own text holds it.)
pub proof fn lemma_undefined_reference_falls_back(
    blocks: Seq<BlockView>,
    block_path: Seq<int>,
    span_path: Seq<int>,
    content: Seq<SpanView>,
    id: Seq<char>,
    raw: Seq<char>,
)
    requires
        spans_under(blocks, block_path) is Some,
        span_under(spans_under(blocks, block_path)->0, span_path) == Some(
            SpanView::RefLink(content, id, raw),
        ),
        lookup(definitions(blocks), id) is None,
        path_resolves(spans_under(blocks, block_path)->0, span_path, definitions(blocks)),
    ensures
        spans_under(resolved(blocks), block_path) is Some,
        span_under(spans_under(resolved(blocks), block_path)->0, span_path) == Some(
            SpanView::Text(raw),
        ),
{
    let table = definitions(blocks);
    lemma_resolved_spans_under(blocks, block_path, table);
    lemma_resolved_span_under(spans_under(blocks, block_path)->0, span_path, table);
}

} // verus!
