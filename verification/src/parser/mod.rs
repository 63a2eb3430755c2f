//! The document tree and the entry point of the parser.

use vstd::prelude::*;

pub mod block;
pub mod copy;
pub mod matcher;
pub mod nesting;
pub mod resolve;
pub mod source;
pub mod span;
pub mod text;

use crate::parser::block::{document, parse_blocks};
use crate::parser::text::{
    chars_of, is_trimmed, lemma_skip_space, lemma_skip_space_back, lemma_trim_is_trimmed,
    lemma_trimmed_fixed, skip_space, string_of, trim, trim_bounds,
};

verus! {

/// The numbering style of an ordered list.
#[allow(missing_docs)]
#[derive(Debug, PartialEq, Eq, Clone, Copy, Structural)]
pub enum OrderedListType {
    Numeric,
    Lowercase,
    Uppercase,
    LowercaseRoman,
    UppercaseRoman,
}

/// The size annotation of an image: a width, a height, or both, as written.
#[allow(missing_docs)]
#[derive(Debug, PartialEq, Clone)]
pub struct ObjectSize {
    pub width: Option<String>,
    pub height: Option<String>,
}

/// An inline node.
#[allow(missing_docs)]
#[derive(Debug, PartialEq)]
pub enum Span {
    Break,
    Text(String),
    Code(String),
    Literal(char),
    /// A link with the fields: (content, url, [title])
    Link(Vec<Span>, String, Option<String>),
    /// A reference-style link with the fields: (content, id, raw).
    /// `raw` is the source text of the whole construct, kept so that the link
    /// can be written back as it stood when its id is never defined.
    RefLink(Vec<Span>, String, String),
    /// An image with the fields: (alt text, url, [title], [size])
    Image(String, String, Option<String>, Option<ObjectSize>),
    Emphasis(Vec<Span>),
    Strong(Vec<Span>),
}

/// One item of a list: inline content only, or blocks of its own.
#[allow(missing_docs)]
#[derive(Debug, PartialEq)]
pub enum ListItem {
    Simple(Vec<Span>),
    Paragraph(Vec<Block>),
}

/// A block-level node.
#[allow(missing_docs)]
#[derive(Debug, PartialEq)]
pub enum Block {
    Header(Vec<Span>, usize),
    Paragraph(Vec<Span>),
    Blockquote(Vec<Block>),
    CodeBlock(Option<String>, String),
    /// A link reference with the fields: (id, url, [title])
    LinkReference(String, String, Option<String>),
    OrderedList(Vec<ListItem>, OrderedListType),
    UnorderedList(Vec<ListItem>),
    Raw(String),
    Hr,
}

/// The model of an [`ObjectSize`].
pub struct ObjectSizeView {
    pub width: Option<Seq<char>>,
    pub height: Option<Seq<char>>,
}

/// The model of a [`Span`].
pub enum SpanView {
    Break,
    Text(Seq<char>),
    Code(Seq<char>),
    Literal(char),
    Link(Seq<SpanView>, Seq<char>, Option<Seq<char>>),
    RefLink(Seq<SpanView>, Seq<char>, Seq<char>),
    Image(Seq<char>, Seq<char>, Option<Seq<char>>, Option<ObjectSizeView>),
    Emphasis(Seq<SpanView>),
    Strong(Seq<SpanView>),
}

/// The model of a [`ListItem`].
pub enum ListItemView {
    Simple(Seq<SpanView>),
    Paragraph(Seq<BlockView>),
}

/// The model of a [`Block`].
pub enum BlockView {
    Header(Seq<SpanView>, nat),
    Paragraph(Seq<SpanView>),
    Blockquote(Seq<BlockView>),
    CodeBlock(Option<Seq<char>>, Seq<char>),
    LinkReference(Seq<char>, Seq<char>, Option<Seq<char>>),
    OrderedList(Seq<ListItemView>, OrderedListType),
    UnorderedList(Seq<ListItemView>),
    Raw(Seq<char>),
    Hr,
}

/// The characters of an optional string.
pub open spec fn opt_chars(s: Option<String>) -> Option<Seq<char>> {
    match s {
        Some(t) => Some(t@),
        None => None,
    }
}

impl View for ObjectSize {
    type V = ObjectSizeView;

    open spec fn view(&self) -> ObjectSizeView {
        ObjectSizeView { width: opt_chars(self.width), height: opt_chars(self.height) }
    }
}

/// The model of an optional size.
pub open spec fn opt_size(s: Option<ObjectSize>) -> Option<ObjectSizeView> {
    match s {
        Some(t) => Some(t@),
        None => None,
    }
}

impl View for Span {
    type V = SpanView;

    open spec fn view(&self) -> SpanView
        decreases self,
    {
        match self {
            Span::Break => SpanView::Break,
            Span::Text(t) => SpanView::Text(t@),
            Span::Code(t) => SpanView::Code(t@),
            Span::Literal(c) => SpanView::Literal(*c),
            Span::Link(c, u, t) => SpanView::Link(
                Seq::new(
                    c.len() as nat,
                    |i: int|
                        if 0 <= i < c.len() {
                            c[i].view()
                        } else {
                            SpanView::Break
                        },
                ),
                u@,
                opt_chars(*t),
            ),
            Span::RefLink(c, id, raw) => SpanView::RefLink(
                Seq::new(
                    c.len() as nat,
                    |i: int|
                        if 0 <= i < c.len() {
                            c[i].view()
                        } else {
                            SpanView::Break
                        },
                ),
                id@,
                raw@,
            ),
            Span::Image(a, u, t, s) => SpanView::Image(a@, u@, opt_chars(*t), opt_size(*s)),
            Span::Emphasis(c) => SpanView::Emphasis(
                Seq::new(
                    c.len() as nat,
                    |i: int|
                        if 0 <= i < c.len() {
                            c[i].view()
                        } else {
                            SpanView::Break
                        },
                ),
            ),
            Span::Strong(c) => SpanView::Strong(
                Seq::new(
                    c.len() as nat,
                    |i: int|
                        if 0 <= i < c.len() {
                            c[i].view()
                        } else {
                            SpanView::Break
                        },
                ),
            ),
        }
    }
}

/// The models of a sequence of spans, one for one.
pub open spec fn spans_view(v: Seq<Span>) -> Seq<SpanView> {
    Seq::new(v.len(), |i: int| v[i]@)
}

impl View for ListItem {
    type V = ListItemView;

    open spec fn view(&self) -> ListItemView
        decreases self,
    {
        match self {
            ListItem::Simple(c) => ListItemView::Simple(spans_view(c@)),
            ListItem::Paragraph(b) => ListItemView::Paragraph(
                Seq::new(
                    b.len() as nat,
                    |i: int|
                        if 0 <= i < b.len() {
                            b[i].view()
                        } else {
                            BlockView::Hr
                        },
                ),
            ),
        }
    }
}

impl View for Block {
    type V = BlockView;

    open spec fn view(&self) -> BlockView
        decreases self,
    {
        match self {
            Block::Header(c, level) => BlockView::Header(spans_view(c@), *level as nat),
            Block::Paragraph(c) => BlockView::Paragraph(spans_view(c@)),
            Block::Blockquote(b) => BlockView::Blockquote(
                Seq::new(
                    b.len() as nat,
                    |i: int|
                        if 0 <= i < b.len() {
                            b[i].view()
                        } else {
                            BlockView::Hr
                        },
                ),
            ),
            Block::CodeBlock(lang, body) => BlockView::CodeBlock(opt_chars(*lang), body@),
            Block::LinkReference(id, url, title) => BlockView::LinkReference(
                id@,
                url@,
                opt_chars(*title),
            ),
            Block::OrderedList(items, style) => BlockView::OrderedList(
                Seq::new(
                    items.len() as nat,
                    |i: int|
                        if 0 <= i < items.len() {
                            items[i].view()
                        } else {
                            ListItemView::Simple(Seq::empty())
                        },
                ),
                *style,
            ),
            Block::UnorderedList(items) => BlockView::UnorderedList(
                Seq::new(
                    items.len() as nat,
                    |i: int|
                        if 0 <= i < items.len() {
                            items[i].view()
                        } else {
                            ListItemView::Simple(Seq::empty())
                        },
                ),
            ),
            Block::Raw(t) => BlockView::Raw(t@),
            Block::Hr => BlockView::Hr,
        }
    }
}

/// The models of a sequence of blocks, one for one.
pub open spec fn blocks_view(v: Seq<Block>) -> Seq<BlockView> {
    Seq::new(v.len(), |i: int| v[i]@)
}

/// The models of a sequence of list items, one for one.
pub open spec fn items_view(v: Seq<ListItem>) -> Seq<ListItemView> {
    Seq::new(v.len(), |i: int| v[i]@)
}

/// The model of a block that holds blocks or list items is made of their
/// models, one for one.
pub proof fn lemma_block_view(block: Block)
    ensures
        block matches Block::Blockquote(b) ==> block@ == BlockView::Blockquote(blocks_view(b@)),
        block matches Block::OrderedList(items, style) ==> block@ == BlockView::OrderedList(
            items_view(items@),
            style,
        ),
        block matches Block::UnorderedList(items) ==> block@ == BlockView::UnorderedList(
            items_view(items@),
        ),
{
    reveal_with_fuel(<Block as View>::view, 2);
    match block {
        Block::Blockquote(b) => {
            assert(block@->Blockquote_0 =~= blocks_view(b@));
        },
        Block::OrderedList(items, style) => {
            assert(block@->OrderedList_0 =~= items_view(items@));
        },
        Block::UnorderedList(items) => {
            assert(block@->UnorderedList_0 =~= items_view(items@));
        },
        _ => {},
    }
}

/// The model of a list item that holds blocks is made of their models, one
/// for one.
pub proof fn lemma_item_view(item: ListItem)
    ensures
        item matches ListItem::Paragraph(b) ==> item@ == ListItemView::Paragraph(blocks_view(b@)),
{
    reveal_with_fuel(<ListItem as View>::view, 2);
    match item {
        ListItem::Paragraph(b) => {
            assert(item@->Paragraph_0 =~= blocks_view(b@));
        },
        _ => {},
    }
}

/// The models of a sequence with one more block at its end.
pub proof fn lemma_blocks_view_push(v: Seq<Block>, x: Block)
    ensures
        blocks_view(v.push(x)) == blocks_view(v).push(x@),
{
    assert(blocks_view(v.push(x)) =~= blocks_view(v).push(x@));
}

/// The models of a sequence with one more list item at its end.
pub proof fn lemma_items_view_push(v: Seq<ListItem>, x: ListItem)
    ensures
        items_view(v.push(x)) == items_view(v).push(x@),
{
    assert(items_view(v.push(x)) =~= items_view(v).push(x@));
}

impl OrderedListType {
    /// The character that stands for this style in a list marker.
    pub open spec fn marker(self) -> Seq<char> {
        match self {
            OrderedListType::Lowercase => seq!['a'],
            OrderedListType::Uppercase => seq!['A'],
            OrderedListType::LowercaseRoman => seq!['i'],
            OrderedListType::UppercaseRoman => seq!['I'],
            OrderedListType::Numeric => seq!['1'],
        }
    }

    /// The style that a marker text stands for: `Numeric` unless the text
    /// is one of the four letters.
    pub open spec fn of_marker(s: Seq<char>) -> OrderedListType {
        if s.len() != 1 {
            OrderedListType::Numeric
        } else if s[0] == 'a' {
            OrderedListType::Lowercase
        } else if s[0] == 'A' {
            OrderedListType::Uppercase
        } else if s[0] == 'i' {
            OrderedListType::LowercaseRoman
        } else if s[0] == 'I' {
            OrderedListType::UppercaseRoman
        } else {
            OrderedListType::Numeric
        }
    }

    /// The style that the marker of a list's first item stands for.
    pub fn from_str(type_str: &str) -> (r: OrderedListType)
        ensures
            r == Self::of_marker(type_str@),
    {
        let chars = chars_of(type_str);
        if chars.len() != 1 {
            return OrderedListType::Numeric;
        }
        let c: char = chars[0];
        if c == 'a' {
            OrderedListType::Lowercase
        } else if c == 'A' {
            OrderedListType::Uppercase
        } else if c == 'i' {
            OrderedListType::LowercaseRoman
        } else if c == 'I' {
            OrderedListType::UppercaseRoman
        } else {
            OrderedListType::Numeric
        }
    }

    /// The marker character of this style, as a string.
    pub fn to_str(&self) -> (r: &'static str)
        ensures
            r@ == self.marker(),
    {
        proof {
            reveal_strlit("a");
            reveal_strlit("A");
            reveal_strlit("i");
            reveal_strlit("I");
            reveal_strlit("1");
        }
        let r = match self {
            OrderedListType::Lowercase => "a",
            OrderedListType::Uppercase => "A",
            OrderedListType::LowercaseRoman => "i",
            OrderedListType::UppercaseRoman => "I",
            OrderedListType::Numeric => "1",
        };
        assert(r@ =~= self.marker());
        r
    }
}

/// Reading a style's own marker gives the style back.
pub proof fn lemma_list_type_round_trip(t: OrderedListType)
    ensures
        OrderedListType::of_marker(t.marker()) == t,
{
}

/// Whether `c` parts the width from the height in a size annotation.
pub open spec fn is_size_separator(c: char) -> bool {
    c == 'x' || c == 'X'
}

/// The index of the first separator at or after `from`, or the length of
/// `s`.
pub open spec fn separator_index(s: Seq<char>, from: int) -> int
    decreases s.len() - from,
{
    if 0 <= from < s.len() && !is_size_separator(s[from]) {
        separator_index(s, from + 1)
    } else {
        from
    }
}

/// Whether no separator stands in `s`.
pub open spec fn has_no_separator(s: Seq<char>) -> bool {
    forall|i: int| 0 <= i < s.len() ==> !is_size_separator(#[trigger] s[i])
}

/// A text as a field of a size: absent when empty.
pub open spec fn size_field(s: Seq<char>) -> Option<Seq<char>> {
    if s.len() > 0 {
        Some(s)
    } else {
        None
    }
}

/// The size that a text spells: the trimmed texts on the two sides of the
/// first separator, or the whole trimmed text as the width where there is
/// no separator; no size where both would be empty.
pub open spec fn size_of_text(text: Seq<char>) -> Option<ObjectSizeView> {
    let i = separator_index(text, 0);
    if i < text.len() {
        let w = trim(text.subrange(0, i));
        let h = trim(text.subrange(i + 1, text.len() as int));
        if w.len() > 0 || h.len() > 0 {
            Some(ObjectSizeView { width: size_field(w), height: size_field(h) })
        } else {
            None
        }
    } else {
        let w = trim(text);
        if w.len() > 0 {
            Some(ObjectSizeView { width: Some(w), height: None })
        } else {
            None
        }
    }
}

impl ObjectSizeView {
    /// The size as text: the width, `x`, the height; empty without both.
    pub open spec fn as_text(self) -> Seq<char> {
        match (self.width, self.height) {
            (Some(w), Some(h)) => w + seq!['x'] + h,
            (Some(w), None) => w + seq!['x'],
            (None, Some(h)) => seq!['x'] + h,
            (None, None) => Seq::<char>::empty(),
        }
    }

    /// The size as HTML attributes, with a blank between the two.
    pub open spec fn as_html(self) -> Seq<char> {
        match (self.width, self.height) {
            (Some(w), Some(h)) => "width=\""@ + w + "\" height=\""@ + h + "\""@,
            (Some(w), None) => "width=\""@ + w + "\""@,
            (None, Some(h)) => "height=\""@ + h + "\""@,
            (None, None) => Seq::<char>::empty(),
        }
    }

    /// Whether the size is one that reading a text can give: a field is
    /// present, each field is trimmed and not empty, and the width holds no
    /// separator.
    pub open spec fn is_normal(self) -> bool {
        &&& self.width is Some || self.height is Some
        &&& self.width matches Some(w) ==> is_trimmed(w) && has_no_separator(w)
        &&& self.height matches Some(h) ==> is_trimmed(h)
    }
}

impl ObjectSize {
    /// The size as text: `"{width}x{height}"`, with an absent field left
    /// out, and the empty text where both are absent.
    pub fn as_text(&self) -> (r: String)
        ensures
            r@ == self@.as_text(),
    {
        let mut r = String::new();
        if self.width.is_none() && self.height.is_none() {
            return r;
        }
        match &self.width {
            Some(w) => {
                r.append(w.as_str());
            },
            None => {},
        }
        r.append("x");
        match &self.height {
            Some(h) => {
                r.append(h.as_str());
            },
            None => {},
        }
        proof {
            reveal_strlit("x");
            assert("x"@ =~= seq!['x']);
            assert(r@ =~= self@.as_text());
        }
        r
    }

    /// The size as HTML attributes: `width="…" height="…"`, with an absent
    /// field left out.
    pub fn as_html(&self) -> (r: String)
        ensures
            r@ == self@.as_html(),
    {
        let mut r = String::new();
        match &self.width {
            Some(w) => {
                r.append("width=\"");
                r.append(w.as_str());
                match &self.height {
                    Some(h) => {
                        r.append("\" height=\"");
                        r.append(h.as_str());
                    },
                    None => {},
                }
                r.append("\"");
            },
            None => {
                match &self.height {
                    Some(h) => {
                        r.append("height=\"");
                        r.append(h.as_str());
                        r.append("\"");
                    },
                    None => {},
                }
            },
        }
        assert(r@ =~= self@.as_html());
        r
    }

    /// Reads a size annotation. No size comes back where both fields would
    /// be empty.
    pub fn from_text(text: &str) -> (r: Option<ObjectSize>)
        ensures
            opt_size(r) == size_of_text(text@),
    {
        let chars = chars_of(text);
        let n = chars.len();
        let mut i: usize = 0;
        while i < n && chars[i] != 'x' && chars[i] != 'X'
            invariant
                i <= n == chars.len(),
                separator_index(chars@, i as int) == separator_index(chars@, 0),
            decreases n - i,
        {
            i += 1;
        }
        if i < n {
            let (wa, wb) = trim_bounds(&chars, 0, i);
            let (ha, hb) = trim_bounds(&chars, i + 1, n);
            if wa < wb || ha < hb {
                let width = if wa < wb {
                    Some(string_of(&chars, wa, wb))
                } else {
                    None
                };
                let height = if ha < hb {
                    Some(string_of(&chars, ha, hb))
                } else {
                    None
                };
                Some(ObjectSize { width, height })
            } else {
                None
            }
        } else {
            let (wa, wb) = trim_bounds(&chars, 0, n);
            assert(chars@.subrange(0, n as int) =~= chars@);
            if wa < wb {
                Some(ObjectSize { width: Some(string_of(&chars, wa, wb)), height: None })
            } else {
                None
            }
        }
    }
}

/// What `separator_index` returns: no separator stands before it, and one
/// stands at it unless it is the length of `s`.
pub proof fn lemma_separator_index(s: Seq<char>, from: int)
    requires
        0 <= from <= s.len(),
    ensures
        from <= separator_index(s, from) <= s.len(),
        forall|k: int| from <= k < separator_index(s, from) ==> !is_size_separator(#[trigger] s[k]),
        separator_index(s, from) < s.len() ==> is_size_separator(s[separator_index(s, from)]),
    decreases s.len() - from,
{
    if from < s.len() && !is_size_separator(s[from]) {
        lemma_separator_index(s, from + 1);
    }
}

/// The first separator is at `i` where none stands before `i` and one
/// stands at `i`, or `i` is the length of `s`.
pub proof fn lemma_separator_index_is(s: Seq<char>, from: int, i: int)
    requires
        0 <= from <= i <= s.len(),
        forall|k: int| from <= k < i ==> !is_size_separator(#[trigger] s[k]),
        i < s.len() ==> is_size_separator(s[i]),
    ensures
        separator_index(s, from) == i,
    decreases i - from,
{
    if from < i {
        lemma_separator_index_is(s, from + 1, i);
    }
}

/// A size that was read from a text is normal.
pub proof fn lemma_size_of_text_is_normal(text: Seq<char>)
    ensures
        size_of_text(text) matches Some(v) ==> v.is_normal(),
{
    let n = text.len() as int;
    let i = separator_index(text, 0);
    lemma_separator_index(text, 0);
    if i < n {
        let left = text.subrange(0, i);
        lemma_trim_is_trimmed(left);
        lemma_trim_is_trimmed(text.subrange(i + 1, n));
        lemma_trim_keeps_no_separator(left);
    } else {
        lemma_trim_is_trimmed(text);
        lemma_trim_keeps_no_separator(text);
    }
}

/// Trimming a text without a separator gives one without a separator.
pub proof fn lemma_trim_keeps_no_separator(s: Seq<char>)
    requires
        has_no_separator(s),
    ensures
        has_no_separator(trim(s)),
{
    let n = s.len() as int;
    lemma_skip_space(s, 0, n);
    let a = skip_space(s, 0, n);
    lemma_skip_space_back(s, a, n);
    let t = trim(s);
    assert forall|i: int| 0 <= i < t.len() implies !is_size_separator(#[trigger] t[i]) by {
        assert(t[i] == s[a + i]);
    }
}

/// A field of a size as it is written: nothing for an absent field.
pub open spec fn field_text(field: Option<Seq<char>>) -> Seq<char> {
    match field {
        Some(s) => s,
        None => Seq::<char>::empty(),
    }
}

/// A size as text with `sep` between its fields.
pub open spec fn size_text(v: ObjectSizeView, sep: char) -> Seq<char> {
    field_text(v.width) + seq![sep] + field_text(v.height)
}

/// Reading back: a normal size, written with either separator between its
/// fields, reads as that size.
pub proof fn lemma_size_read_back(v: ObjectSizeView, sep: char)
    requires
        v.is_normal(),
        is_size_separator(sep),
    ensures
        size_of_text(size_text(v, sep)) == Some(v),
{
    let t = size_text(v, sep);
    let n = t.len() as int;
    let w = field_text(v.width);
    let h = field_text(v.height);
    let i = w.len() as int;
    assert(t[i] == sep);
    assert forall|k: int| 0 <= k < i implies !is_size_separator(#[trigger] t[k]) by {
        assert(t[k] == w[k]);
    }
    lemma_separator_index_is(t, 0, i);
    assert(t.subrange(0, i) =~= w);
    assert(t.subrange(i + 1, n) =~= h);
    lemma_trimmed_fixed(w);
    lemma_trimmed_fixed(h);
}

/// Size round trip: the text of a normal size reads as that size, and so
/// is written again as the same text. With `lemma_size_of_text_is_normal`:
/// whatever text a size was read from, its own text reads as the same
/// size.
pub proof fn lemma_size_round_trip(v: ObjectSizeView)
    requires
        v.is_normal(),
    ensures
        size_of_text(v.as_text()) == Some(v),
        size_of_text(v.as_text()) matches Some(again) && again.as_text() == v.as_text(),
{
    assert(v.as_text() =~= size_text(v, 'x'));
    lemma_size_read_back(v, 'x');
}

/// A trimmed text without a separator reads as a width alone, which is
/// written back with the separator after it.
pub proof fn lemma_size_of_bare_width(w: Seq<char>)
    requires
        is_trimmed(w),
        has_no_separator(w),
    ensures
        size_of_text(w) == Some(ObjectSizeView { width: Some(w), height: None }),
        size_of_text(w)->0.as_text() == w + seq!['x'],
{
    lemma_separator_index_is(w, 0, w.len() as int);
    lemma_trimmed_fixed(w);
}

/// Neither the empty text nor a separator alone spells a size.
pub proof fn lemma_size_of_nothing()
    ensures
        size_of_text(Seq::<char>::empty()) is None,
        size_of_text(seq!['x']) is None,
        size_of_text(seq!['X']) is None,
{
    let e = Seq::<char>::empty();
    lemma_trimmed_fixed(e);
    let x = seq!['x'];
    assert(x[0] == 'x');
    lemma_separator_index_is(x, 0, 0);
    assert(x.subrange(0, 0) =~= e);
    assert(x.subrange(1, 1) =~= e);
    let y = seq!['X'];
    assert(y[0] == 'X');
    lemma_separator_index_is(y, 0, 0);
    assert(y.subrange(0, 0) =~= e);
    assert(y.subrange(1, 1) =~= e);
}


/// The model of a span that holds spans is made of the models of those
/// spans, one for one.
pub proof fn lemma_span_view(span: Span)
    ensures
        span matches Span::Link(c, u, t) ==> span@ == SpanView::Link(
            spans_view(c@),
            u@,
            opt_chars(t),
        ),
        span matches Span::RefLink(c, id, raw) ==> span@ == SpanView::RefLink(
            spans_view(c@),
            id@,
            raw@,
        ),
        span matches Span::Emphasis(c) ==> span@ == SpanView::Emphasis(spans_view(c@)),
        span matches Span::Strong(c) ==> span@ == SpanView::Strong(spans_view(c@)),
{
    reveal_with_fuel(<Span as View>::view, 2);
    match span {
        Span::Link(c, u, t) => {
            assert(span@->Link_0 =~= spans_view(c@));
        },
        Span::RefLink(c, id, raw) => {
            assert(span@->RefLink_0 =~= spans_view(c@));
        },
        Span::Emphasis(c) => {
            assert(span@->Emphasis_0 =~= spans_view(c@));
        },
        Span::Strong(c) => {
            assert(span@->Strong_0 =~= spans_view(c@));
        },
        _ => {},
    }
}

/// The models of a sequence with one more span at its end.
pub proof fn lemma_spans_view_push(v: Seq<Span>, x: Span)
    ensures
        spans_view(v.push(x)) == spans_view(v).push(x@),
{
    assert(spans_view(v.push(x)) =~= spans_view(v).push(x@));
}


/// Parses a Markdown document into its blocks. Every text has a tree;
/// reference links stay as they are written until they are resolved.
pub fn parse(md: &str) -> (r: Vec<Block>)
    ensures
        blocks_view(r@) == document(md@),
{
    parse_blocks(md)
}


/// Determinism: the tree is a function of the text. Two results of `parse`
/// for one text have the same model.
pub proof fn lemma_parse_is_deterministic(text: Seq<char>, first: Vec<Block>, second: Vec<Block>)
    requires
        blocks_view(first@) == document(text),
        blocks_view(second@) == document(text),
    ensures
        blocks_view(first@) == blocks_view(second@),
{
}

} // verus!
