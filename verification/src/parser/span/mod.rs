//! The inline parser: the text of one block to a sequence of spans.
//!
//! The text is scanned from left to right. At each position the constructs
//! are tried in a fixed order, each anchored at that position; where none is
//! recognised the character joins the pending text.

use crate::parser::span::image::{image_match, lemma_image_match_at_start, parse_image};
use crate::parser::text::{
    byte_range, chars_of, find_char, find_run_end, index_of, is_space, is_whitespace,
    lemma_index_of, lemma_run_end, run_end, skip_space_back, skip_whitespace_back, slice_bytes,
    string_of, trim_bounds, trim_range,
};
use crate::parser::{lemma_span_view, lemma_spans_view_push, opt_chars, spans_view, Span, SpanView};
use vstd::prelude::*;
use vstd::string::StrSliceExecFns;

pub mod image;

verus! {

/// How deep constructs are recognised inside constructs. The content of a
/// construct at this depth stays plain text.
pub const SPAN_DEPTH: usize = 16;

/// A construct that was recognised at a position, with the ranges of its
/// parts in the text.
#[derive(Debug)]
pub enum Shape {
    /// An escaped character.
    Literal(char),
    /// A code span and the range of its content.
    Code { from: usize, to: usize },
    /// An image, complete.
    Image(Span),
    /// A reference link: the ranges of its content and of its id.
    Reference { from: usize, to: usize, id_from: usize, id_to: usize },
    /// A link: the range of its content and of what stands in the brackets
    /// after it.
    Link { from: usize, to: usize, target_from: usize, target_to: usize },
    /// Strong emphasis and the range of its content.
    Strong { from: usize, to: usize },
    /// Emphasis and the range of its content.
    Emphasis { from: usize, to: usize },
    /// A hard line break.
    Break,
}

/// The model of a [`Shape`].
pub enum ShapeView {
    Literal(char),
    Code { from: int, to: int },
    Image(SpanView),
    Reference { from: int, to: int, id_from: int, id_to: int },
    Link { from: int, to: int, target_from: int, target_to: int },
    Strong { from: int, to: int },
    Emphasis { from: int, to: int },
    Break,
}

impl View for Shape {
    type V = ShapeView;

    open spec fn view(&self) -> ShapeView {
        match self {
            Shape::Literal(c) => ShapeView::Literal(*c),
            Shape::Code { from, to } => ShapeView::Code { from: *from as int, to: *to as int },
            Shape::Image(span) => ShapeView::Image(span@),
            Shape::Reference { from, to, id_from, id_to } => ShapeView::Reference {
                from: *from as int,
                to: *to as int,
                id_from: *id_from as int,
                id_to: *id_to as int,
            },
            Shape::Link { from, to, target_from, target_to } => ShapeView::Link {
                from: *from as int,
                to: *to as int,
                target_from: *target_from as int,
                target_to: *target_to as int,
            },
            Shape::Strong { from, to } => ShapeView::Strong { from: *from as int, to: *to as int },
            Shape::Emphasis { from, to } => ShapeView::Emphasis {
                from: *from as int,
                to: *to as int,
            },
            Shape::Break => ShapeView::Break,
        }
    }
}

/// The model of a recognised shape and of the index at which it ends.
pub open spec fn found_view(r: Option<(Shape, usize)>) -> Option<(ShapeView, int)> {
    match r {
        Some((shape, end)) => Some((shape@, end as int)),
        None => None,
    }
}

/// Whether `c` is a punctuation character of ASCII.
pub open spec fn is_punctuation(c: char) -> bool {
    let n = c as u32;
    33 <= n <= 47 || 58 <= n <= 64 || 91 <= n <= 96 || 123 <= n <= 126
}

/// Whether `c` opens and closes emphasis.
pub open spec fn is_emphasis_mark(c: char) -> bool {
    c == '*' || c == '_'
}

/// An escape at `pos`: a backslash and a punctuation character.
pub open spec fn escape_at(s: Seq<char>, pos: int, hi: int) -> Option<(ShapeView, int)> {
    if pos + 1 < hi && s[pos] == '\\' && is_punctuation(s[pos + 1]) {
        Some((ShapeView::Literal(s[pos + 1]), pos + 2))
    } else {
        None
    }
}

/// Whether a run of exactly `n` backticks begins at `j`.
pub open spec fn closes_code(s: Seq<char>, j: int, hi: int, n: int) -> bool {
    0 < j < hi && s[j] == '`' && s[j - 1] != '`' && run_end(s, '`', j, hi) == j + n
}

/// The first index at or after `from` at which a run of exactly `n`
/// backticks begins, or `hi`.
pub open spec fn code_close(s: Seq<char>, from: int, hi: int, n: int) -> int
    decreases hi - from,
{
    if from < hi && !closes_code(s, from, hi, n) {
        code_close(s, from + 1, hi, n)
    } else {
        from
    }
}

/// A code span at `pos`: a run of backticks, and the text up to the next
/// run of as many backticks.
pub open spec fn code_at(s: Seq<char>, pos: int, hi: int) -> Option<(ShapeView, int)> {
    if pos < hi && s[pos] == '`' {
        let open_end = run_end(s, '`', pos, hi);
        let close = code_close(s, open_end, hi, open_end - pos);
        if close < hi {
            Some((ShapeView::Code { from: open_end, to: close }, close + (open_end - pos)))
        } else {
            None
        }
    } else {
        None
    }
}

/// An image at `pos`: what the image pattern finds at the start of the rest
/// of the text, with its length counted in characters.
pub open spec fn image_at(s: Seq<char>, pos: int, hi: int) -> Option<(ShapeView, int)> {
    if pos + 1 < hi && s[pos] == '!' && s[pos + 1] == '[' {
        let rest = s.subrange(pos, hi);
        match image_match(rest) {
            Some((image, bytes)) => {
                let n = byte_range(rest, 0, bytes as int).len();
                if 0 < n <= hi - pos {
                    Some((ShapeView::Image(image), pos + n))
                } else {
                    None
                }
            },
            None => None,
        }
    } else {
        None
    }
}

/// The index of the `]` that closes a bracket whose content begins at
/// `from`, with `open` more brackets open inside it; `hi` where none does.
pub open spec fn bracket_close(s: Seq<char>, from: int, hi: int, open: nat) -> int
    decreases hi - from,
{
    if from >= hi || from < 0 || from >= s.len() {
        hi
    } else if s[from] == ']' {
        if open == 0 {
            from
        } else {
            bracket_close(s, from + 1, hi, (open - 1) as nat)
        }
    } else if s[from] == '[' {
        bracket_close(s, from + 1, hi, open + 1)
    } else {
        bracket_close(s, from + 1, hi, open)
    }
}

/// The end of the line in which `pos` stands: the index of the next line
/// feed, or `hi`.
pub open spec fn line_end(s: Seq<char>, pos: int, hi: int) -> int {
    index_of(s, '\n', pos, hi)
}

/// A reference link at `pos`, in the text up to `hi`: `[content][id]`, or
/// `[content]` alone, whose id is the content, unless a `[` or a `(`
/// follows it.
pub open spec fn reference_in(s: Seq<char>, pos: int, hi: int) -> Option<(ShapeView, int)> {
    if pos < hi && s[pos] == '[' {
        let close = bracket_close(s, pos + 1, hi, 0);
        if close >= hi {
            None
        } else if close + 1 < hi && s[close + 1] == '[' {
            let id_end = index_of(s, ']', close + 2, hi);
            if id_end < hi {
                Some(
                    (
                        ShapeView::Reference {
                            from: pos + 1,
                            to: close,
                            id_from: close + 2,
                            id_to: id_end,
                        },
                        id_end + 1,
                    ),
                )
            } else {
                None
            }
        } else if close + 1 < hi && s[close + 1] == '(' {
            None
        } else {
            Some(
                (
                    ShapeView::Reference {
                        from: pos + 1,
                        to: close,
                        id_from: pos + 1,
                        id_to: close,
                    },
                    close + 1,
                ),
            )
        }
    } else {
        None
    }
}

/// A reference link at `pos`. It lies in one line: what it is written as
/// holds no line feed.
pub open spec fn reference_at(s: Seq<char>, pos: int, hi: int) -> Option<(ShapeView, int)> {
    reference_in(s, pos, line_end(s, pos, hi))
}

/// A link at `pos`, in the text up to `hi`: `[content](target)`, the
/// target ending at the first `)`.
pub open spec fn link_in(s: Seq<char>, pos: int, hi: int) -> Option<(ShapeView, int)> {
    if pos < hi && s[pos] == '[' {
        let close = bracket_close(s, pos + 1, hi, 0);
        if close + 1 < hi && s[close + 1] == '(' {
            let end = index_of(s, ')', close + 2, hi);
            if end < hi {
                Some(
                    (
                        ShapeView::Link {
                            from: pos + 1,
                            to: close,
                            target_from: close + 2,
                            target_to: end,
                        },
                        end + 1,
                    ),
                )
            } else {
                None
            }
        } else {
            None
        }
    } else {
        None
    }
}

/// A link at `pos`. It lies in one line: what it is written as holds no
/// line feed.
pub open spec fn link_at(s: Seq<char>, pos: int, hi: int) -> Option<(ShapeView, int)> {
    link_in(s, pos, line_end(s, pos, hi))
}

/// The first index in `from..hi - 1` at which `c` stands twice in a row, or
/// `hi`.
pub open spec fn pair_index(s: Seq<char>, c: char, from: int, hi: int) -> int
    decreases hi - from,
{
    if from + 1 >= hi || from < 0 || from + 1 >= s.len() {
        hi
    } else if s[from] == c && s[from + 1] == c {
        from
    } else {
        pair_index(s, c, from + 1, hi)
    }
}

/// Strong emphasis at `pos`: a doubled mark, a content that is not empty,
/// and the same doubled mark.
pub open spec fn strong_at(s: Seq<char>, pos: int, hi: int) -> Option<(ShapeView, int)> {
    if pos + 1 < hi && is_emphasis_mark(s[pos]) && s[pos + 1] == s[pos] {
        let close = pair_index(s, s[pos], pos + 3, hi);
        if close < hi {
            Some((ShapeView::Strong { from: pos + 2, to: close }, close + 2))
        } else {
            None
        }
    } else {
        None
    }
}

/// Emphasis at `pos`: a mark, a content that is not empty, and the same
/// mark.
pub open spec fn emphasis_at(s: Seq<char>, pos: int, hi: int) -> Option<(ShapeView, int)> {
    if pos + 2 < hi && is_emphasis_mark(s[pos]) {
        let close = index_of(s, s[pos], pos + 2, hi);
        if close < hi {
            Some((ShapeView::Emphasis { from: pos + 1, to: close }, close + 1))
        } else {
            None
        }
    } else {
        None
    }
}

/// A hard break at `pos`: two or more blanks at the end of a line, or a
/// backslash before the end of a line. The end of the line is taken with
/// it.
pub open spec fn break_at(s: Seq<char>, pos: int, hi: int) -> Option<(ShapeView, int)> {
    if pos < hi && s[pos] == ' ' {
        let e = run_end(s, ' ', pos, hi);
        if e - pos >= 2 && (e == hi || s[e] == '\n') {
            Some((ShapeView::Break, if e < hi { e + 1 } else { e }))
        } else {
            None
        }
    } else if pos + 1 < hi && s[pos] == '\\' && s[pos + 1] == '\n' {
        Some((ShapeView::Break, pos + 2))
    } else {
        None
    }
}

/// The construct at `pos`, by the order of the constructs: escape, code
/// span, image, reference link, link, strong emphasis, emphasis, hard
/// break.
pub open spec fn shape_at(s: Seq<char>, pos: int, hi: int) -> Option<(ShapeView, int)> {
    if escape_at(s, pos, hi) is Some {
        escape_at(s, pos, hi)
    } else if code_at(s, pos, hi) is Some {
        code_at(s, pos, hi)
    } else if image_at(s, pos, hi) is Some {
        image_at(s, pos, hi)
    } else if reference_at(s, pos, hi) is Some {
        reference_at(s, pos, hi)
    } else if link_at(s, pos, hi) is Some {
        link_at(s, pos, hi)
    } else if strong_at(s, pos, hi) is Some {
        strong_at(s, pos, hi)
    } else if emphasis_at(s, pos, hi) is Some {
        emphasis_at(s, pos, hi)
    } else {
        break_at(s, pos, hi)
    }
}

/// The first index in `from..hi` at which white space stands before a
/// double quote, or `hi`.
pub open spec fn quote_index(s: Seq<char>, from: int, hi: int) -> int
    decreases hi - from,
{
    if from >= hi || from < 0 || from + 1 >= s.len() {
        hi
    } else if is_space(s[from]) && s[from + 1] == '"' {
        from
    } else {
        quote_index(s, from + 1, hi)
    }
}

/// Where the title of a target begins: the index of the white space before
/// its opening quote. A target has a title where, trimmed, it ends with a
/// double quote and holds, before that one, white space and a double quote.
pub open spec fn title_mark(s: Seq<char>, a: int, b: int) -> Option<int> {
    let (ta, tb) = trim_range(s, a, b);
    if tb - ta >= 3 && s[tb - 1] == '"' && quote_index(s, ta, tb - 2) < tb - 2 {
        Some(quote_index(s, ta, tb - 2))
    } else {
        None
    }
}

/// The url of the target `s[a..b]`: the trimmed target, without the title.
pub open spec fn target_url(s: Seq<char>, a: int, b: int) -> Seq<char> {
    let (ta, tb) = trim_range(s, a, b);
    match title_mark(s, a, b) {
        Some(q) => s.subrange(ta, skip_space_back(s, ta, q)),
        None => s.subrange(ta, tb),
    }
}

/// The title of the target `s[a..b]`: what stands between its quotes.
pub open spec fn target_title(s: Seq<char>, a: int, b: int) -> Option<Seq<char>> {
    let (ta, tb) = trim_range(s, a, b);
    match title_mark(s, a, b) {
        Some(q) => Some(s.subrange(q + 2, tb - 1)),
        None => None,
    }
}

/// The text `s[a..b]` as a sequence of spans: one text span, or none for
/// the empty text.
pub open spec fn text_span(s: Seq<char>, a: int, b: int) -> Seq<SpanView> {
    if a < b {
        seq![SpanView::Text(s.subrange(a, b))]
    } else {
        Seq::<SpanView>::empty()
    }
}

/// The span of a shape that was recognised at `pos` and ends at `end`. The
/// content of a link or an emphasis is parsed `inner` levels deep.
pub open spec fn span_of(s: Seq<char>, pos: int, end: int, shape: ShapeView, inner: nat) -> SpanView
    decreases inner, 2nat, 0nat,
{
    match shape {
        ShapeView::Literal(c) => SpanView::Literal(c),
        ShapeView::Code { from, to } => SpanView::Code(s.subrange(from, to)),
        ShapeView::Image(image) => image,
        ShapeView::Reference { from, to, id_from, id_to } => SpanView::RefLink(
            spans_in(s, from, to, inner),
            s.subrange(id_from, id_to),
            s.subrange(pos, end),
        ),
        ShapeView::Link { from, to, target_from, target_to } => SpanView::Link(
            spans_in(s, from, to, inner),
            target_url(s, target_from, target_to),
            target_title(s, target_from, target_to),
        ),
        ShapeView::Strong { from, to } => SpanView::Strong(spans_in(s, from, to, inner)),
        ShapeView::Emphasis { from, to } => SpanView::Emphasis(spans_in(s, from, to, inner)),
        ShapeView::Break => SpanView::Break,
    }
}

/// The spans of `s[start..hi]`, where `s[start..pos]` is text that no
/// construct has claimed and the scan stands at `pos`.
pub open spec fn scan(s: Seq<char>, start: int, pos: int, hi: int, depth: nat) -> Seq<SpanView>
    decreases depth, 0nat, hi - pos,
{
    if pos >= hi || pos < 0 || hi > s.len() || depth == 0 {
        text_span(s, start, hi)
    } else {
        match shape_at(s, pos, hi) {
            Some((shape, end)) => {
                proof {
                    lemma_shape_bounds(s, pos, hi);
                }
                text_span(s, start, pos).push(span_of(s, pos, end, shape, (depth - 1) as nat))
                    + scan(s, end, end, hi, depth)
            },
            None => scan(s, start, pos + 1, hi, depth),
        }
    }
}

/// The spans of `s[lo..hi]`, with constructs recognised `depth` levels
/// deep: at depth 0 the text stays as it is.
pub open spec fn spans_in(s: Seq<char>, lo: int, hi: int, depth: nat) -> Seq<SpanView>
    decreases depth, 1nat, 0nat,
{
    if depth == 0 {
        text_span(s, lo, hi)
    } else {
        scan(s, lo, lo, hi, depth)
    }
}

/// The spans of a text.
pub open spec fn spans_of(text: Seq<char>) -> Seq<SpanView> {
    spans_in(text, 0, text.len() as int, SPAN_DEPTH as nat)
}

/// What `code_close` returns lies in `from..=hi`.
pub proof fn lemma_code_close(s: Seq<char>, from: int, hi: int, n: int)
    requires
        from <= hi,
    ensures
        from <= code_close(s, from, hi, n) <= hi,
        code_close(s, from, hi, n) < hi ==> closes_code(s, code_close(s, from, hi, n), hi, n),
        forall|k: int| from <= k < code_close(s, from, hi, n) ==> !closes_code(s, k, hi, n),
    decreases hi - from,
{
    if from < hi && !closes_code(s, from, hi, n) {
        lemma_code_close(s, from + 1, hi, n);
    }
}

/// What `bracket_close` returns lies in `from..=hi`, and a `]` stands at it
/// unless it is `hi`.
pub proof fn lemma_bracket_close(s: Seq<char>, from: int, hi: int, open: nat)
    requires
        0 <= from <= hi <= s.len(),
    ensures
        from <= bracket_close(s, from, hi, open) <= hi,
        bracket_close(s, from, hi, open) < hi ==> s[bracket_close(s, from, hi, open)] == ']',
    decreases hi - from,
{
    if from < hi {
        if s[from] == ']' {
            if open > 0 {
                lemma_bracket_close(s, from + 1, hi, (open - 1) as nat);
            }
        } else if s[from] == '[' {
            lemma_bracket_close(s, from + 1, hi, open + 1);
        } else {
            lemma_bracket_close(s, from + 1, hi, open);
        }
    }
}

/// What `pair_index` returns is `hi`, or an index in `from..hi - 1` at
/// which `c` stands twice.
pub proof fn lemma_pair_index(s: Seq<char>, c: char, from: int, hi: int)
    requires
        0 <= from,
        hi <= s.len(),
    ensures
        pair_index(s, c, from, hi) == hi || (from <= pair_index(s, c, from, hi) < hi - 1
            && s[pair_index(s, c, from, hi)] == c && s[pair_index(s, c, from, hi) + 1] == c),
        forall|k: int|
            from <= k < pair_index(s, c, from, hi) && k + 1 < hi ==> !(#[trigger] s[k] == c && s[k
                + 1] == c),
    decreases hi - from,
{
    if from + 1 < hi && !(s[from] == c && s[from + 1] == c) {
        lemma_pair_index(s, c, from + 1, hi);
    }
}

/// A recognised shape ends after the position at which it begins, and
/// within the text.
pub proof fn lemma_shape_bounds(s: Seq<char>, pos: int, hi: int)
    requires
        0 <= pos < hi <= s.len(),
    ensures
        shape_at(s, pos, hi) matches Some((_, end)) ==> pos < end <= hi,
{
    lemma_run_end(s, '`', pos, hi);
    let open_end = run_end(s, '`', pos, hi);
    lemma_code_close(s, open_end, hi, open_end - pos);
    let cc = code_close(s, open_end, hi, open_end - pos);
    if cc < hi {
        lemma_run_end(s, '`', cc, hi);
    }
    lemma_index_of(s, '\n', pos, hi);
    let line = line_end(s, pos, hi);
    if pos < line {
        lemma_bracket_close(s, pos + 1, line, 0);
        let close = bracket_close(s, pos + 1, line, 0);
        if close + 2 <= line {
            lemma_index_of(s, ']', close + 2, line);
            lemma_index_of(s, ')', close + 2, line);
        }
    }
    if pos + 3 <= hi {
        lemma_pair_index(s, s[pos], pos + 3, hi);
    }
    if pos + 2 <= hi {
        lemma_index_of(s, s[pos], pos + 2, hi);
    }
    lemma_run_end(s, ' ', pos, hi);
}


/// Whether the ranges that a shape holds lie in a text of `len` characters.
pub open spec fn ranges_ok(shape: ShapeView, len: int) -> bool {
    match shape {
        ShapeView::Code { from, to } => 0 <= from <= to <= len,
        ShapeView::Reference { from, to, id_from, id_to } => 0 <= from <= to <= len && 0 <= id_from
            <= id_to <= len,
        ShapeView::Link { from, to, target_from, target_to } => 0 <= from <= to <= len && 0
            <= target_from <= target_to <= len,
        ShapeView::Strong { from, to } => 0 <= from <= to <= len,
        ShapeView::Emphasis { from, to } => 0 <= from <= to <= len,
        _ => true,
    }
}

/// Tests a character for ASCII punctuation.
pub fn is_punct(c: char) -> (r: bool)
    ensures
        r == is_punctuation(c),
{
    let n: u32 = c as u32;
    (33 <= n && n <= 47) || (58 <= n && n <= 64) || (91 <= n && n <= 96) || (123 <= n && n <= 126)
}

/// Recognises an escape at `pos`.
pub(crate) fn find_escape(chars: &Vec<char>, pos: usize, hi: usize) -> (r: Option<(Shape, usize)>)
    requires
        pos < hi <= chars.len(),
    ensures
        found_view(r) == escape_at(chars@, pos as int, hi as int),
{
    if hi - pos >= 2 && chars[pos] == '\\' && is_punct(chars[pos + 1]) {
        Some((Shape::Literal(chars[pos + 1]), pos + 2))
    } else {
        None
    }
}

/// Recognises a code span at `pos`.
pub(crate) fn find_code(chars: &Vec<char>, pos: usize, hi: usize) -> (r: Option<(Shape, usize)>)
    requires
        pos < hi <= chars.len(),
    ensures
        found_view(r) == code_at(chars@, pos as int, hi as int),
        r matches Some((shape, _)) ==> ranges_ok(shape@, hi as int),
{
    if chars[pos] != '`' {
        return None;
    }
    let open_end = find_run_end(chars, '`', pos, hi);
    proof {
        lemma_run_end(chars@, '`', pos as int + 1, hi as int);
    }
    let n = open_end - pos;
    let mut j: usize = open_end;
    while j < hi
        invariant
            pos < open_end <= j <= hi <= chars.len(),
            n == open_end - pos,
            chars@[pos as int] == '`',
            open_end == run_end(chars@, '`', pos as int, hi as int),
            code_close(chars@, j as int, hi as int, n as int) == code_close(
                chars@,
                open_end as int,
                hi as int,
                n as int,
            ),
        decreases hi - j,
    {
        if chars[j] == '`' && chars[j - 1] != '`' {
            let e = find_run_end(chars, '`', j, hi);
            if e - j == n {
                assert(closes_code(chars@, j as int, hi as int, n as int));
                assert(code_close(chars@, open_end as int, hi as int, n as int) == j);
                return Some((Shape::Code { from: open_end, to: j }, e));
            }
        }
        j += 1;
    }
    None
}

/// Recognises an image at `pos`.
pub(crate) fn find_image(chars: &Vec<char>, pos: usize, hi: usize) -> (r: Option<(Shape, usize)>)
    requires
        pos < hi <= chars.len(),
    ensures
        found_view(r) == image_at(chars@, pos as int, hi as int),
{
    if hi - pos >= 2 && chars[pos] == '!' && chars[pos + 1] == '[' {
        let rest = string_of(chars, pos, hi);
        match parse_image(rest.as_str()) {
            Some((span, bytes)) => {
                proof {
                    lemma_image_match_at_start(rest@);
                }
                match slice_bytes(rest.as_str(), 0, bytes) {
                    Some(head) => {
                        let n = head.unicode_len();
                        if 0 < n && n <= hi - pos {
                            Some((Shape::Image(span), pos + n))
                        } else {
                            None
                        }
                    },
                    None => None,
                }
            },
            None => None,
        }
    } else {
        None
    }
}

/// Finds the `]` that closes a bracket whose content begins at `from`.
pub(crate) fn find_bracket_close(chars: &Vec<char>, from: usize, hi: usize) -> (r: usize)
    requires
        from <= hi <= chars.len(),
    ensures
        r == bracket_close(chars@, from as int, hi as int, 0),
        from <= r <= hi,
{
    let mut j: usize = from;
    let mut open: usize = 0;
    while j < hi
        invariant
            from <= j <= hi <= chars.len(),
            open <= j - from,
            bracket_close(chars@, j as int, hi as int, open as nat) == bracket_close(
                chars@,
                from as int,
                hi as int,
                0,
            ),
        decreases hi - j,
    {
        let c: char = chars[j];
        if c == ']' {
            if open == 0 {
                return j;
            }
            open -= 1;
        } else if c == '[' {
            open += 1;
        }
        j += 1;
    }
    hi
}

/// Recognises a reference link at `pos`.
pub(crate) fn find_reference(chars: &Vec<char>, pos: usize, hi: usize) -> (r: Option<
    (Shape, usize),
>)
    requires
        pos < hi <= chars.len(),
    ensures
        found_view(r) == reference_at(chars@, pos as int, hi as int),
        r matches Some((shape, _)) ==> ranges_ok(shape@, hi as int),
{
    let line = find_char(chars, '\n', pos, hi);
    if pos < line {
        find_reference_in(chars, pos, line)
    } else {
        None
    }
}

/// Recognises a reference link at `pos`, in the text up to `hi`.
pub(crate) fn find_reference_in(chars: &Vec<char>, pos: usize, hi: usize) -> (r: Option<
    (Shape, usize),
>)
    requires
        pos < hi <= chars.len(),
    ensures
        found_view(r) == reference_in(chars@, pos as int, hi as int),
        r matches Some((shape, _)) ==> ranges_ok(shape@, hi as int),
{
    if chars[pos] != '[' {
        return None;
    }
    let close = find_bracket_close(chars, pos + 1, hi);
    if close >= hi {
        None
    } else if hi - close >= 2 && chars[close + 1] == '[' {
        let id_end = find_char(chars, ']', close + 2, hi);
        if id_end < hi {
            Some(
                (
                    Shape::Reference {
                        from: pos + 1,
                        to: close,
                        id_from: close + 2,
                        id_to: id_end,
                    },
                    id_end + 1,
                ),
            )
        } else {
            None
        }
    } else if hi - close >= 2 && chars[close + 1] == '(' {
        None
    } else {
        Some(
            (
                Shape::Reference { from: pos + 1, to: close, id_from: pos + 1, id_to: close },
                close + 1,
            ),
        )
    }
}

/// Recognises a link at `pos`.
pub(crate) fn find_link(chars: &Vec<char>, pos: usize, hi: usize) -> (r: Option<(Shape, usize)>)
    requires
        pos < hi <= chars.len(),
    ensures
        found_view(r) == link_at(chars@, pos as int, hi as int),
        r matches Some((shape, _)) ==> ranges_ok(shape@, hi as int),
{
    let line = find_char(chars, '\n', pos, hi);
    if pos < line {
        find_link_in(chars, pos, line)
    } else {
        None
    }
}

/// Recognises a link at `pos`, in the text up to `hi`.
pub(crate) fn find_link_in(chars: &Vec<char>, pos: usize, hi: usize) -> (r: Option<(Shape, usize)>)
    requires
        pos < hi <= chars.len(),
    ensures
        found_view(r) == link_in(chars@, pos as int, hi as int),
        r matches Some((shape, _)) ==> ranges_ok(shape@, hi as int),
{
    if chars[pos] != '[' {
        return None;
    }
    let close = find_bracket_close(chars, pos + 1, hi);
    if close < hi && hi - close >= 2 && chars[close + 1] == '(' {
        let end = find_char(chars, ')', close + 2, hi);
        if end < hi {
            Some(
                (
                    Shape::Link {
                        from: pos + 1,
                        to: close,
                        target_from: close + 2,
                        target_to: end,
                    },
                    end + 1,
                ),
            )
        } else {
            None
        }
    } else {
        None
    }
}

/// Finds the first place in `from..hi - 1` at which `c` stands twice.
pub(crate) fn find_pair(chars: &Vec<char>, c: char, from: usize, hi: usize) -> (r: usize)
    requires
        hi <= chars.len(),
    ensures
        r == pair_index(chars@, c, from as int, hi as int),
        r == hi || from <= r < hi - 1,
{
    if from >= hi {
        return hi;
    }
    let mut j: usize = from;
    while j + 1 < hi
        invariant
            from <= j < hi <= chars.len(),
            pair_index(chars@, c, j as int, hi as int) == pair_index(
                chars@,
                c,
                from as int,
                hi as int,
            ),
        decreases hi - j,
    {
        if chars[j] == c && chars[j + 1] == c {
            return j;
        }
        j += 1;
    }
    hi
}

/// Recognises strong emphasis at `pos`.
pub(crate) fn find_strong(chars: &Vec<char>, pos: usize, hi: usize) -> (r: Option<(Shape, usize)>)
    requires
        pos < hi <= chars.len(),
    ensures
        found_view(r) == strong_at(chars@, pos as int, hi as int),
        r matches Some((shape, _)) ==> ranges_ok(shape@, hi as int),
{
    let c: char = chars[pos];
    if hi - pos >= 2 && (c == '*' || c == '_') && chars[pos + 1] == c {
        if hi - pos < 4 {
            return None;
        }
        let close = find_pair(chars, c, pos + 3, hi);
        if close < hi {
            Some((Shape::Strong { from: pos + 2, to: close }, close + 2))
        } else {
            None
        }
    } else {
        None
    }
}

/// Recognises emphasis at `pos`.
pub(crate) fn find_emphasis(chars: &Vec<char>, pos: usize, hi: usize) -> (r: Option<(Shape, usize)>)
    requires
        pos < hi <= chars.len(),
    ensures
        found_view(r) == emphasis_at(chars@, pos as int, hi as int),
        r matches Some((shape, _)) ==> ranges_ok(shape@, hi as int),
{
    let c: char = chars[pos];
    if hi - pos > 2 && (c == '*' || c == '_') {
        let close = find_char(chars, c, pos + 2, hi);
        if close < hi {
            Some((Shape::Emphasis { from: pos + 1, to: close }, close + 1))
        } else {
            None
        }
    } else {
        None
    }
}

/// Recognises a hard break at `pos`.
pub(crate) fn find_break(chars: &Vec<char>, pos: usize, hi: usize) -> (r: Option<(Shape, usize)>)
    requires
        pos < hi <= chars.len(),
    ensures
        found_view(r) == break_at(chars@, pos as int, hi as int),
{
    if chars[pos] == ' ' {
        let e = find_run_end(chars, ' ', pos, hi);
        if e - pos >= 2 && (e == hi || chars[e] == '\n') {
            if e < hi {
                Some((Shape::Break, e + 1))
            } else {
                Some((Shape::Break, e))
            }
        } else {
            None
        }
    } else if hi - pos >= 2 && chars[pos] == '\\' && chars[pos + 1] == '\n' {
        Some((Shape::Break, pos + 2))
    } else {
        None
    }
}

/// Recognises the construct at `pos`, if there is one.
pub(crate) fn find_shape(chars: &Vec<char>, pos: usize, hi: usize) -> (r: Option<(Shape, usize)>)
    requires
        pos < hi <= chars.len(),
    ensures
        found_view(r) == shape_at(chars@, pos as int, hi as int),
        r matches Some((shape, end)) ==> pos < end <= hi && ranges_ok(shape@, hi as int),
{
    proof {
        lemma_shape_bounds(chars@, pos as int, hi as int);
    }
    let r = find_escape(chars, pos, hi);
    if r.is_some() {
        return r;
    }
    let r = find_code(chars, pos, hi);
    if r.is_some() {
        return r;
    }
    let r = find_image(chars, pos, hi);
    if r.is_some() {
        return r;
    }
    let r = find_reference(chars, pos, hi);
    if r.is_some() {
        return r;
    }
    let r = find_link(chars, pos, hi);
    if r.is_some() {
        return r;
    }
    let r = find_strong(chars, pos, hi);
    if r.is_some() {
        return r;
    }
    let r = find_emphasis(chars, pos, hi);
    if r.is_some() {
        return r;
    }
    find_break(chars, pos, hi)
}

/// Finds the first place in `from..hi` at which white space stands before
/// a double quote.
pub(crate) fn find_quote(chars: &Vec<char>, from: usize, hi: usize) -> (r: usize)
    requires
        from <= hi < chars.len(),
    ensures
        r == quote_index(chars@, from as int, hi as int),
        from <= r <= hi,
{
    let mut j: usize = from;
    while j < hi
        invariant
            from <= j <= hi < chars.len(),
            quote_index(chars@, j as int, hi as int) == quote_index(
                chars@,
                from as int,
                hi as int,
            ),
        decreases hi - j,
    {
        if is_whitespace(chars[j]) && chars[j + 1] == '"' {
            return j;
        }
        j += 1;
    }
    hi
}

/// The title of a target, given by its bounds.
pub open spec fn title_at(s: Seq<char>, bounds: Option<(usize, usize)>) -> Option<Seq<char>> {
    match bounds {
        Some((from, to)) => Some(s.subrange(from as int, to as int)),
        None => None,
    }
}

/// Finds the url and the title in the target `chars[a..b]` of a link: the
/// bounds of the url, and those of the title where there is one.
pub(crate) fn target_bounds(chars: &Vec<char>, a: usize, b: usize) -> (r: (
    usize,
    usize,
    Option<(usize, usize)>,
))
    requires
        a <= b <= chars.len(),
    ensures
        r.0 <= r.1 <= chars.len(),
        chars@.subrange(r.0 as int, r.1 as int) == target_url(chars@, a as int, b as int),
        title_at(chars@, r.2) == target_title(chars@, a as int, b as int),
        r.2 matches Some((from, to)) ==> from <= to <= chars.len(),
{
    let (ta, tb) = trim_bounds(chars, a, b);
    if tb - ta >= 3 && chars[tb - 1] == '"' {
        let q = find_quote(chars, ta, tb - 2);
        if q < tb - 2 {
            let url_end = skip_whitespace_back(chars, ta, q);
            return (ta, url_end, Some((q + 2, tb - 1)));
        }
    }
    (ta, tb, None)
}

/// Reads the target `chars[a..b]` of a link: its url and its title.
pub(crate) fn read_target(chars: &Vec<char>, a: usize, b: usize) -> (r: (String, Option<String>))
    requires
        a <= b <= chars.len(),
    ensures
        r.0@ == target_url(chars@, a as int, b as int),
        opt_chars(r.1) == target_title(chars@, a as int, b as int),
{
    let (from, to, title) = target_bounds(chars, a, b);
    let url = string_of(chars, from, to);
    match title {
        Some((title_from, title_to)) => (url, Some(string_of(chars, title_from, title_to))),
        None => (url, None),
    }
}

/// Builds the span of a shape that was recognised at `pos` and ends at
/// `end`.
pub(crate) fn build_span(
    chars: &Vec<char>,
    pos: usize,
    end: usize,
    shape: Shape,
    inner: usize,
) -> (r: Span)
    requires
        pos <= end <= chars.len(),
        ranges_ok(shape@, chars.len() as int),
    ensures
        r@ == span_of(chars@, pos as int, end as int, shape@, inner as nat),
    decreases inner, 2nat, 0nat,
{
    match shape {
        Shape::Literal(c) => Span::Literal(c),
        Shape::Code { from, to } => Span::Code(string_of(chars, from, to)),
        Shape::Image(span) => span,
        Shape::Reference { from, to, id_from, id_to } => {
            let content = parse_range(chars, from, to, inner);
            let r = Span::RefLink(
                content,
                string_of(chars, id_from, id_to),
                string_of(chars, pos, end),
            );
            proof {
                lemma_span_view(r);
            }
            r
        },
        Shape::Link { from, to, target_from, target_to } => {
            let content = parse_range(chars, from, to, inner);
            let (url, title) = read_target(chars, target_from, target_to);
            let r = Span::Link(content, url, title);
            proof {
                lemma_span_view(r);
            }
            r
        },
        Shape::Strong { from, to } => {
            let r = Span::Strong(parse_range(chars, from, to, inner));
            proof {
                lemma_span_view(r);
            }
            r
        },
        Shape::Emphasis { from, to } => {
            let r = Span::Emphasis(parse_range(chars, from, to, inner));
            proof {
                lemma_span_view(r);
            }
            r
        },
        Shape::Break => Span::Break,
    }
}

/// Parses `chars[lo..hi]` into spans, with constructs recognised `depth`
/// levels deep.
pub(crate) fn parse_range(chars: &Vec<char>, lo: usize, hi: usize, depth: usize) -> (r: Vec<Span>)
    requires
        lo <= hi <= chars.len(),
    ensures
        spans_view(r@) == spans_in(chars@, lo as int, hi as int, depth as nat),
    decreases depth, 1nat, 0nat,
{
    let mut out: Vec<Span> = Vec::new();
    let mut start: usize = lo;
    let mut pos: usize = lo;
    assert(spans_view(out@) =~= Seq::<SpanView>::empty());
    if depth > 0 {
        while pos < hi
            invariant
                lo <= start <= pos <= hi <= chars.len(),
                depth > 0,
                spans_view(out@) + scan(chars@, start as int, pos as int, hi as int, depth as nat)
                    =~= scan(chars@, lo as int, lo as int, hi as int, depth as nat),
            decreases hi - pos,
        {
            match find_shape(chars, pos, hi) {
                Some((shape, end)) => {
                    let ghost before = spans_view(out@);
                    let ghost shape_view = shape@;
                    if start < pos {
                        let text = Span::Text(string_of(chars, start, pos));
                        proof {
                            lemma_spans_view_push(out@, text);
                        }
                        out.push(text);
                    }
                    let span = build_span(chars, pos, end, shape, depth - 1);
                    proof {
                        lemma_spans_view_push(out@, span);
                        assert(spans_view(out@.push(span)) =~= before + text_span(
                            chars@,
                            start as int,
                            pos as int,
                        ).push(span@));
                    }
                    out.push(span);
                    start = end;
                    pos = end;
                },
                None => {
                    pos += 1;
                },
            }
        }
    }
    if start < hi {
        let text = Span::Text(string_of(chars, start, hi));
        proof {
            lemma_spans_view_push(out@, text);
        }
        out.push(text);
    }
    out
}

/// Parses the text of a block into spans.
pub fn parse_spans(text: &str) -> (r: Vec<Span>)
    ensures
        spans_view(r@) == spans_of(text@),
{
    let chars = chars_of(text);
    parse_range(&chars, 0, chars.len(), SPAN_DEPTH)
}


/// A reference link keeps its source: the span of a reference that was
/// recognised at `pos` holds, as its raw text, the text from `pos` to the
/// end of the construct, and no line feed stands in it.
pub proof fn lemma_reference_keeps_its_source(s: Seq<char>, pos: int, hi: int, inner: nat)
    requires
        0 <= pos < hi <= s.len(),
        reference_at(s, pos, hi) is Some,
    ensures
        reference_at(s, pos, hi) matches Some((shape, end)) && pos < end <= hi && (span_of(
            s,
            pos,
            end,
            shape,
            inner,
        ) matches SpanView::RefLink(_, _, raw) && raw == s.subrange(pos, end)),
        reference_at(s, pos, hi) matches Some((_, end)) && forall|k: int|
            pos <= k < end ==> s[k] != '\n',
{
    lemma_index_of(s, '\n', pos, hi);
    let line = line_end(s, pos, hi);
    lemma_bracket_close(s, pos + 1, line, 0);
    let close = bracket_close(s, pos + 1, line, 0);
    if close + 2 <= line {
        lemma_index_of(s, ']', close + 2, line);
    }
}

/// No construct is recognised before its first character: where nothing
/// is recognised at the positions before `pos` and a construct is
/// recognised at `pos`, the text before `pos` is one text span of its own,
/// and the construct is the first span where there is no such text.
pub proof fn lemma_text_before_a_construct_stays(
    s: Seq<char>,
    lo: int,
    pos: int,
    hi: int,
    depth: nat,
)
    requires
        0 <= lo <= pos < hi <= s.len(),
        depth > 0,
        forall|k: int| lo <= k < pos ==> shape_at(s, k, hi) is None,
        shape_at(s, pos, hi) is Some,
    ensures
        lo < pos ==> scan(s, lo, lo, hi, depth)[0] == SpanView::Text(s.subrange(lo, pos)),
        shape_at(s, pos, hi) matches Some((shape, end)) && (lo == pos ==> scan(
            s,
            lo,
            lo,
            hi,
            depth,
        )[0] == span_of(s, pos, end, shape, (depth - 1) as nat)),
{
    lemma_scan_skips(s, lo, lo, pos, hi, depth);
}

/// Scanning over positions at which nothing is recognised leaves the
/// pending text as it is.
pub proof fn lemma_scan_skips(s: Seq<char>, start: int, from: int, pos: int, hi: int, depth: nat)
    requires
        0 <= start <= from <= pos <= hi <= s.len(),
        depth > 0,
        forall|k: int| from <= k < pos ==> shape_at(s, k, hi) is None,
    ensures
        scan(s, start, from, hi, depth) == scan(s, start, pos, hi, depth),
    decreases pos - from,
{
    if from < pos {
        lemma_scan_skips(s, start, from + 1, pos, hi, depth);
    }
}

} // verus!
