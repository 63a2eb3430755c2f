//! The block parser: the lines of a document to a sequence of blocks.
//!
//! Blank lines part blocks. At each other line the kind of the block that
//! begins there is read off the line, in a fixed order of kinds, and the
//! block takes that line and as many of the next as belong to it. What
//! stands inside a block quote or a loose list item is parsed as a document
//! of its own, one level deeper.

use crate::parser::block::lines::{
    first_line, join, join_lines, lemma_first_line, line_seqs, lines_of, split_lines, vec_of,
};
use crate::parser::span::{
    parse_range, read_target, spans_in, spans_of, target_bounds, target_title, target_url,
    SPAN_DEPTH,
};
use crate::parser::text::{
    chars_of, find_char, find_run_end, index_of, is_blank, is_space, lemma_run_end,
    lemma_skip_space,
    run_end, skip_whitespace, string_of, trim, trim_bounds, trim_range,
};
use crate::parser::{
    blocks_view, items_view, lemma_block_view, lemma_blocks_view_push, lemma_item_view,
    lemma_items_view_push, opt_chars, Block, BlockView, ListItem, ListItemView,
    OrderedListType,
};
use vstd::prelude::*;

pub mod lines;

verus! {

/// How deep blocks are parsed inside blocks. What stands inside a block at
/// this depth is kept as one raw block.
pub const BLOCK_DEPTH: usize = 16;

/// The kinds of block, in the order in which a line is tried for them.
#[allow(missing_docs)]
#[derive(Debug, PartialEq, Eq, Clone, Copy, Structural)]
pub enum BlockKind {
    Header,
    Rule,
    Fence,
    Quote,
    Definition,
    List,
    Paragraph,
}

/// The number of `#` at the start of a line.
pub open spec fn header_level(l: Seq<char>) -> int {
    run_end(l, '#', 0, l.len() as int)
}

/// Whether `c` is a character of which a horizontal rule is made.
pub open spec fn is_rule_char(c: char) -> bool {
    c == '-' || c == '*' || c == '_'
}

/// Whether a line is a horizontal rule: three or more of one rule
/// character and nothing else.
pub open spec fn is_rule(l: Seq<char>) -> bool {
    l.len() >= 3 && is_rule_char(l[0]) && run_end(l, l[0], 0, l.len() as int) == l.len()
}

/// Whether `c` is a character of which a code fence is made.
pub open spec fn is_fence_char(c: char) -> bool {
    c == '`' || c == '~'
}

/// Whether a line opens a fenced code block: it begins with three or more
/// of one fence character.
pub open spec fn opens_fence(l: Seq<char>) -> bool {
    l.len() >= 3 && is_fence_char(l[0]) && run_end(l, l[0], 0, l.len() as int) >= 3
}

/// The language of a fenced code block: what follows the fence on its
/// line, trimmed, where that is not empty.
pub open spec fn fence_language(l: Seq<char>) -> Option<Seq<char>> {
    let t = trim(l.subrange(run_end(l, l[0], 0, l.len() as int), l.len() as int));
    if t.len() > 0 {
        Some(t)
    } else {
        None
    }
}

/// The lines that close a fence made of `c`: three or more of `c` and
/// nothing else.
pub open spec fn closes_fence(c: char) -> spec_fn(Seq<char>) -> bool {
    |l: Seq<char>| l.len() >= 3 && run_end(l, c, 0, l.len() as int) == l.len()
}

/// Whether a line belongs to a block quote: it begins with `>`.
pub open spec fn is_quote(l: Seq<char>) -> bool {
    l.len() > 0 && l[0] == '>'
}

/// The lines that do not belong to a block quote.
pub open spec fn not_quote() -> spec_fn(Seq<char>) -> bool {
    |l: Seq<char>| !is_quote(l)
}

/// A line of a block quote without its mark: the `>` and one blank after
/// it.
pub open spec fn unquote(l: Seq<char>) -> Seq<char> {
    if l.len() > 1 && l[1] == ' ' {
        l.subrange(2, l.len() as int)
    } else if l.len() > 0 {
        l.subrange(1, l.len() as int)
    } else {
        l
    }
}

/// The lines of a block quote without their marks.
pub open spec fn unquote_all(ls: Seq<Seq<char>>) -> Seq<Seq<char>> {
    Seq::new(ls.len(), |k: int| unquote(ls[k]))
}

/// The index of the `]` that ends the id of a link reference definition.
pub open spec fn definition_close(l: Seq<char>) -> int {
    index_of(l, ']', 1, l.len() as int)
}

/// Whether a line defines a link reference: `[id]: url`, with an id and a
/// url that are not empty.
pub open spec fn is_definition(l: Seq<char>) -> bool {
    let c = definition_close(l);
    l.len() > 0 && l[0] == '[' && 1 < c && c + 1 < l.len() && l[c + 1] == ':' && target_url(
        l,
        c + 2,
        l.len() as int,
    ).len() > 0
}

/// The title that a line holds alone: the line, trimmed, stands between
/// double quotes.
pub open spec fn wrapped_title(l: Seq<char>) -> Option<Seq<char>> {
    let (a, b) = trim_range(l, 0, l.len() as int);
    if b - a >= 2 && l[a] == '"' && l[b - 1] == '"' {
        Some(l.subrange(a + 1, b - 1))
    } else {
        None
    }
}

/// Whether the definition at line `i` has its title on the next line.
pub open spec fn wraps_title(ls: Seq<Seq<char>>, i: int) -> bool {
    target_title(ls[i], definition_close(ls[i]) + 2, ls[i].len() as int) is None && i + 1
        < ls.len() && wrapped_title(ls[i + 1]) is Some
}

/// Whether `c` is a digit of ASCII.
pub open spec fn is_digit(c: char) -> bool {
    48 <= c as u32 <= 57
}

/// The first index at or after `from` at which no digit stands.
pub open spec fn digits_end(l: Seq<char>, from: int) -> int
    decreases l.len() - from,
{
    if 0 <= from < l.len() && is_digit(l[from]) {
        digits_end(l, from + 1)
    } else {
        from
    }
}

/// Whether `c` is a letter of ASCII.
pub open spec fn is_letter(c: char) -> bool {
    65 <= c as u32 <= 90 || 97 <= c as u32 <= 122
}

/// The list marker at the start of a line: whether it is one of an ordered
/// list, and its width with the blank after it. An unordered marker is
/// `-`, `*` or `+`; an ordered one is a number or one letter, and a `.`.
pub open spec fn list_mark(l: Seq<char>) -> Option<(bool, int)> {
    let d = digits_end(l, 0);
    if l.len() >= 2 && (l[0] == '-' || l[0] == '*' || l[0] == '+') && l[1] == ' ' {
        Some((false, 2))
    } else if d >= 1 && d + 1 < l.len() && l[d] == '.' && l[d + 1] == ' ' {
        Some((true, d + 2))
    } else if l.len() >= 3 && is_letter(l[0]) && l[1] == '.' && l[2] == ' ' {
        Some((true, 3))
    } else {
        None
    }
}

/// The width of the list marker of a line, with the blank after it.
pub open spec fn mark_width(l: Seq<char>) -> int {
    match list_mark(l) {
        Some((_, w)) => w,
        None => 0,
    }
}

/// Whether the list marker of a line is one of an ordered list.
pub open spec fn mark_ordered(l: Seq<char>) -> bool {
    match list_mark(l) {
        Some((ordered, _)) => ordered,
        None => false,
    }
}

/// The kind of the block that begins with the line `l`.
pub open spec fn kind_of(l: Seq<char>) -> BlockKind {
    if header_level(l) > 0 {
        BlockKind::Header
    } else if is_rule(l) {
        BlockKind::Rule
    } else if opens_fence(l) {
        BlockKind::Fence
    } else if is_quote(l) {
        BlockKind::Quote
    } else if is_definition(l) {
        BlockKind::Definition
    } else if list_mark(l) is Some {
        BlockKind::List
    } else {
        BlockKind::Paragraph
    }
}

/// The lines that end a paragraph: a blank line, and a line with which a
/// block of another kind begins.
pub open spec fn ends_paragraph() -> spec_fn(Seq<char>) -> bool {
    |l: Seq<char>| is_blank(l) || kind_of(l) != BlockKind::Paragraph
}

/// The lines that end a list item whose content begins at column `w`: a
/// blank line, and a line that is not indented by `w` blanks.
pub open spec fn ends_item(w: int) -> spec_fn(Seq<char>) -> bool {
    |l: Seq<char>| is_blank(l) || run_end(l, ' ', 0, l.len() as int) < w
}

/// The lines that are not blank.
pub open spec fn not_blank() -> spec_fn(Seq<char>) -> bool {
    |l: Seq<char>| !is_blank(l)
}

/// The index of the line after the list item that begins at line `p`.
pub open spec fn item_stop(ls: Seq<Seq<char>>, p: int) -> int {
    first_line(ls, p + 1, ends_item(mark_width(ls[p])))
}

/// The index of the first line after the item at `p` that is not blank.
pub open spec fn next_item(ls: Seq<Seq<char>>, p: int) -> int {
    first_line(ls, item_stop(ls, p), not_blank())
}

/// Whether the list goes on after the item at `p`: the next line that is
/// not blank begins with a marker of the same family.
pub open spec fn continues(ls: Seq<Seq<char>>, p: int) -> bool {
    let b = next_item(ls, p);
    b < ls.len() && list_mark(ls[b]) is Some && mark_ordered(ls[b]) == mark_ordered(ls[p])
}

/// The index of the line after the list whose item begins at `p`.
pub open spec fn list_end(ls: Seq<Seq<char>>, p: int) -> int
    decreases ls.len() - p,
{
    if 0 <= p < ls.len() && continues(ls, p) {
        proof {
            lemma_item_bounds(ls, p);
        }
        list_end(ls, next_item(ls, p))
    } else {
        item_stop(ls, p)
    }
}

/// A line without its first `w` columns.
pub open spec fn drop_columns(l: Seq<char>, w: int) -> Seq<char> {
    if 0 <= w <= l.len() {
        l.subrange(w, l.len() as int)
    } else {
        Seq::<char>::empty()
    }
}

/// The lines of the item `ls[p..e]`, each without its first `w` columns.
pub open spec fn item_lines(ls: Seq<Seq<char>>, p: int, e: int, w: int) -> Seq<Seq<char>> {
    Seq::new((e - p) as nat, |k: int| drop_columns(ls[p + k], w))
}

/// The index of the line after the block that begins at line `i`.
pub open spec fn block_end(ls: Seq<Seq<char>>, i: int) -> int {
    match kind_of(ls[i]) {
        BlockKind::Header => i + 1,
        BlockKind::Rule => i + 1,
        BlockKind::Fence => {
            let close = first_line(ls, i + 1, closes_fence(ls[i][0]));
            if close < ls.len() {
                close + 1
            } else {
                close
            }
        },
        BlockKind::Quote => first_line(ls, i, not_quote()),
        BlockKind::Definition => if wraps_title(ls, i) {
            i + 2
        } else {
            i + 1
        },
        BlockKind::List => list_end(ls, i),
        BlockKind::Paragraph => first_line(ls, i + 1, ends_paragraph()),
    }
}

/// The items of the list from the item at line `p` on. An item is loose
/// where a blank line parts it from the item before or after it; a loose
/// item holds blocks, another one spans.
pub open spec fn list_items(ls: Seq<Seq<char>>, p: int, loose_before: bool, inner: nat) -> Seq<
    ListItemView,
>
    decreases inner, 3nat, ls.len() - p,
{
    if p < 0 || p >= ls.len() {
        Seq::<ListItemView>::empty()
    } else {
        let e = item_stop(ls, p);
        let b = next_item(ls, p);
        let loose_after = continues(ls, p) && b > e;
        let lines = item_lines(ls, p, e, mark_width(ls[p]));
        let item = if loose_before || loose_after {
            ListItemView::Paragraph(blocks_of(lines, inner))
        } else {
            ListItemView::Simple(spans_of(join_lines(lines)))
        };
        if continues(ls, p) {
            proof {
                lemma_item_bounds(ls, p);
            }
            seq![item] + list_items(ls, b, loose_after, inner)
        } else {
            seq![item]
        }
    }
}

/// The block that begins at line `i`. What it holds is parsed `inner`
/// levels deep.
pub open spec fn block_node(ls: Seq<Seq<char>>, i: int, inner: nat) -> BlockView
    decreases inner, 4nat, 0nat,
{
    let l = ls[i];
    match kind_of(l) {
        BlockKind::Header => {
            let (a, b) = trim_range(l, header_level(l), l.len() as int);
            BlockView::Header(spans_in(l, a, b, SPAN_DEPTH as nat), header_level(l) as nat)
        },
        BlockKind::Rule => BlockView::Hr,
        BlockKind::Fence => BlockView::CodeBlock(
            fence_language(l),
            join_lines(ls.subrange(i + 1, first_line(ls, i + 1, closes_fence(l[0])))),
        ),
        BlockKind::Quote => BlockView::Blockquote(
            blocks_of(unquote_all(ls.subrange(i, block_end(ls, i))), inner),
        ),
        BlockKind::Definition => BlockView::LinkReference(
            l.subrange(1, definition_close(l)),
            target_url(l, definition_close(l) + 2, l.len() as int),
            if wraps_title(ls, i) {
                wrapped_title(ls[i + 1])
            } else {
                target_title(l, definition_close(l) + 2, l.len() as int)
            },
        ),
        BlockKind::List => if mark_ordered(l) {
            BlockView::OrderedList(
                list_items(ls, i, false, inner),
                OrderedListType::of_marker(l.subrange(0, mark_width(l) - 2)),
            )
        } else {
            BlockView::UnorderedList(list_items(ls, i, false, inner))
        },
        BlockKind::Paragraph => BlockView::Paragraph(
            spans_of(join_lines(ls.subrange(i, block_end(ls, i)))),
        ),
    }
}

/// The blocks of the lines from line `i` on.
pub open spec fn blocks_from(ls: Seq<Seq<char>>, i: int, depth: nat) -> Seq<BlockView>
    decreases depth, 1nat, ls.len() - i,
{
    if i < 0 || i >= ls.len() || depth == 0 {
        Seq::<BlockView>::empty()
    } else if is_blank(ls[i]) {
        blocks_from(ls, i + 1, depth)
    } else {
        proof {
            lemma_block_end(ls, i);
        }
        seq![block_node(ls, i, (depth - 1) as nat)] + blocks_from(ls, block_end(ls, i), depth)
    }
}

/// The blocks of a sequence of lines, parsed `depth` levels deep: at depth
/// 0 the lines are kept as one raw block.
pub open spec fn blocks_of(ls: Seq<Seq<char>>, depth: nat) -> Seq<BlockView>
    decreases depth, 2nat, 0nat,
{
    if depth == 0 {
        if ls.len() == 0 {
            Seq::<BlockView>::empty()
        } else {
            seq![BlockView::Raw(join_lines(ls))]
        }
    } else {
        blocks_from(ls, 0, depth)
    }
}

/// The blocks of a document.
pub open spec fn document(text: Seq<char>) -> Seq<BlockView> {
    blocks_of(lines_of(text), BLOCK_DEPTH as nat)
}

/// A list item takes at least its first line, and the next item begins at
/// or after its end.
pub proof fn lemma_item_bounds(ls: Seq<Seq<char>>, p: int)
    requires
        0 <= p < ls.len(),
    ensures
        p < item_stop(ls, p) <= next_item(ls, p) <= ls.len(),
{
    lemma_first_line(ls, p + 1, ends_item(mark_width(ls[p])));
    lemma_first_line(ls, item_stop(ls, p), not_blank());
}

/// A list ends after the line at which it begins, and within the lines.
pub proof fn lemma_list_end(ls: Seq<Seq<char>>, p: int)
    requires
        0 <= p < ls.len(),
    ensures
        p < list_end(ls, p) <= ls.len(),
    decreases ls.len() - p,
{
    lemma_item_bounds(ls, p);
    if continues(ls, p) {
        lemma_list_end(ls, next_item(ls, p));
    }
}

/// A block ends after the line at which it begins, and within the lines.
pub proof fn lemma_block_end(ls: Seq<Seq<char>>, i: int)
    requires
        0 <= i < ls.len(),
    ensures
        i < block_end(ls, i) <= ls.len(),
{
    lemma_first_line(ls, i + 1, closes_fence(ls[i][0]));
    lemma_first_line(ls, i + 1, not_quote());
    lemma_first_line(ls, i + 1, ends_paragraph());
    lemma_list_end(ls, i);
    if kind_of(ls[i]) == BlockKind::Quote {
        assert(!not_quote()(ls[i]));
    }
}


/// The model of a list marker that was found.
pub open spec fn mark_view(r: Option<(bool, usize)>) -> Option<(bool, int)> {
    match r {
        Some((ordered, w)) => Some((ordered, w as int)),
        None => None,
    }
}

/// Tests a line for being blank.
pub fn is_blank_line(l: &Vec<char>) -> (r: bool)
    ensures
        r == is_blank(l@),
{
    let k = skip_whitespace(l, 0, l.len());
    proof {
        lemma_skip_space(l@, 0, l.len() as int);
    }
    k == l.len()
}

/// Finds the end of the digits at the start of a line.
pub fn find_digits_end(l: &Vec<char>) -> (r: usize)
    ensures
        r == digits_end(l@, 0),
        r <= l.len(),
{
    let mut i: usize = 0;
    while i < l.len() && 48 <= l[i] as u32 && l[i] as u32 <= 57
        invariant
            i <= l.len(),
            digits_end(l@, i as int) == digits_end(l@, 0),
        decreases l.len() - i,
    {
        i += 1;
    }
    i
}

/// Tests a character for a letter of ASCII.
pub fn is_ascii_letter(c: char) -> (r: bool)
    ensures
        r == is_letter(c),
{
    let n: u32 = c as u32;
    (65 <= n && n <= 90) || (97 <= n && n <= 122)
}

/// Reads the list marker at the start of a line.
pub fn find_list_mark(l: &Vec<char>) -> (r: Option<(bool, usize)>)
    ensures
        mark_view(r) == list_mark(l@),
        r matches Some((_, w)) ==> 2 <= w <= l.len(),
{
    let n = l.len();
    if n >= 2 && (l[0] == '-' || l[0] == '*' || l[0] == '+') && l[1] == ' ' {
        return Some((false, 2));
    }
    let d = find_digits_end(l);
    if d >= 1 && n - d >= 2 && l[d] == '.' && l[d + 1] == ' ' {
        return Some((true, d + 2));
    }
    if n >= 3 && is_ascii_letter(l[0]) && l[1] == '.' && l[2] == ' ' {
        Some((true, 3))
    } else {
        None
    }
}

/// Tests a line for a link reference definition.
pub fn is_definition_line(l: &Vec<char>) -> (r: bool)
    ensures
        r == is_definition(l@),
{
    let n = l.len();
    if n > 0 && l[0] == '[' {
        let c = find_char(l, ']', 1, n);
        if 1 < c && n - c >= 2 && l[c + 1] == ':' {
            let (from, to, _) = target_bounds(l, c + 2, n);
            from < to
        } else {
            false
        }
    } else {
        false
    }
}

/// Reads the kind of the block that begins with a line.
pub fn classify(l: &Vec<char>) -> (r: BlockKind)
    ensures
        r == kind_of(l@),
{
    let n = l.len();
    if find_run_end(l, '#', 0, n) > 0 {
        return BlockKind::Header;
    }
    if n >= 3 {
        let c: char = l[0];
        if c == '-' || c == '*' || c == '_' {
            if find_run_end(l, c, 0, n) == n {
                return BlockKind::Rule;
            }
        }
        if c == '`' || c == '~' {
            if find_run_end(l, c, 0, n) >= 3 {
                return BlockKind::Fence;
            }
        }
    }
    if n > 0 && l[0] == '>' {
        return BlockKind::Quote;
    }
    if is_definition_line(l) {
        return BlockKind::Definition;
    }
    if find_list_mark(l).is_some() {
        BlockKind::List
    } else {
        BlockKind::Paragraph
    }
}

/// Finds the line that closes a fence made of `c`, from line `from` on.
pub(crate) fn find_fence_close(lines: &Vec<Vec<char>>, from: usize, c: char) -> (r: usize)
    requires
        from <= lines.len(),
    ensures
        r == first_line(line_seqs(lines@), from as int, closes_fence(c)),
        from <= r <= lines.len(),
{
    let mut j: usize = from;
    while j < lines.len()
        invariant
            from <= j <= lines.len(),
            first_line(line_seqs(lines@), j as int, closes_fence(c)) == first_line(
                line_seqs(lines@),
                from as int,
                closes_fence(c),
            ),
        decreases lines.len() - j,
    {
        let l = &lines[j];
        let stop = l.len() >= 3 && find_run_end(l, c, 0, l.len()) == l.len();
        assert(stop == closes_fence(c)(line_seqs(lines@)[j as int]));
        if stop {
            return j;
        }
        j += 1;
    }
    j
}

/// Finds the first line that does not belong to a block quote, from line
/// `from` on.
pub(crate) fn find_quote_end(lines: &Vec<Vec<char>>, from: usize) -> (r: usize)
    requires
        from <= lines.len(),
    ensures
        r == first_line(line_seqs(lines@), from as int, not_quote()),
        from <= r <= lines.len(),
{
    let mut j: usize = from;
    while j < lines.len()
        invariant
            from <= j <= lines.len(),
            first_line(line_seqs(lines@), j as int, not_quote()) == first_line(
                line_seqs(lines@),
                from as int,
                not_quote(),
            ),
        decreases lines.len() - j,
    {
        let l = &lines[j];
        let stop = !(l.len() > 0 && l[0] == '>');
        assert(stop == not_quote()(line_seqs(lines@)[j as int]));
        if stop {
            return j;
        }
        j += 1;
    }
    j
}

/// Finds the line that ends a paragraph, from line `from` on.
pub(crate) fn find_paragraph_end(lines: &Vec<Vec<char>>, from: usize) -> (r: usize)
    requires
        from <= lines.len(),
    ensures
        r == first_line(line_seqs(lines@), from as int, ends_paragraph()),
        from <= r <= lines.len(),
{
    let mut j: usize = from;
    while j < lines.len()
        invariant
            from <= j <= lines.len(),
            first_line(line_seqs(lines@), j as int, ends_paragraph()) == first_line(
                line_seqs(lines@),
                from as int,
                ends_paragraph(),
            ),
        decreases lines.len() - j,
    {
        let l = &lines[j];
        let stop = is_blank_line(l) || classify(l) != BlockKind::Paragraph;
        assert(stop == ends_paragraph()(line_seqs(lines@)[j as int]));
        if stop {
            return j;
        }
        j += 1;
    }
    j
}

/// Finds the line that ends a list item whose content begins at column
/// `w`, from line `from` on.
pub(crate) fn find_item_stop(lines: &Vec<Vec<char>>, from: usize, w: usize) -> (r: usize)
    requires
        from <= lines.len(),
    ensures
        r == first_line(line_seqs(lines@), from as int, ends_item(w as int)),
        from <= r <= lines.len(),
{
    let mut j: usize = from;
    while j < lines.len()
        invariant
            from <= j <= lines.len(),
            first_line(line_seqs(lines@), j as int, ends_item(w as int)) == first_line(
                line_seqs(lines@),
                from as int,
                ends_item(w as int),
            ),
        decreases lines.len() - j,
    {
        let l = &lines[j];
        let stop = is_blank_line(l) || find_run_end(l, ' ', 0, l.len()) < w;
        assert(stop == ends_item(w as int)(line_seqs(lines@)[j as int]));
        if stop {
            return j;
        }
        j += 1;
    }
    j
}

/// Finds the first line that is not blank, from line `from` on.
pub(crate) fn find_not_blank(lines: &Vec<Vec<char>>, from: usize) -> (r: usize)
    requires
        from <= lines.len(),
    ensures
        r == first_line(line_seqs(lines@), from as int, not_blank()),
        from <= r <= lines.len(),
{
    let mut j: usize = from;
    while j < lines.len()
        invariant
            from <= j <= lines.len(),
            first_line(line_seqs(lines@), j as int, not_blank()) == first_line(
                line_seqs(lines@),
                from as int,
                not_blank(),
            ),
        decreases lines.len() - j,
    {
        let stop = !is_blank_line(&lines[j]);
        assert(stop == not_blank()(line_seqs(lines@)[j as int]));
        if stop {
            return j;
        }
        j += 1;
    }
    j
}

/// Copies the lines of a block quote without their marks.
pub(crate) fn unquote_lines(lines: &Vec<Vec<char>>, from: usize, to: usize) -> (r: Vec<Vec<char>>)
    requires
        from <= to <= lines.len(),
    ensures
        line_seqs(r@) == unquote_all(line_seqs(lines@).subrange(from as int, to as int)),
{
    let mut out: Vec<Vec<char>> = Vec::new();
    let mut k: usize = from;
    let ghost ls = line_seqs(lines@);
    while k < to
        invariant
            from <= k <= to <= lines.len(),
            ls == line_seqs(lines@),
            line_seqs(out@) =~= unquote_all(ls.subrange(from as int, k as int)),
        decreases to - k,
    {
        let l = &lines[k];
        let n = l.len();
        let line = if n > 1 && l[1] == ' ' {
            vec_of(l, 2, n)
        } else if n > 0 {
            vec_of(l, 1, n)
        } else {
            vec_of(l, 0, n)
        };
        proof {
            if n == 0 {
                assert(line@ =~= l@);
            }
            assert(line@ == unquote(ls[k as int]));
            let before = ls.subrange(from as int, k as int);
            let after = ls.subrange(from as int, k as int + 1);
            let a = line_seqs(out@.push(line));
            let b = unquote_all(after);
            assert(line_seqs(out@).len() == unquote_all(before).len());
            assert forall|x: int| 0 <= x < a.len() implies a[x] == b[x] by {
                if x < out@.len() {
                    assert(line_seqs(out@)[x] == unquote_all(before)[x]);
                    assert(before[x] == after[x]);
                }
            }
            assert(a =~= b);
        }
        out.push(line);
        k += 1;
    }
    proof {
        assert(line_seqs(out@) == unquote_all(ls.subrange(from as int, to as int)));
    }
    out
}

/// Copies the lines of a list item, each without its first `w` columns.
pub(crate) fn collect_item_lines(
    lines: &Vec<Vec<char>>,
    from: usize,
    to: usize,
    w: usize,
) -> (r: Vec<Vec<char>>)
    requires
        from <= to <= lines.len(),
    ensures
        line_seqs(r@) == item_lines(line_seqs(lines@), from as int, to as int, w as int),
{
    let mut out: Vec<Vec<char>> = Vec::new();
    let mut k: usize = from;
    let ghost ls = line_seqs(lines@);
    while k < to
        invariant
            from <= k <= to <= lines.len(),
            ls == line_seqs(lines@),
            line_seqs(out@) =~= item_lines(ls, from as int, k as int, w as int),
        decreases to - k,
    {
        let l = &lines[k];
        let n = l.len();
        let line = if w <= n {
            vec_of(l, w, n)
        } else {
            Vec::new()
        };
        proof {
            assert(line@ =~= drop_columns(ls[k as int], w as int));
            let a = line_seqs(out@.push(line));
            let b = item_lines(ls, from as int, k as int + 1, w as int);
            assert(line_seqs(out@).len() == item_lines(ls, from as int, k as int, w as int).len());
            assert forall|x: int| 0 <= x < a.len() implies a[x] == b[x] by {
                if x < out@.len() {
                    assert(line_seqs(out@)[x] == item_lines(
                        ls,
                        from as int,
                        k as int,
                        w as int,
                    )[x]);
                }
            }
            assert(a =~= b);
        }
        out.push(line);
        k += 1;
    }
    out
}

/// Reads the title that a line holds alone.
pub fn read_wrapped_title(l: &Vec<char>) -> (r: Option<String>)
    ensures
        opt_chars(r) == wrapped_title(l@),
{
    let (a, b) = trim_bounds(l, 0, l.len());
    if b - a >= 2 && l[a] == '"' && l[b - 1] == '"' {
        Some(string_of(l, a + 1, b - 1))
    } else {
        None
    }
}

/// Parses the list that begins at line `i`: its items and the index of the
/// line after it.
pub(crate) fn parse_list(lines: &Vec<Vec<char>>, i: usize, inner: usize) -> (r: (
    Vec<ListItem>,
    usize,
))
    requires
        i < lines.len(),
        list_mark(line_seqs(lines@)[i as int]) is Some,
    ensures
        items_view(r.0@) == list_items(line_seqs(lines@), i as int, false, inner as nat),
        r.1 == list_end(line_seqs(lines@), i as int),
    decreases inner, 3nat, 0nat,
{
    let ghost ls = line_seqs(lines@);
    let mut items: Vec<ListItem> = Vec::new();
    let mut p: usize = i;
    let mut loose_before = false;
    assert(items_view(items@) =~= Seq::<ListItemView>::empty());
    loop
        invariant
            i <= p < lines.len(),
            ls == line_seqs(lines@),
            list_mark(ls[p as int]) is Some,
            items_view(items@) + list_items(ls, p as int, loose_before, inner as nat)
                =~= list_items(ls, i as int, false, inner as nat),
            list_end(ls, p as int) == list_end(ls, i as int),
        decreases lines.len() - p,
    {
        let (ordered, w) = match find_list_mark(&lines[p]) {
            Some(mark) => mark,
            None => (false, 0),
        };
        let e = find_item_stop(lines, p + 1, w);
        let b = find_not_blank(lines, e);
        let more = b < lines.len() && match find_list_mark(&lines[b]) {
            Some((o, _)) => o == ordered,
            None => false,
        };
        let loose_after = more && b > e;
        let content = collect_item_lines(lines, p, e, w);
        let item = if loose_before || loose_after {
            let r = ListItem::Paragraph(parse_lines(&content, inner));
            proof {
                lemma_item_view(r);
            }
            r
        } else {
            let text = join(&content, 0, content.len());
            proof {
                assert(line_seqs(content@).subrange(0, content.len() as int) =~= line_seqs(
                    content@,
                ));
            }
            ListItem::Simple(parse_range(&text, 0, text.len(), SPAN_DEPTH))
        };
        proof {
            assert(more == continues(ls, p as int));
            lemma_items_view_push(items@, item);
            lemma_item_bounds(ls, p as int);
        }
        items.push(item);
        if !more {
            return (items, e);
        }
        p = b;
        loose_before = loose_after;
    }
}

/// Parses the block that begins at line `i`: the block and the index of
/// the line after it.
pub(crate) fn parse_block(lines: &Vec<Vec<char>>, i: usize, inner: usize) -> (r: (Block, usize))
    requires
        i < lines.len(),
    ensures
        r.0@ == block_node(line_seqs(lines@), i as int, inner as nat),
        r.1 == block_end(line_seqs(lines@), i as int),
        i < r.1 <= lines.len(),
    decreases inner, 4nat, 0nat,
{
    let ghost ls = line_seqs(lines@);
    proof {
        lemma_block_end(ls, i as int);
    }
    let l = &lines[i];
    let n = l.len();
    match classify(l) {
        BlockKind::Header => {
            let level = find_run_end(l, '#', 0, n);
            let (a, b) = trim_bounds(l, level, n);
            (Block::Header(parse_range(l, a, b, SPAN_DEPTH), level), i + 1)
        },
        BlockKind::Rule => (Block::Hr, i + 1),
        BlockKind::Fence => {
            let c: char = l[0];
            let fence_end = find_run_end(l, c, 0, n);
            let (a, b) = trim_bounds(l, fence_end, n);
            let language = if a < b {
                Some(string_of(l, a, b))
            } else {
                None
            };
            let close = find_fence_close(lines, i + 1, c);
            let body = join(lines, i + 1, close);
            let block = Block::CodeBlock(language, string_of(&body, 0, body.len()));
            proof {
                assert(body@.subrange(0, body.len() as int) =~= body@);
            }
            if close < lines.len() {
                (block, close + 1)
            } else {
                (block, close)
            }
        },
        BlockKind::Quote => {
            let e = find_quote_end(lines, i);
            let content = unquote_lines(lines, i, e);
            let block = Block::Blockquote(parse_lines(&content, inner));
            proof {
                lemma_block_view(block);
            }
            (block, e)
        },
        BlockKind::Definition => {
            let c = find_char(l, ']', 1, n);
            let id = string_of(l, 1, c);
            let (url, title) = read_target(l, c + 2, n);
            if title.is_none() && i + 1 < lines.len() {
                let wrapped = read_wrapped_title(&lines[i + 1]);
                if wrapped.is_some() {
                    return (Block::LinkReference(id, url, wrapped), i + 2);
                }
            }
            (Block::LinkReference(id, url, title), i + 1)
        },
        BlockKind::List => {
            let (ordered, w) = match find_list_mark(l) {
                Some(mark) => mark,
                None => (false, 2),
            };
            let (items, e) = parse_list(lines, i, inner);
            let block = if ordered {
                let name = string_of(l, 0, w - 2);
                Block::OrderedList(items, OrderedListType::from_str(name.as_str()))
            } else {
                Block::UnorderedList(items)
            };
            proof {
                lemma_block_view(block);
            }
            (block, e)
        },
        BlockKind::Paragraph => {
            let e = find_paragraph_end(lines, i + 1);
            let text = join(lines, i, e);
            (Block::Paragraph(parse_range(&text, 0, text.len(), SPAN_DEPTH)), e)
        },
    }
}

/// Parses a sequence of lines into blocks, `depth` levels deep.
pub fn parse_lines(lines: &Vec<Vec<char>>, depth: usize) -> (r: Vec<Block>)
    ensures
        blocks_view(r@) == blocks_of(line_seqs(lines@), depth as nat),
    decreases depth, 2nat, 0nat,
{
    let ghost ls = line_seqs(lines@);
    let mut out: Vec<Block> = Vec::new();
    assert(blocks_view(out@) =~= Seq::<BlockView>::empty());
    if depth == 0 {
        if lines.len() > 0 {
            let text = join(lines, 0, lines.len());
            let block = Block::Raw(string_of(&text, 0, text.len()));
            proof {
                assert(ls.subrange(0, lines.len() as int) =~= ls);
                assert(text@.subrange(0, text.len() as int) =~= text@);
                lemma_blocks_view_push(out@, block);
                assert(blocks_view(out@.push(block)) =~= seq![block@]);
            }
            out.push(block);
        }
        return out;
    }
    let mut i: usize = 0;
    while i < lines.len()
        invariant
            i <= lines.len(),
            depth > 0,
            ls == line_seqs(lines@),
            blocks_view(out@) + blocks_from(ls, i as int, depth as nat) =~= blocks_from(
                ls,
                0,
                depth as nat,
            ),
        decreases lines.len() - i,
    {
        if is_blank_line(&lines[i]) {
            i += 1;
        } else {
            let (block, next) = parse_block(lines, i, depth - 1);
            proof {
                lemma_blocks_view_push(out@, block);
            }
            out.push(block);
            i = next;
        }
    }
    out
}

/// Parses a document into blocks.
pub fn parse_blocks(md: &str) -> (r: Vec<Block>)
    ensures
        blocks_view(r@) == document(md@),
{
    let chars = chars_of(md);
    let lines = split_lines(&chars);
    parse_lines(&lines, BLOCK_DEPTH)
}


/// Loose items: where a blank line parts the item at line `p` from the
/// next item of its list, both items hold blocks.
pub proof fn lemma_blank_line_makes_items_loose(
    ls: Seq<Seq<char>>,
    p: int,
    loose_before: bool,
    inner: nat,
)
    requires
        0 <= p < ls.len(),
        continues(ls, p),
        item_stop(ls, p) < next_item(ls, p),
    ensures
        list_items(ls, p, loose_before, inner).len() >= 2,
        list_items(ls, p, loose_before, inner)[0] is Paragraph,
        list_items(ls, p, loose_before, inner)[1] is Paragraph,
{
    lemma_item_bounds(ls, p);
    let b = next_item(ls, p);
    let rest = list_items(ls, b, true, inner);
    assert(rest.len() >= 1 && rest[0] is Paragraph);
    assert(list_items(ls, p, loose_before, inner)[1] == rest[0]);
}

/// Without a blank line before or after it, an item holds spans.
pub proof fn lemma_tight_item_is_simple(ls: Seq<Seq<char>>, p: int, inner: nat)
    requires
        0 <= p < ls.len(),
        !(continues(ls, p) && item_stop(ls, p) < next_item(ls, p)),
    ensures
        list_items(ls, p, false, inner).len() >= 1,
        list_items(ls, p, false, inner)[0] is Simple,
{
}

/// List style: a list whose first line begins with `a. ` is an ordered
/// list in the style `Lowercase`.
pub proof fn lemma_list_style_of_first_marker(ls: Seq<Seq<char>>, i: int, inner: nat)
    requires
        0 <= i < ls.len(),
        ls[i].len() >= 3,
        ls[i][0] == 'a',
        ls[i][1] == '.',
        ls[i][2] == ' ',
    ensures
        block_node(ls, i, inner) matches BlockView::OrderedList(_, style) && style
            == OrderedListType::Lowercase,
{
    let l = ls[i];
    assert(digits_end(l, 0) == 0);
    assert(list_mark(l) == Some((true, 3int)));
    assert(l.subrange(0, 1) =~= seq!['a']);
}

/// The style of an ordered list is read off the marker of its first line.
pub proof fn lemma_list_style(ls: Seq<Seq<char>>, i: int, inner: nat)
    requires
        0 <= i < ls.len(),
        kind_of(ls[i]) == BlockKind::List,
        mark_ordered(ls[i]),
    ensures
        block_node(ls, i, inner) matches BlockView::OrderedList(_, style) && style
            == OrderedListType::of_marker(ls[i].subrange(0, mark_width(ls[i]) - 2)),
{
}


/// The level of a header is the number of `#` that its line begins with,
/// and at least 1.
pub proof fn lemma_header_level(ls: Seq<Seq<char>>, i: int, inner: nat)
    requires
        0 <= i < ls.len(),
    ensures
        block_node(ls, i, inner) matches BlockView::Header(_, level) ==> level >= 1 && level
            == header_level(ls[i]) && level <= ls[i].len(),
{
    lemma_run_end(ls[i], '#', 0, ls[i].len() as int);
}


/// Letter markers: a line that begins with one letter, a `.` and a blank
/// begins or continues an ordered list, whatever the letter.
pub proof fn lemma_letter_is_a_marker(l: Seq<char>)
    requires
        l.len() >= 3,
        is_letter(l[0]),
        l[1] == '.',
        l[2] == ' ',
    ensures
        list_mark(l) == Some((true, 3int)),
        kind_of(l) == BlockKind::List,
{
    assert(digits_end(l, 0) == 0);
}


/// Tight items: a line with a marker that directly follows a line with a
/// marker of the same family is the next item of the same list, and the
/// item before it takes its one line and holds spans.
pub proof fn lemma_next_line_continues_list(ls: Seq<Seq<char>>, p: int, inner: nat)
    requires
        0 <= p,
        p + 1 < ls.len(),
        list_mark(ls[p]) is Some,
        list_mark(ls[p + 1]) is Some,
        mark_ordered(ls[p]) == mark_ordered(ls[p + 1]),
    ensures
        item_stop(ls, p) == p + 1,
        next_item(ls, p) == p + 1,
        continues(ls, p),
        list_end(ls, p) == list_end(ls, p + 1),
        list_items(ls, p, false, inner)[0] == ListItemView::Simple(
            spans_of(join_lines(item_lines(ls, p, p + 1, mark_width(ls[p])))),
        ),
        list_items(ls, p, false, inner) == seq![list_items(ls, p, false, inner)[0]] + list_items(
            ls,
            p + 1,
            false,
            inner,
        ),
{
    let next = ls[p + 1];
    let w = mark_width(ls[p]);
    assert(next.len() >= 2 && !is_space(next[0]));
    assert(!is_blank(next));
    assert(run_end(next, ' ', 0, next.len() as int) == 0);
    assert(w >= 2);
    assert(ends_item(w)(next));
    assert(not_blank()(next));
}

} // verus!
