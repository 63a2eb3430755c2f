//! The image construct: `![alt](url "title" =WIDTHxHEIGHT)`.

use crate::parser::matcher::{find_groups, group_ranges};
use crate::parser::text::{byte_range, is_byte_range, slice_bytes};
use crate::parser::{size_of_text, ObjectSize, Span, SpanView};
use vstd::prelude::*;

verus! {

/// The pattern of an image at the start of a text. Its groups are, in
/// order: the alternative text, the url, the title and the size.
pub const IMAGE_PATTERN: &'static str =
    "^!\\[(?P<text>.*?)\\]\\((?P<url>.*?)(?:\\s\"(?P<title>.*?)\")?(?:\\s=(?P<size>[0-9xX%]*))?\\)";

/// The text of group `i`, where the group took part in the match and its
/// range lies in the text.
pub open spec fn group_text(text: Seq<char>, groups: Seq<Option<(usize, usize)>>, i: int) -> Option<
    Seq<char>,
> {
    if 0 <= i < groups.len() {
        match groups[i] {
            Some((from, to)) => if is_byte_range(text, from as int, to as int) {
                Some(byte_range(text, from as int, to as int))
            } else {
                None
            },
            None => None,
        }
    } else {
        None
    }
}

/// The byte range of the whole match, where the match begins at the start
/// of the text and its range lies in the text.
pub open spec fn match_at_start(text: Seq<char>, groups: Seq<Option<(usize, usize)>>) -> Option<
    usize,
> {
    if groups.len() > 0 {
        match groups[0] {
            Some((from, to)) => if from == 0 && is_byte_range(text, 0, to as int) {
                Some(to)
            } else {
                None
            },
            None => None,
        }
    } else {
        None
    }
}

/// A group's text, or the empty text for an absent group.
pub open spec fn text_or_empty(t: Option<Seq<char>>) -> Seq<char> {
    match t {
        Some(s) => s,
        None => Seq::<char>::empty(),
    }
}

/// The image that the groups of a match describe, with the number of bytes
/// that the match takes: none unless the match begins at the start of the
/// text.
pub open spec fn image_of_groups(text: Seq<char>, groups: Seq<Option<(usize, usize)>>) -> Option<
    (SpanView, usize),
> {
    match match_at_start(text, groups) {
        Some(end) => {
            let size = match group_text(text, groups, 4) {
                Some(s) => size_of_text(s),
                None => None,
            };
            Some(
                (
                    SpanView::Image(
                        text_or_empty(group_text(text, groups, 1)),
                        text_or_empty(group_text(text, groups, 2)),
                        group_text(text, groups, 3),
                        size,
                    ),
                    end,
                ),
            )
        },
        None => None,
    }
}

/// The image at the start of `text`, with its length in bytes.
pub open spec fn image_match(text: Seq<char>) -> Option<(SpanView, usize)> {
    match group_ranges(IMAGE_PATTERN@, text) {
        Some(groups) => image_of_groups(text, groups),
        None => None,
    }
}

/// The model of a recognised span and the length that it takes.
pub open spec fn match_view(r: Option<(Span, usize)>) -> Option<(SpanView, usize)> {
    match r {
        Some((span, len)) => Some((span@, len)),
        None => None,
    }
}

/// The text of group `i` of a match.
pub fn group_str<'a>(text: &'a str, groups: &Vec<Option<(usize, usize)>>, i: usize) -> (r: Option<
    &'a str,
>)
    ensures
        r is Some <==> group_text(text@, groups@, i as int) is Some,
        r matches Some(s) ==> group_text(text@, groups@, i as int) == Some(s@),
{
    if i < groups.len() {
        match groups[i] {
            Some((from, to)) => slice_bytes(text, from, to),
            None => None,
        }
    } else {
        None
    }
}

/// Builds the image from the groups of a match of [`IMAGE_PATTERN`] in
/// `text`.
pub fn image_from_groups(text: &str, groups: &Vec<Option<(usize, usize)>>) -> (r: Option<
    (Span, usize),
>)
    ensures
        match_view(r) == image_of_groups(text@, groups@),
{
    let whole = group_str(text, groups, 0);
    if whole.is_none() {
        return None;
    }
    let (start, end) = match groups[0] {
        Some(range) => range,
        None => (0, 0),
    };
    if start != 0 {
        return None;
    }
    let alt = match group_str(text, groups, 1) {
        Some(s) => s.to_owned(),
        None => String::new(),
    };
    let url = match group_str(text, groups, 2) {
        Some(s) => s.to_owned(),
        None => String::new(),
    };
    let title = match group_str(text, groups, 3) {
        Some(s) => Some(s.to_owned()),
        None => None,
    };
    let size = match group_str(text, groups, 4) {
        Some(s) => ObjectSize::from_text(s),
        None => None,
    };
    Some((Span::Image(alt, url, title, size), end))
}

/// Recognises an image at the very start of `text`: the span and the
/// number of bytes of `text` that it takes.
pub fn parse_image(text: &str) -> (r: Option<(Span, usize)>)
    ensures
        match_view(r) == image_match(text@),
{
    match find_groups(IMAGE_PATTERN, text) {
        Some(groups) => image_from_groups(text, &groups),
        None => None,
    }
}

/// An image is recognised only where the match begins at the first byte of
/// the text, and what it takes is a range of whole characters of the text.
pub proof fn lemma_image_at_start(text: Seq<char>, groups: Seq<Option<(usize, usize)>>)
    requires
        image_of_groups(text, groups) is Some,
    ensures
        image_of_groups(text, groups) matches Some((_, end)) && groups[0] == Some((0usize, end))
            && is_byte_range(text, 0, end as int),
{
}

/// An image that the pattern finds takes a range of whole characters from
/// the first byte of the text on.
pub proof fn lemma_image_match_at_start(text: Seq<char>)
    requires
        image_match(text) is Some,
    ensures
        image_match(text) matches Some((_, end)) && is_byte_range(text, 0, end as int),
{
    lemma_image_at_start(text, group_ranges(IMAGE_PATTERN@, text)->0);
}

} // verus!
