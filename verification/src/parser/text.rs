//! Characters and strings: the text model that the parsers work on.

use vstd::prelude::*;
use vstd::string::StringSliceAdditionalSpecFns;
use vstd::utf8::*;

verus! {

/// `String::push` appends one character to the string.
pub assume_specification[ String::push ](s: &mut String, c: char)
    ensures
        final(s)@ == old(s)@.push(c),
;

/// The characters of a string slice, in order.
pub fn chars_of(text: &str) -> (v: Vec<char>)
    ensures
        v@ == text@,
{
    let mut v: Vec<char> = Vec::new();
    for c in it: text.chars()
        invariant
            it.seq() == text@,
            v@ == it.seq().take(it.index()),
    {
        v.push(c);
    }
    v
}

/// The string made of the characters `chars[from..to]`.
pub(crate) fn string_of(chars: &Vec<char>, from: usize, to: usize) -> (s: String)
    requires
        from <= to <= chars.len(),
    ensures
        s@ == chars@.subrange(from as int, to as int),
{
    let mut s = String::new();
    let mut i: usize = from;
    while i < to
        invariant
            from <= i <= to <= chars.len(),
            s@ == chars@.subrange(from as int, i as int),
        decreases to - i,
    {
        s.push(chars[i]);
        i += 1;
    }
    s
}


/// Whether `c` is white space: a character with the Unicode property
/// `White_Space`.
pub open spec fn is_space(c: char) -> bool {
    let n = c as u32;
    ||| 0x09 <= n <= 0x0D
    ||| n == 0x20
    ||| n == 0x85
    ||| n == 0xA0
    ||| n == 0x1680
    ||| 0x2000 <= n <= 0x200A
    ||| n == 0x2028
    ||| n == 0x2029
    ||| n == 0x202F
    ||| n == 0x205F
    ||| n == 0x3000
}

/// Tests a character for white space.
pub fn is_whitespace(c: char) -> (r: bool)
    ensures
        r == is_space(c),
{
    let n: u32 = c as u32;
    (0x09 <= n && n <= 0x0D) || n == 0x20 || n == 0x85 || n == 0xA0 || n == 0x1680 || (0x2000 <= n
        && n <= 0x200A) || n == 0x2028 || n == 0x2029 || n == 0x202F || n == 0x205F || n == 0x3000
}

/// The first index in `lo..hi` that holds no white space, or `hi`.
pub open spec fn skip_space(s: Seq<char>, lo: int, hi: int) -> int
    decreases hi - lo,
{
    if lo < hi && 0 <= lo < s.len() && is_space(s[lo]) {
        skip_space(s, lo + 1, hi)
    } else {
        lo
    }
}

/// The end of the last character in `lo..hi` that is no white space, or `lo`.
pub open spec fn skip_space_back(s: Seq<char>, lo: int, hi: int) -> int
    decreases hi - lo,
{
    if lo < hi && 0 < hi <= s.len() && is_space(s[hi - 1]) {
        skip_space_back(s, lo, hi - 1)
    } else {
        hi
    }
}

/// The bounds of `lo..hi` without the white space at its two ends.
pub open spec fn trim_range(s: Seq<char>, lo: int, hi: int) -> (int, int) {
    let a = skip_space(s, lo, hi);
    (a, skip_space_back(s, a, hi))
}

/// `s` without the white space at its two ends.
pub open spec fn trim(s: Seq<char>) -> Seq<char> {
    let (a, b) = trim_range(s, 0, s.len() as int);
    s.subrange(a, b)
}

/// Whether `s` is not empty and neither begins nor ends with white space.
pub open spec fn is_trimmed(s: Seq<char>) -> bool {
    s.len() > 0 && !is_space(s[0]) && !is_space(s[s.len() - 1])
}

/// Whether every character of `s` is white space.
pub open spec fn is_blank(s: Seq<char>) -> bool {
    forall|i: int| 0 <= i < s.len() ==> is_space(#[trigger] s[i])
}

/// What `skip_space` returns: it lies in `lo..=hi`, only white space lies
/// before it, and none stands at it.
pub proof fn lemma_skip_space(s: Seq<char>, lo: int, hi: int)
    requires
        0 <= lo <= hi <= s.len(),
    ensures
        lo <= skip_space(s, lo, hi) <= hi,
        forall|k: int| lo <= k < skip_space(s, lo, hi) ==> is_space(#[trigger] s[k]),
        skip_space(s, lo, hi) < hi ==> !is_space(s[skip_space(s, lo, hi)]),
    decreases hi - lo,
{
    if lo < hi && is_space(s[lo]) {
        lemma_skip_space(s, lo + 1, hi);
    }
}

/// What `skip_space_back` returns: it lies in `lo..=hi`, only white space
/// lies after it, and none stands just before it.
pub proof fn lemma_skip_space_back(s: Seq<char>, lo: int, hi: int)
    requires
        0 <= lo <= hi <= s.len(),
    ensures
        lo <= skip_space_back(s, lo, hi) <= hi,
        forall|k: int| skip_space_back(s, lo, hi) <= k < hi ==> is_space(#[trigger] s[k]),
        lo < skip_space_back(s, lo, hi) ==> !is_space(s[skip_space_back(s, lo, hi) - 1]),
    decreases hi - lo,
{
    if lo < hi && is_space(s[hi - 1]) {
        lemma_skip_space_back(s, lo, hi - 1);
    }
}

/// Skipping white space in a part of `s` is skipping it in `s` between the
/// part's bounds.
pub proof fn lemma_skip_space_subrange(s: Seq<char>, lo: int, hi: int, i: int, j: int)
    requires
        0 <= lo <= hi <= s.len(),
        0 <= i <= j <= hi - lo,
    ensures
        skip_space(s.subrange(lo, hi), i, j) + lo == skip_space(s, lo + i, lo + j),
        skip_space_back(s.subrange(lo, hi), i, j) + lo == skip_space_back(s, lo + i, lo + j),
    decreases j - i,
{
    let t = s.subrange(lo, hi);
    if i < j {
        assert(t[i] == s[lo + i]);
        assert(t[j - 1] == s[lo + j - 1]);
        lemma_skip_space_subrange(s, lo, hi, i + 1, j);
        lemma_skip_space_subrange(s, lo, hi, i, j - 1);
    }
}

/// Trimming a part of `s` gives the part of `s` between the trimmed bounds.
pub proof fn lemma_trim_subrange(s: Seq<char>, lo: int, hi: int)
    requires
        0 <= lo <= hi <= s.len(),
    ensures
        lo <= trim_range(s, lo, hi).0 <= trim_range(s, lo, hi).1 <= hi,
        trim(s.subrange(lo, hi)) == s.subrange(trim_range(s, lo, hi).0, trim_range(s, lo, hi).1),
{
    let t = s.subrange(lo, hi);
    let a = skip_space(t, 0, hi - lo);
    lemma_skip_space(t, 0, hi - lo);
    lemma_skip_space(s, lo, hi);
    lemma_skip_space_subrange(s, lo, hi, 0, hi - lo);
    lemma_skip_space_back(t, a, hi - lo);
    lemma_skip_space_back(s, lo + a, hi);
    lemma_skip_space_subrange(s, lo, hi, a, hi - lo);
    let b = skip_space_back(t, a, hi - lo);
    assert(t.subrange(a, b) =~= s.subrange(lo + a, lo + b));
}

/// A trimmed text is empty or begins and ends with something else than
/// white space; trimming it again changes nothing.
pub proof fn lemma_trim_is_trimmed(s: Seq<char>)
    ensures
        trim(s).len() == 0 || is_trimmed(trim(s)),
        trim(trim(s)) == trim(s),
        trim(s).len() == 0 <==> is_blank(s),
{
    let n = s.len() as int;
    lemma_skip_space(s, 0, n);
    let a = skip_space(s, 0, n);
    lemma_skip_space_back(s, a, n);
    let b = skip_space_back(s, a, n);
    let t = s.subrange(a, b);
    if a < b {
        assert(!is_space(s[b - 1]));
        assert(t[0] == s[a]);
        assert(t[t.len() - 1] == s[b - 1]);
        lemma_trimmed_fixed(t);
    } else {
        assert(t =~= Seq::<char>::empty());
        assert(trim(t) =~= t);
        if a < n {
            assert(!is_space(s[a]));
        }
    }
}

/// Trimming leaves a text unchanged that neither begins nor ends with white
/// space.
pub proof fn lemma_trimmed_fixed(s: Seq<char>)
    requires
        s.len() == 0 || is_trimmed(s),
    ensures
        trim(s) == s,
{
    assert(trim(s) =~= s);
}

/// The first index at or after `from` at which `c` stands in `s[..hi]`, or
/// `hi`.
pub open spec fn index_of(s: Seq<char>, c: char, from: int, hi: int) -> int
    decreases hi - from,
{
    if from < hi && 0 <= from < s.len() && s[from] != c {
        index_of(s, c, from + 1, hi)
    } else {
        from
    }
}

/// What `index_of` returns: it lies in `from..=hi`, `c` does not stand
/// before it, and stands at it unless it is `hi`.
pub proof fn lemma_index_of(s: Seq<char>, c: char, from: int, hi: int)
    requires
        0 <= from <= hi <= s.len(),
    ensures
        from <= index_of(s, c, from, hi) <= hi,
        forall|k: int| from <= k < index_of(s, c, from, hi) ==> #[trigger] s[k] != c,
        index_of(s, c, from, hi) < hi ==> s[index_of(s, c, from, hi)] == c,
    decreases hi - from,
{
    if from < hi && s[from] != c {
        lemma_index_of(s, c, from + 1, hi);
    }
}

/// Skips the white space at the start of `chars[lo..hi]`.
pub(crate) fn skip_whitespace(chars: &Vec<char>, lo: usize, hi: usize) -> (r: usize)
    requires
        lo <= hi <= chars.len(),
    ensures
        r == skip_space(chars@, lo as int, hi as int),
        lo <= r <= hi,
{
    let mut i: usize = lo;
    while i < hi && is_whitespace(chars[i])
        invariant
            lo <= i <= hi <= chars.len(),
            skip_space(chars@, i as int, hi as int) == skip_space(chars@, lo as int, hi as int),
        decreases hi - i,
    {
        i += 1;
    }
    i
}

/// Skips the white space at the end of `chars[lo..hi]`.
pub(crate) fn skip_whitespace_back(chars: &Vec<char>, lo: usize, hi: usize) -> (r: usize)
    requires
        lo <= hi <= chars.len(),
    ensures
        r == skip_space_back(chars@, lo as int, hi as int),
        lo <= r <= hi,
{
    let mut j: usize = hi;
    while lo < j && is_whitespace(chars[j - 1])
        invariant
            lo <= j <= hi <= chars.len(),
            skip_space_back(chars@, lo as int, j as int) == skip_space_back(
                chars@,
                lo as int,
                hi as int,
            ),
        decreases j - lo,
    {
        j -= 1;
    }
    j
}

/// The bounds of `chars[lo..hi]` without the white space at its two ends.
pub(crate) fn trim_bounds(chars: &Vec<char>, lo: usize, hi: usize) -> (r: (usize, usize))
    requires
        lo <= hi <= chars.len(),
    ensures
        (r.0 as int, r.1 as int) == trim_range(chars@, lo as int, hi as int),
        lo <= r.0 <= r.1 <= hi,
        chars@.subrange(r.0 as int, r.1 as int) == trim(chars@.subrange(lo as int, hi as int)),
{
    let a = skip_whitespace(chars, lo, hi);
    let b = skip_whitespace_back(chars, a, hi);
    proof {
        lemma_trim_subrange(chars@, lo as int, hi as int);
    }
    (a, b)
}

/// Finds the first `c` in `chars[from..hi]`.
pub(crate) fn find_char(chars: &Vec<char>, c: char, from: usize, hi: usize) -> (r: usize)
    requires
        from <= hi <= chars.len(),
    ensures
        r == index_of(chars@, c, from as int, hi as int),
        from <= r <= hi,
{
    let mut i: usize = from;
    while i < hi && chars[i] != c
        invariant
            from <= i <= hi <= chars.len(),
            index_of(chars@, c, i as int, hi as int) == index_of(chars@, c, from as int, hi as int),
        decreases hi - i,
    {
        i += 1;
    }
    i
}


/// Whether `from..to` is a range of bytes of the UTF-8 encoding of `text`
/// that begins and ends between two characters.
pub open spec fn is_byte_range(text: Seq<char>, from: int, to: int) -> bool {
    let bytes = encode_utf8(text);
    0 <= from <= to <= bytes.len() && is_char_boundary(bytes, from) && is_char_boundary(bytes, to)
}

/// The characters that the bytes `from..to` of the UTF-8 encoding of `text`
/// spell.
pub open spec fn byte_range(text: Seq<char>, from: int, to: int) -> Seq<char> {
    decode_utf8(encode_utf8(text).subrange(from, to))
}

/// The part of `text` between two byte offsets, where they are a range of
/// whole characters.
pub fn slice_bytes<'a>(text: &'a str, from: usize, to: usize) -> (r: Option<&'a str>)
    ensures
        r is Some <==> is_byte_range(text@, from as int, to as int),
        r matches Some(s) ==> s@ == byte_range(text@, from as int, to as int),
{
    broadcast use group_utf8_lib;

    let size = text.as_bytes().len();
    if from <= to && to <= size && text.is_char_boundary(from) && text.is_char_boundary(to) {
        let ghost bytes = encode_utf8(text@);
        let (head, _) = text.split_at(to);
        proof {
            assert(valid_utf8(bytes));
            assert(head.spec_bytes() == bytes.subrange(0, to as int));
            assert(valid_utf8(bytes.subrange(0, to as int)));
            if from < to {
                assert(bytes.subrange(0, to as int)[from as int] == bytes[from as int]);
                is_char_boundary_iff_not_is_continuation_byte(bytes, from as int);
                is_char_boundary_iff_not_is_continuation_byte(
                    bytes.subrange(0, to as int),
                    from as int,
                );
            } else {
                is_char_boundary_start_end_of_seq(bytes.subrange(0, to as int));
            }
        }
        let (_, mid) = head.split_at(from);
        proof {
            assert(mid.spec_bytes() =~= bytes.subrange(from as int, to as int));
            encode_utf8_decode_utf8(mid@);
        }
        Some(mid)
    } else {
        None
    }
}


/// The end of the run of `c` that begins at `from`: the first index at or
/// after `from` at which something else stands in `s[..hi]`, or `hi`.
pub open spec fn run_end(s: Seq<char>, c: char, from: int, hi: int) -> int
    decreases hi - from,
{
    if from < hi && 0 <= from < s.len() && s[from] == c {
        run_end(s, c, from + 1, hi)
    } else {
        from
    }
}

/// What `run_end` returns: it lies in `from..=hi`, only `c` stands before
/// it, and something else stands at it unless it is `hi`.
pub proof fn lemma_run_end(s: Seq<char>, c: char, from: int, hi: int)
    requires
        0 <= from <= hi <= s.len(),
    ensures
        from <= run_end(s, c, from, hi) <= hi,
        forall|k: int| from <= k < run_end(s, c, from, hi) ==> #[trigger] s[k] == c,
        run_end(s, c, from, hi) < hi ==> s[run_end(s, c, from, hi)] != c,
    decreases hi - from,
{
    if from < hi && s[from] == c {
        lemma_run_end(s, c, from + 1, hi);
    }
}

/// Finds the end of the run of `c` that begins at `from`.
pub(crate) fn find_run_end(chars: &Vec<char>, c: char, from: usize, hi: usize) -> (r: usize)
    requires
        from <= hi <= chars.len(),
    ensures
        r == run_end(chars@, c, from as int, hi as int),
        from <= r <= hi,
{
    let mut i: usize = from;
    while i < hi && chars[i] == c
        invariant
            from <= i <= hi <= chars.len(),
            run_end(chars@, c, i as int, hi as int) == run_end(chars@, c, from as int, hi as int),
        decreases hi - i,
    {
        i += 1;
    }
    i
}

} // verus!
