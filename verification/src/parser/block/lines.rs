//! Lines: how a text is cut into lines, and how lines are joined again.

use crate::parser::text::{find_char, index_of, lemma_index_of};
use vstd::prelude::*;

verus! {

/// The character sequences of a sequence of lines, one for one.
pub open spec fn line_seqs(v: Seq<Vec<char>>) -> Seq<Seq<char>> {
    Seq::new(v.len(), |i: int| v[i]@)
}

/// The line `s[from..to]`, without the carriage return at its end.
pub open spec fn line_of(s: Seq<char>, from: int, to: int) -> Seq<char> {
    if from < to && s[to - 1] == '\r' {
        s.subrange(from, to - 1)
    } else {
        s.subrange(from, to)
    }
}

/// The lines of `s[from..]`: each ends before a line feed or at the end of
/// the text; the empty text has no line.
pub open spec fn lines_from(s: Seq<char>, from: int) -> Seq<Seq<char>>
    decreases s.len() + 1 - from,
{
    if from < 0 || from >= s.len() {
        Seq::<Seq<char>>::empty()
    } else {
        proof {
            lemma_index_of(s, '\n', from, s.len() as int);
        }
        let end = index_of(s, '\n', from, s.len() as int);
        seq![line_of(s, from, end)] + lines_from(s, end + 1)
    }
}

/// The lines of a text.
pub open spec fn lines_of(s: Seq<char>) -> Seq<Seq<char>> {
    lines_from(s, 0)
}

/// Lines as one text, with a line feed between each two.
pub open spec fn join_lines(ls: Seq<Seq<char>>) -> Seq<char>
    decreases ls.len(),
{
    if ls.len() == 0 {
        Seq::<char>::empty()
    } else if ls.len() == 1 {
        ls[0]
    } else {
        join_lines(ls.drop_last()) + seq!['\n'] + ls.last()
    }
}

/// The first index at or after `from` of a line that meets `stop`, or the
/// number of lines.
pub open spec fn first_line(ls: Seq<Seq<char>>, from: int, stop: spec_fn(Seq<char>) -> bool) -> int
    decreases ls.len() - from,
{
    if 0 <= from < ls.len() && !stop(ls[from]) {
        first_line(ls, from + 1, stop)
    } else {
        from
    }
}

/// What `first_line` returns: it lies in `from..=ls.len()`, no line before
/// it meets `stop`, and the line at it does unless it is the number of
/// lines.
pub proof fn lemma_first_line(ls: Seq<Seq<char>>, from: int, stop: spec_fn(Seq<char>) -> bool)
    requires
        0 <= from <= ls.len(),
    ensures
        from <= first_line(ls, from, stop) <= ls.len(),
        forall|k: int| from <= k < first_line(ls, from, stop) ==> !stop(#[trigger] ls[k]),
        first_line(ls, from, stop) < ls.len() ==> stop(ls[first_line(ls, from, stop)]),
    decreases ls.len() - from,
{
    if from < ls.len() && !stop(ls[from]) {
        lemma_first_line(ls, from + 1, stop);
    }
}

/// A copy of `chars[from..to]`.
pub(crate) fn vec_of(chars: &Vec<char>, from: usize, to: usize) -> (r: Vec<char>)
    requires
        from <= to <= chars.len(),
    ensures
        r@ == chars@.subrange(from as int, to as int),
{
    let mut r: Vec<char> = Vec::new();
    let mut i: usize = from;
    while i < to
        invariant
            from <= i <= to <= chars.len(),
            r@ == chars@.subrange(from as int, i as int),
        decreases to - i,
    {
        r.push(chars[i]);
        i += 1;
    }
    r
}

/// Cuts a text into its lines.
pub fn split_lines(chars: &Vec<char>) -> (r: Vec<Vec<char>>)
    ensures
        line_seqs(r@) == lines_of(chars@),
{
    let n = chars.len();
    let mut out: Vec<Vec<char>> = Vec::new();
    let mut pos: usize = 0;
    assert(line_seqs(out@) =~= Seq::<Seq<char>>::empty());
    while pos < n
        invariant
            pos <= n == chars.len(),
            line_seqs(out@) + lines_from(chars@, pos as int) =~= lines_of(chars@),
        decreases n - pos,
    {
        let end = find_char(chars, '\n', pos, n);
        let stop = if pos < end && chars[end - 1] == '\r' {
            end - 1
        } else {
            end
        };
        let line = vec_of(chars, pos, stop);
        proof {
            assert(line@ == line_of(chars@, pos as int, end as int));
            assert(lines_from(chars@, pos as int) == seq![line@] + lines_from(
                chars@,
                end as int + 1,
            ));
            assert(lines_from(chars@, n as int + 1) == lines_from(chars@, n as int));
            assert(line_seqs(out@.push(line)) =~= line_seqs(out@).push(line@));
        }
        out.push(line);
        pos = if end < n {
            end + 1
        } else {
            n
        };
    }
    out
}

/// Joins the lines `lines[from..to]`, with a line feed between each two.
pub(crate) fn join(lines: &Vec<Vec<char>>, from: usize, to: usize) -> (r: Vec<char>)
    requires
        from <= to <= lines.len(),
    ensures
        r@ == join_lines(line_seqs(lines@).subrange(from as int, to as int)),
{
    let mut r: Vec<char> = Vec::new();
    let mut i: usize = from;
    let ghost ls = line_seqs(lines@);
    while i < to
        invariant
            from <= i <= to <= lines.len(),
            ls == line_seqs(lines@),
            r@ == join_lines(ls.subrange(from as int, i as int)),
        decreases to - i,
    {
        if i > from {
            r.push('\n');
        }
        let line = &lines[i];
        let m = line.len();
        let ghost before = r@;
        let mut k: usize = 0;
        while k < m
            invariant
                k <= m == line.len(),
                r@ == before + line@.subrange(0, k as int),
            decreases m - k,
        {
            r.push(line[k]);
            k += 1;
        }
        proof {
            let next = ls.subrange(from as int, i as int + 1);
            assert(next.drop_last() =~= ls.subrange(from as int, i as int));
            assert(next.last() == line@);
            assert(line@.subrange(0, m as int) =~= line@);
            if i > from {
                assert(r@ =~= join_lines(next.drop_last()) + seq!['\n'] + next.last());
            } else {
                assert(r@ =~= line@);
            }
        }
        i += 1;
    }
    r
}

} // verus!
