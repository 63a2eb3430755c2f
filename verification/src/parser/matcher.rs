//! Pattern matching by the `regex` crate, behind one trusted function.

use regex::Regex;
use vstd::prelude::*;

verus! {

/// What searching `text` for `pattern` finds: for the first match, the byte
/// range of each group of the pattern, in the order of the groups' opening
/// brackets, with the whole match as group 0 and nothing for a group that
/// took no part in the match. `None` where nothing matches or `pattern` is
/// no valid pattern.
pub uninterp spec fn group_ranges(pattern: Seq<char>, text: Seq<char>) -> Option<
    Seq<Option<(usize, usize)>>,
>;

/// Compiles `pattern` with `regex::Regex::new` and searches `text` with
/// `Regex::captures`; hands out the start and end of each group of the
/// match, as `Captures::iter` lists them.
///
/// Trusted: that the outcome depends on the pattern and the text alone.
/// Nothing is claimed of the ranges themselves.
#[verifier::external_body]
pub(crate) fn find_groups(pattern: &str, text: &str) -> (r: Option<Vec<Option<(usize, usize)>>>)
    ensures
        r matches Some(v) ==> group_ranges(pattern@, text@) == Some(v@),
        r is None ==> group_ranges(pattern@, text@) is None,
{
    let re = match Regex::new(pattern) {
        Ok(re) => re,
        Err(_) => return None,
    };
    let caps = re.captures(text)?;
    Some(caps.iter().map(|m| m.map(|m| (m.start(), m.end()))).collect())
}

} // verus!
