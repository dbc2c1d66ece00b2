//! Regular expressions, matched by the `regex` crate.
use crate::number;
use crate::strings;
use vstd::prelude::*;
use vstd::string::*;

verus! {

/// What `regex::Regex::captures` finds in `haystack` for the expression `pattern`: the text of
/// each group of the leftmost match, in the order of the groups and beginning with the whole
/// match, or nothing for a group that took no part. `None` where nothing matches, and where
/// `pattern` is no regular expression.
pub uninterp spec fn regex_captures(pattern: Seq<char>, haystack: Seq<char>) -> Option<
    Seq<Option<Seq<char>>>,
>;

/// The texts of a match's groups.
pub open spec fn group_views(groups: Option<Vec<Option<String>>>) -> Option<
    Seq<Option<Seq<char>>>,
> {
    match groups {
        None => None,
        Some(v) => Some(
            Seq::new(
                v@.len(),
                |i: int|
                    match v@[i] {
                        None => None,
                        Some(s) => Some(s@),
                    },
            ),
        ),
    }
}

/// The text of group `i`, if there is such a group and it took part in the match.
pub open spec fn group_text(groups: Seq<Option<Seq<char>>>, i: int) -> Option<Seq<char>> {
    if 0 <= i < groups.len() {
        groups[i]
    } else {
        None
    }
}

/// The number that group `i` holds.
pub open spec fn group_number(groups: Seq<Option<Seq<char>>>, i: int) -> Option<usize> {
    match group_text(groups, i) {
        None => None,
        Some(t) => number::parsed(t),
    }
}

/// Matches with `regex::Regex::new` and `regex::Regex::captures`, and copies out the text of
/// each of the match's groups. The result is what [`regex_captures`] names for the two texts;
/// nothing else is claimed of it.
#[verifier::external_body]
pub(crate) fn captures(pattern: &str, haystack: &str) -> (r: Option<Vec<Option<String>>>)
    ensures
        group_views(r) == regex_captures(pattern@, haystack@),
{
    let re = regex::Regex::new(pattern).ok()?;
    let caps = re.captures(haystack)?;
    Some(caps.iter().map(|m| m.map(|m| m.as_str().to_string())).collect())
}

/// Whether group `i` holds `expected`.
pub fn group_is(groups: &Vec<Option<String>>, i: usize, expected: &str) -> (r: bool)
    ensures
        r == (group_text(group_views(Some(*groups))->0, i as int) == Some(expected@)),
{
    if i >= groups.len() {
        return false;
    }
    match &groups[i] {
        None => false,
        Some(s) => strings::same_text(s.as_str(), expected),
    }
}

/// The number that group `i` holds.
pub fn group_count(groups: &Vec<Option<String>>, i: usize) -> (r: Option<usize>)
    ensures
        r == group_number(group_views(Some(*groups))->0, i as int),
{
    if i >= groups.len() {
        return None;
    }
    match &groups[i] {
        None => None,
        Some(s) => number::parse_usize(s.as_str()),
    }
}

} // verus!
