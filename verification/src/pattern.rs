//! Matching of text against regular expressions.
//!
//! The matching itself is the work of the `regex` crate. What it finds is
//! known to the rest of the library by the name [`regex_captures`]; the
//! functions here pick groups out of it.

use vstd::prelude::*;

verus! {

/// What the `regex` crate finds when it searches `text` for `pattern`.
///
/// `None` where the pattern does not compile or matches nowhere. Else the
/// groups of the leftmost match: group 0 is the whole match, the others
/// follow in the order of their opening parentheses, and a group that took no
/// part in the match is `None`.
pub uninterp spec fn regex_captures(pattern: Seq<char>, text: Seq<char>) -> Option<
    Seq<Option<Seq<char>>>,
>;

/// The groups of a match as sequences of characters.
pub open spec fn groups_view(groups: Seq<Option<String>>) -> Seq<Option<Seq<char>>> {
    Seq::new(
        groups.len(),
        |i: int|
            match groups[i] {
                Some(text) => Some(text@),
                None => None,
            },
    )
}

/// A search result as sequences of characters.
pub open spec fn captures_view(found: Option<Vec<Option<String>>>) -> Option<
    Seq<Option<Seq<char>>>,
> {
    match found {
        Some(groups) => Some(groups_view(groups@)),
        None => None,
    }
}

/// Searches `text` for the regular expression `pattern`.
///
/// Compiles the pattern with `regex::Regex::new`, searches with
/// `Regex::captures` and copies the text of each group, as `Captures::iter`
/// hands them out. The contract only gives the result its name: it is a
/// function of the pattern and the text alone.
#[verifier::external_body]
pub(crate) fn captures(pattern: &str, text: &str) -> (found: Option<Vec<Option<String>>>)
    ensures
        captures_view(found) == regex_captures(pattern@, text@),
{
    let regex = regex::Regex::new(pattern).ok()?;
    let groups = regex.captures(text)?;
    Some(groups.iter().map(|group| group.map(|found| found.as_str().to_owned())).collect())
}

/// The text of group `index` of a match, if there is a match and the group
/// took part in it.
pub open spec fn group(found: Option<Seq<Option<Seq<char>>>>, index: int) -> Option<Seq<char>> {
    match found {
        Some(groups) if 0 <= index < groups.len() => groups[index],
        _ => None,
    }
}

/// Picks group `index` out of a search result.
pub fn group_text(found: &Option<Vec<Option<String>>>, index: usize) -> (text: Option<String>)
    ensures
        match text {
            Some(t) => group(captures_view(*found), index as int) == Some(t@),
            None => group(captures_view(*found), index as int) is None,
        },
{
    match found {
        Some(groups) => {
            if index < groups.len() {
                match &groups[index] {
                    Some(text) => Some(text.clone()),
                    None => None,
                }
            } else {
                None
            }
        },
        None => None,
    }
}

} // verus!
