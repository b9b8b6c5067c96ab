//! Regular-expression capture groups (the `regex` crate).

use vstd::prelude::*;

verus! {

/// What the `regex` crate reports for capture group `group` of the first
/// match of `pattern` in `text`: `None` when the pattern does not compile or
/// does not match, `Some(None)` when the match leaves the group unset.
pub uninterp spec fn regex_group(pattern: Seq<char>, text: Seq<char>, group: int) -> Option<Option<Seq<char>>>;

pub open spec fn group_view(r: Option<Option<String>>) -> Option<Option<Seq<char>>> {
    match r {
        None => None,
        Some(None) => Some(None),
        Some(Some(s)) => Some(Some(s@)),
    }
}

/// `Regex::new(pattern)`, then `captures(text)`, then the text of group
/// `group`. What the groups hold is named by `regex_group`, not stated.
#[verifier::external_body]
pub(crate) fn capture_group(pattern: &str, text: &str, group: usize) -> (r: Option<Option<String>>)
    ensures
        group_view(r) == regex_group(pattern@, text@, group as int),
{
    let re = regex::Regex::new(pattern).ok()?;
    let caps = re.captures(text)?;
    Some(caps.get(group).map(|m| m.as_str().to_string()))
}

} // verus!
