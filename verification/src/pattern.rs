//! Regular expressions, as the `regex` crate matches them.

use vstd::prelude::*;

verus! {

/// What `regex` finds for `pattern` in `text`: the capture groups of the
/// leftmost match, the whole match first, each group that took part with the
/// text it matched. `None` where the pattern matches nowhere in the text, or
/// is no regular expression.
pub uninterp spec fn pattern_groups(pattern: Seq<char>, text: Seq<char>) -> Option<
    Seq<Option<Seq<char>>>,
>;

/// `regex::Regex::new` followed by `regex::Regex::captures`. Nothing is
/// claimed of the match beyond that it is a function of the pattern and the
/// text.
#[verifier::external_body]
pub(crate) fn match_groups(pattern: &str, text: &str) -> (groups: Option<Vec<Option<String>>>)
    ensures
        groups.deep_view() == pattern_groups(pattern@, text@),
{
    match regex::Regex::new(pattern) {
        Ok(compiled) => compiled.captures(text).map(
            |found| found.iter().map(|group| group.map(|m| String::from(m.as_str()))).collect(),
        ),
        Err(_) => None,
    }
}

} // verus!
