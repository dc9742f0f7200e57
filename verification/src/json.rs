//! Decoding the document that maps region names to HTML fragments.

use vstd::prelude::*;

verus! {

/// `serde_json::Error`: why a document could not be decoded.
#[verifier::external_type_specification]
#[verifier::external_body]
pub struct ExJsonError(serde_json::Error);

/// The entries of the JSON object `json`, as `serde_json` decodes it into a
/// `BTreeMap` from strings to strings and the map hands them out: name and
/// value, in the order of the names. `None` where `json` does not decode as
/// such a mapping.
pub uninterp spec fn decoded_entries(json: Seq<char>) -> Option<Seq<(Seq<char>, Seq<char>)>>;

/// `serde_json::from_str` for a `BTreeMap<String, String>`, with the map's
/// entries collected in the order in which it yields them. Nothing is
/// claimed of the entries beyond that they are a function of the document.
#[verifier::external_body]
pub(crate) fn decode_entries(json: &str) -> (decoded: Result<
    Vec<(String, String)>,
    serde_json::Error,
>)
    ensures
        match decoded {
            Ok(entries) => decoded_entries(json@) == Some(entries.deep_view()),
            Err(_) => decoded_entries(json@).is_none(),
        },
{
    serde_json::from_str::<std::collections::BTreeMap<String, String>>(json).map(
        |decoded| decoded.into_iter().collect(),
    )
}

} // verus!
