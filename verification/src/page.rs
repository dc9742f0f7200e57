//! Finding the embedded data in the text of the utility's page.

use crate::error::MarkerMissingError;
use crate::pattern::{match_groups, pattern_groups};
use vstd::prelude::*;

verus! {

/// The line of script that assigns the data: the data is what stands
/// between the equals sign and the last semicolon of the line.
pub open spec fn marker_pattern() -> Seq<char> {
    "var arDistrictLocations = (.*);"@
}

/// The data that the outcome of a match against [`marker_pattern`] holds:
/// the text of its one group. `None` where there was no match.
pub open spec fn data_of_groups(groups: Option<Seq<Option<Seq<char>>>>) -> Option<Seq<char>> {
    match groups {
        Some(found) => if found.len() == 2 {
            found[1]
        } else {
            None
        },
        None => None,
    }
}

/// The data embedded in `page`, where the page assigns it.
pub open spec fn embedded_data(page: Seq<char>) -> Option<Seq<char>> {
    data_of_groups(pattern_groups(marker_pattern(), page))
}

/// Takes the data out of the outcome of a match against
/// [`marker_pattern`]. A page without the assignment is an error, never an
/// empty text.
pub fn data_from_groups(groups: &Option<Vec<Option<String>>>) -> (data: Result<
    String,
    MarkerMissingError,
>)
    ensures
        match data {
            Ok(text) => data_of_groups(groups.deep_view()) == Some(text@),
            Err(_) => data_of_groups(groups.deep_view()).is_none(),
        },
{
    match groups {
        Some(found) => {
            if found.len() != 2 {
                return Err(MarkerMissingError);
            }
            assert(groups.deep_view()->0[1] == found[1].deep_view());
            match &found[1] {
                Some(text) => Ok(text.clone()),
                None => Err(MarkerMissingError),
            }
        },
        None => Err(MarkerMissingError),
    }
}

/// Finds the data embedded in the text of the page: the JSON document that
/// maps each region to its HTML fragment.
pub fn extract_data(page: &str) -> (data: Result<String, MarkerMissingError>)
    ensures
        match data {
            Ok(text) => embedded_data(page@) == Some(text@),
            Err(_) => embedded_data(page@).is_none(),
        },
{
    let groups = match_groups("var arDistrictLocations = (.*);", page);
    data_from_groups(&groups)
}

} // verus!
