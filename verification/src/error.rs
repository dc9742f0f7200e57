//! What can go wrong, from a single date up to the whole catalog.

use vstd::prelude::*;

verus! {

/// Why a date text gave no time window.
#[derive(Debug, Clone, Copy, PartialEq, Eq)]
pub enum DateParseError {
    /// The text does not have the expected form.
    FormatError,
    /// The month is none of the known names.
    MonthError,
    /// The numbers name no existing date, or no time of day.
    DateError,
}

/// Why a region's fragment gave no region.
#[derive(Debug, Clone, Copy, PartialEq, Eq)]
pub enum RegionError {
    /// The fragment holds no table.
    NoTableError,
    /// A row carries a date that cannot be read.
    DateParseFailure(DateParseError),
}

/// Why no catalog was built.
#[derive(Debug, Clone, PartialEq, Eq)]
pub enum CatalogError {
    /// The document is no mapping from strings to strings.
    DecodeError,
    /// One region could not be read; no catalog is built without it.
    RegionParseError { region: String, cause: RegionError },
}

/// The mathematical value of a [`CatalogError`].
pub enum CatalogFault {
    DecodeError,
    RegionParseError { region: Seq<char>, cause: RegionError },
}

impl View for CatalogError {
    type V = CatalogFault;

    open spec fn view(&self) -> CatalogFault {
        match *self {
            CatalogError::DecodeError => CatalogFault::DecodeError,
            CatalogError::RegionParseError { region, cause } => CatalogFault::RegionParseError {
                region: region@,
                cause,
            },
        }
    }
}

/// The catalog holds no region of the name asked for.
#[derive(Debug, Clone, Copy, PartialEq, Eq)]
pub struct NotFoundError;

/// The page does not hold the embedded data.
#[derive(Debug, Clone, Copy, PartialEq, Eq)]
pub struct MarkerMissingError;

} // verus!
