//! Scheduled power outages, region by region: the text of the utility's page
//! is decoded into a catalog of regions, each an ordered list of outage
//! records with a normalised time window.

pub mod calendar;
pub mod cebdata;
pub mod error;
pub mod json;
pub mod month;
pub mod native_date_time_range;
pub mod page;
pub mod pattern;
pub mod table;
pub mod text;
pub mod utils;
