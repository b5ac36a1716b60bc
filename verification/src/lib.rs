//! Report pipeline for a golf-day tracking page: parsing raw page text into
//! typed fields, assembling an ordered report, and rendering it as text.

pub mod date;
pub mod locator;
pub mod parse;
pub mod render;
pub mod report;
