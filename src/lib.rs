//! Turns the grid data of a spreadsheet into records, one per data row, and
//! joins records across sheets.

pub mod error;
pub mod text;
pub mod cell;
pub mod record;
pub mod sheet;
pub mod dataset;
pub mod enrich;
pub mod export;
pub mod client;
