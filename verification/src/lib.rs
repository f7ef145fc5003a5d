//! Directory scanning, entry classification and SVG metadata extraction for
//! an asset browser, with machine-checked contracts.

pub mod models;
pub mod text;
pub mod utils;
