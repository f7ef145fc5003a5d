//! Scanning, sorting and parsing.

pub mod browsing;
pub mod file_finder;
pub mod paths;
pub mod patterns;
pub mod sorting;
pub mod svg_parser;
pub mod tree_model;
pub mod tree_walk;
pub mod svg_values;
