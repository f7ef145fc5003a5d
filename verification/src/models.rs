//! The values that a scan produces and that the browser shows.

pub mod file_items;
pub mod graphic_file;
pub mod gui;
