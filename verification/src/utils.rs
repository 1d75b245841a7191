//! Helpers shared by the registry and the documents.

pub mod fs;
pub mod json;
pub mod name_map;
pub mod text;
pub mod tray;
