//! Multivariant playlists: reading them, checking their references, and
//! selecting and sorting their entries.

pub mod attributes;
pub mod error;
pub mod format;
pub mod interpret;
pub mod line;
pub mod parser;
pub mod retain;
pub mod select;
pub mod sort;
pub mod text;
pub mod validate;
pub mod value;
pub mod views;
