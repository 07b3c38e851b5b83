//! Decoding of SFNT / TrueType font files into glyph outlines.
//!
//! The library reads the table directory, the fixed-layout metric tables,
//! the segmented character map, the glyph offset table and the glyph outlines
//! themselves, and keeps a cache of zoom-scaled outlines for a renderer.
pub mod error;
pub mod buffer;
pub mod table;
pub mod reader;
pub mod outline;
pub mod glyph;
pub mod cache;
pub mod platform;
pub mod config;
