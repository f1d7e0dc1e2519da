pub mod types;
pub mod table_directory;
pub mod table;
pub mod cmap;
pub mod glyph;
