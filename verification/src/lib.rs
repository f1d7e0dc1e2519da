//! A small TrueType font reader: big-endian primitive decoding, the table
//! directory, the `head`, `maxp`, `cmap`, `loca` and `glyf` tables, and a
//! bitmap image that a glyph's bounding box is rendered into.
pub mod renderer;
pub mod ttf;
