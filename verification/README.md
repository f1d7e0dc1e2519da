# ttf_render

A small TrueType reader, verified with Verus.

- `src/ttf/types.rs`: the big-endian byte reader and the font's basic types
  (tags, versions, dates), with their decoding stated as functions on bytes.
- `src/ttf/table_directory.rs`, `table.rs`, `cmap.rs`, `glyph.rs`: the table
  directory and the `head`, `maxp`, `cmap` and `glyf` formats. Each reader has
  a `try_` form that returns `None` exactly where the bytes cannot be read, and
  a plain form that requires them to be readable.
- `src/renderer/loader.rs`: a `Font` assembled from those tables, with the
  location table and the glyphs read on demand.
- `src/renderer/pbm.rs`, `render.rs`: a bitmap image, its plain PBM/PPM text,
  and the blank image of a glyph's bounding box.
- `app/`: the command-line program, file output, and the floating-point code
  (fixed-point conversion and curve flattening).
