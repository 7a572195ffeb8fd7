# liteparse

Geometry and assembly of a document parser, proved with Verus.

`src/` is the library. It takes what readers, fonts and PDFium report, as whole
numbers and texts, and decides what becomes of it:

- `units`, `geometry`, `text`: lengths in EMU, boxes, characters and words
- `draw_command`, `raster`, `media`, `screenshots`: what is painted on a page, in
  which order and with what
- `docx_layout`, `docx_images`, `columns`: pages of a text document
- `pptx_layout`, `pptx_paint`, `pptx_shapes`, `pptx_style`, `pptx_table`,
  `pptx_text`: pages of a deck
- `document`, `page_object`, `raw_text`: what PDFium says of a PDF
- `blocks`, `images`, `stages`, `native`, `parser`, `flow`: from pages to the
  result of a parse, and in which order engines are asked
- `composition`: a parse is the sum of its steps

Lengths are in EMU (12700 to a point), angles in 60000ths of a degree, sines and
cosines in multiples of 2^-30, and scales in trillionths of a dot per inch, so that
the library is free of floating point.

`app/` is ordinary Rust around it: PDFium's functions, glyph outlines, bitmaps,
files, and the loops that run a parse. `tests/` holds the tests of the library.
