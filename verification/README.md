# Tessera

Tessera recalculates the geometric error of every tile of a 3D Tiles
tileset from the tiles' geometry, and compares two tileset documents.

The crate is written in Verus. `src/` is the verified library:

- `tileset/` — the tile tree, preorder numbering of tiles, the node map
  built for the error calculation and the walk from a tile to the root,
  inlining decisions for external tilesets (which contents are inlined,
  how URIs are rebased), and the comparison of two tileset documents
  (structure first, then the walk over their geometric errors).
- `tile/` — the `.b3dm` and `.pnts` headers, the layout checks made before
  reading a tile's body, the choice of a loader by file name, and the
  parts of glTF and point-cloud decoding that do not touch floating point.
- `geometry/` — primitives (points, lines, triangles) and how their index
  lists group vertices.
- `tiles.rs` — content URIs of a tileset and glTF asset summaries.
- `utils.rs` — URI and path handling on character sequences.

`app/` is the command line program around the library: file I/O, JSON
(de)serialisation, the floating-point geometry comparisons and the
recalculation loop that uses them. `tests/` exercises the library.
