# watermarker

The verified core of a batch image-watermarking desktop tool, written in
Verus. The library (`src/`) holds the logic with its contracts and proofs; the
desktop shell (`app/`) holds the Tauri command surface, file I/O, the parallel
batch loop and the floating-point placement and compositing.

## Library modules

- `text` — character-level string operations (trimming, searching, splitting,
  lower-casing, numerals) with exact specifications.
- `vrchat` — reading VRChat capture metadata (world, author, date) out of PNG
  text chunks in their line, JSON and XMP forms.
- `paths`, `decode` — file-name handling and which inputs are accepted;
  decoding in-memory images under decompression-bomb limits.
- `metadata` — ICC/EXIF extraction from JPEG, PNG and WebP, and re-embedding
  them (plus a `Software` tag) into an exported PNG, modelled as edits of the
  PNG's chunk list.
- `export` — output naming, suffix validation, the metadata an export carries
  and the bytes it writes.
- `watermark` — the library's RGBA raster, the trimming of transparent
  borders, raster resampling and the parsing of SVG watermarks.
- `placement`, `preview`, `commands`, `settings`, `state` — the anchor grid,
  PNG encoding, command-side decisions, managed-copy naming and ids.

Calls into `img-parts`, `image`, `usvg` (through `resvg`), `serde_json`,
`urlencoding` and `std::path` go through small trusted wrappers whose
contracts are stated next to them.
