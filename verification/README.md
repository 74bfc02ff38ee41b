# skyrim_formats

A verified library for two Skyrim data formats:

- `src/lip.rs` decodes FaceFX `.lip` lip-sync files: the 24-byte header, the
  run-length encoded curve stream that follows it (possibly after a few stray
  bytes), and the rows of 33 curve slots per frame. `src/lip_laws.rs` holds
  what holds of every decode.
- `src/esm.rs` writes a minimal, deterministic Skyrim SE plugin with a
  worldspace, its exterior cells and an optional interior joined by a pair of
  load doors; `src/record.rs` and `src/tags.rs` hold the record framing, and
  `src/esm_laws.rs` what holds of every plugin.
- `src/layout.rs` parses the list of file families of a synthetic data tree.

Every `f32` is held as its bit pattern, so nothing in `src/` computes in
floating point. `app/` holds the command-line tools (`inspect-lip`,
`lip-check`, `write-esm`, `list-files`), file I/O, and the few `f32` computations.
