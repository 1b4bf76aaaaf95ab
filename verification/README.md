# kleio

A genealogy and timeline library whose behaviour is stated in Verus
contracts and proved.

- `src/` is the verified library: the record model, event packs and timeline
  documents, the local authoring format (reading records, validation, world
  summaries, kinship inference, timeline and tree compilation, married-name
  defaults, tree views and their generation filters), the genealogy index and
  the pack and source formats. Laws that relate several functions are public
  proof functions named `law_*`.
- `tests/` runs the library on concrete worlds and documents.
- `app/` is the command-line side: reading and writing files, TOML and JSON
  through serde, and the floating-point layout of trees.

Verify with `verus` on `src/lib.rs`; the tests and `app/` build against the
compiled library.
