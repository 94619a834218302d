# glass_ui

The core of a reverse-engineering shell, written and proved in Verus.

- `src/` is the library. Loading turns a parsed archive into a bundle: its tree,
  its leaves, its sections and symbols. Loading and indexing run in steps, each of
  which reports how far the work has come. Paged hex and listing views show any part
  of a section without building the rest. Indices answer who refers to what. The
  palette, the section map, the two-pane layout and the routing of keys are state
  machines over plain values.
- `tests/` runs the library.
- `app/` is ordinary Rust around it: files, locks, timers and floating point.

Every public function in `src/` states what it returns or changes; the public proof functions named
`law_…` state what holds of the library as a whole. Outside code is trusted in
three places only: `blake3::hash` in `ids.rs`, `str::to_lowercase` in `search.rs`
and `String::push` in `text.rs`.
