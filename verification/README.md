# ins_downloader

A library for a desktop Instagram downloader built on instaloader, verified
with Verus.

- `src/parse.rs` turns pasted links, instaloader target syntax (`-CODE`,
  `#TAG`, `%ID`) and bare shortcodes into download targets; every parsing
  function's contract states its result exactly, over the specification
  functions defined beside it.
- `src/text.rs` holds the character-level building blocks (trimming, lines,
  path segments, case-insensitive search) and the few trusted std calls.
- `src/order.rs` orders texts by code point and sorts them.
- `src/download.rs` decides the engine's command line, which files are media,
  which are new after a run, and whether a run succeeded.
- `src/flow.rs` drives one download as a state machine: the caller performs
  each requested action and reports back what happened.
- `src/laws.rs` proves properties that span these functions.
- `app/` is the Tauri shell: file system, processes, environment.
