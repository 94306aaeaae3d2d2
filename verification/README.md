# clipy-rs

A clipboard history tool for macOS: it records clipboard text, images and file
references, searches and pins history items, copies them back, and keeps reusable
text snippets. It has a command line and a menu bar app.

The logic is a library verified with Verus; the program around it is ordinary Rust.

- `src/` — the verified library.
  - `codec.rs`, `storage.rs`: the binary history, snippet and image/file files, with
    proofs that reading back what was written gives the same entries.
  - `settings.rs`, `store.rs`: the settings file (normalized on every read and write)
    and the data directory's files, as bytes to read and write.
  - `history.rs`, `capture.rs`, `seqs.rs`, `order.rs`: recording, de-duplicating,
    pruning, pinning and ordering the history.
  - `search.rs`, `preview.rs`, `text.rs`: search scoring and ranking, previews, and
    the text operations they rest on.
  - `snippets.rs`, `args.rs`: snippet lookup and rendering, and command-line arguments.
  - `sensitive.rs`: the check that keeps obvious secrets out of the history.
  - `menu.rs`, `rich.rs`: the menu bar app's texts, layout, preferences and the
    choice of clipboard formats to record.
  - `poll.rs`: the menu bar app's clipboard poll, one decision per step; the app only
    reads, records and reports as each step asks.
- `app/` — the `clipy-rs` program: arguments, the terminal, the data files, the system
  clipboard and key events, and the AppKit menu bar app (macOS only).
- `tests/` — tests of the library on concrete values.
