# disktree (verified core)

The logic behind a macOS disk-usage treemap, each function proved against
its contract:

- `src/bulk.rs` reads the records that Darwin's `getattrlistbulk` packs into a
  batch (record framing, the name reference, when metadata is present) and
  decides each step of a bulk directory walk: fallback, failure, end,
  cancellation.
- `src/path.rs` keeps paths as their components, the way `std::path` compares
  them, with prefix tests, prefix removal and joining.
- `src/text.rs` splits text into lines and finds patterns in it.
- `src/volumes.rs` reads mount tables, adds the firmlink spellings of mounts,
  finds the mounts a scan must not enter, and computes the spelling the removal
  guards compare; it also holds the retry policy for reading the kernel's mount
  table.
- `src/mosaic.rs` holds the per-tile and per-label decisions of the treemap
  painter, including the order its rings are drawn in; `src/appearance.rs` the theme chosen for the system appearance.

`app/` holds the system calls (mount table, `statfs`, bulk directory reads,
Finder's Trash) and the window integration, all of which hand plain values to
the library and take plain values back.
