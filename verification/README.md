# preman

A terminal tool to manage and clean up unused Steam Wine/Proton prefixes,
offline, over several Steam directories.

The crate is a Verus library with a thin program around it.

- `src/` is verified with Verus:
  - `text.rs`: trimming, line splitting, decimal numbers, substring search;
  - `paths.rs`: paths compared by their components;
  - `steam/vdf.rs`: Steam's text key/value files and the binary
    `appinfo.vdf` cache;
  - `steam/discovery.rs`: which Steam roots, libraries and prefix
    directories are kept, and how the prefix list is assembled from what the
    file system showed;
  - `steam.rs`: the prefix records and the human-readable sizes;
  - `ordering.rs`: the order in which rows are listed;
  - `state.rs`, `state/index_set.rs`: the prefix list with its filter, sort
    order, cursor and selection, the Steam directories and the deletion queue;
  - `ui.rs`: the layout and hit-test arithmetic and the figures and labels
    the screen shows.
- `app/` reads the file system, deletes directories, draws with `ratatui` and
  reads keys and mouse events with `crossterm`; it hands what it saw to the
  library and performs what the library decided.
- `tests/` exercises the library on concrete values.
