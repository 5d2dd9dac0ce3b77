# kenshi

A terminal disk-usage browser. The directory tree is scanned once and then
browsed in memory: open and leave folders, sort by size, name or age, and see
the space per file extension or as a treemap.

## Layout

- `src/` — the verified library (Verus):
  - `tree.rs`: the tree of entries, the scan over a read-in file system
    (directory sizes are the sums of their entries; links to directories are
    not followed), stable merge sorts and sorting one directory in place.
  - `app.rs`: the browser's navigation state, what each key does, and the
    laws of navigation (going back undoes opening, the sort order cycles).
  - `breakdown.rs`: usage per file extension; the rows add up to the files.
  - `heuristics.rs`: categories of reclaimable directories.
  - `cache.rs`: the stored form of a tree and its round trip.
  - `colors.rs`, `labels.rs`, `text.rs`, `order.rs`, `anim.rs`: colours,
    the texts on screen, number and text helpers, string order, clocks.
- `app/` — the program around it: argument handling, reading the file system,
  drawing with ratatui, the event loop, the floating-point animation curves
  and treemap layout, and the cache files on disk.
- `tests/` — tests of the library on concrete values.
