# harpoon

A pane switcher for the Zellij terminal multiplexer, with a background
tracker that records when each pane last had focus. The logic is written in
Verus and proved against its contracts.

Layout:

- `src/` — the verified library:
  - `model.rs`: the pane, tab and manifest records, and finding the focused tab and pane;
  - `panes.rs`: reconciling the tracked panes with the live manifest, gathering untracked panes;
  - `sort.rs`: the stable ordering by tab position or by recency;
  - `fuzzy.rs`: in-order fuzzy matching and the byte ranges to highlight;
  - `persistence.rs`: bookmarks saved per session and restored by name, with the law that a
    restore gives back the saved tab names and titles;
  - `timestamps.rs`: recorded access times;
  - `state.rs`: the switcher as a state machine from host events to actions, and its render plan;
  - `worker.rs`: the tracker as a state machine;
  - `text.rs`, `paths.rs`: labels, numbers, key hints, file paths and shell commands;
  - `laws.rs`, `unique.rs`: properties across operations (closed panes are dropped, no pane is
    tracked twice, navigation, search and its narrowing, adding and removing panes, recency order).
- `tests/` — tests of the library on concrete values.
- `app/` — the plugin glue: host events in, host calls out, JSON files via serde.
  One binary holds one plugin: the default build is the switcher; building with
  `RUSTFLAGS="--cfg harpoon_tracker"` gives the background tracker.
