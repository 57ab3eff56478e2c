# workspace

The state and the decisions of an editor workspace, verified with Verus: panes and the tree of
splits that lays them out, docks, what is stored of a workspace and brought back, following
collaborators, walking the history, and opening paths.

- `src/` is the library. `workspace.rs`, `panes.rs`, `events.rs`, `following.rs`,
  `leader_queue.rs`, `load.rs`, `navigation.rs` and `open.rs` hold what a `Workspace` does. Each operation is stated as a
  function on `State`, the workspace together with its surroundings; `context.rs` has the
  surroundings, and the effects that a workspace asks of them. `invariants.rs` shows what every
  operation keeps. Where outside work and decisions alternate, the decisions are a state
  machine: `navigation.rs`, `open.rs`, `add_views.rs`, `leader_queue.rs`, `window_search.rs`,
  `debounce.rs`.
- `tests/` runs the library on concrete values.
- `app/` is the ordinary Rust around it: it carries out effects, awaits, and computes with
  floating-point numbers.

Handles of panes, items, windows and tasks are numbers. Effects are carried out in the order in
which they stand in the list.
