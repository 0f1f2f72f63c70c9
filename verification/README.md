# ctf

A verified core for a CTF (capture-the-flag) competition workspace, written in
Verus.

- `src/` is the library, verified with Verus:
  - `workspace/state.rs` — what the workspace knows of each challenge, and how
    a sync, a full sync, a solve, and merging cached details change it;
    `workspace/challenge_map.rs` — the records keyed by lower-cased name;
    `workspace/orchestration.rs` — the agent's challenge queue.
  - `mcp/` — the decisions behind the MCP tools: listing (filter and stable
    sort), input checks, free-hint unlocking during a full sync, the workspace
    status tally, queue updates, and the texts the tools answer with;
    `mcp/sync_run.rs` — a sync as a state machine: from each outcome the
    caller reports to the next action it should perform.
  - `tui/app.rs` — the dashboard: key handling, scrolling, counts, the
    dashboard order and the per-category tally.
  - `sorting.rs` (stable insertion sort), `tally.rs` (per-category tallies in
    category order), `text.rs` (code-point order on strings, decimal
    rendering, trimming of Unicode white space, case folding through std), `clock.rs` (the
    current time through chrono).
- `app/` is the unverified shell: the state file on disk, the serde forms of
  the records, MCP parameter schemas and answers, the loop that performs a
  sync's actions, and the terminal loop.
- `tests/` runs the library on concrete values.
