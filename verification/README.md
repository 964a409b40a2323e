# rexymcp

The logic of the `rexymcp` phase runner and its tooling, written in Verus:
each function's contract states what it returns, and Verus proves it.
Where an answer comes from outside (the disk, a syntax set, the TOML and
JSON parsers), the contract states the result over named answers of those
calls.

- `src/` is the verified library. Its modules cover phase-doc parsing and
  completion bookkeeping, usage harvesting, cost and profile tallies, session
  log queries, output capping, resume assembly, the run registry, root
  corroboration, the toolchain doctor, tier calibration (the config edits
  made through `toml_edit`), governor calibration (the stall signals and
  their aggregation into report cells), reading transcript lines (through
  `serde_json`), and the live dashboard's summary, filtering, wrapping, panel
  text and transcript view.
  Public proof functions state the laws that span several calls (a filter
  toggled twice is unchanged, a read after a write sees the write, wrapped
  lines fit their width and lose no text, and so on).
- `tests/` runs the library on concrete values.
- `app/` is the command-line program around it: argument parsing, files,
  processes, the terminal, the executor crate's config, store and replay,
  and the computations done in floating point (prices, rates, percentiles).
