# cargo-kimi

Design-by-contract tooling for Rust projects, written in Verus.

- `src/` is the verified library: the score badge (`badge`), the
  configuration file (`config`), project skills (`skills`), the score
  history and trend (`trend`), workspace discovery (`workspace`), project
  path checks (`util`), Kani proof coverage (`verify`), the language
  server's diagnostics, quick fixes and hover text (`lsp`), and the plans of
  the `check` and `generate-tests` commands, with the steps `check` takes
  after the contract checker (`lib.rs`). Character-level text
  handling shared by all of them is in `text`.
- `app/` is the command-line program around it: reading and writing files,
  running cargo, the clock, colours and the chart.
- `tests/` runs the library on concrete inputs.

Calls into `regex`, `chrono`, `url` (through `tower-lsp`) and a few std
functions stand behind small trusted wrappers whose contracts say what the
library relies on; everything else is proved.
