# orchd

Helpers of an agent-orchestration daemon, written in Verus: the text
rendering, parsing, planning and policy decisions that the daemon makes
between reading its state and acting on it, each with a machine-checked
contract.

## Layout

- `src/` — the verified library. Each module holds one area of the daemon:
  delegation plans (`delegation`), agent routing (`agent_dispatch`), the
  daemon's own decisions (`daemon_loop`, `daemon_decisions`), context
  graphs and their loading (`context_graph`, `context_loader`), context
  files and their telemetry (`context_gen`, `context_gen_telemetry`),
  conversations, scenarios and soak runs (`e2e_scenarios`), delta reports,
  file watching, CI workflow generation, and the shared text, map, ordering and
  JSON helpers (`text`, `str_map`, `str_sort`, `json`).
- `tests/` — tests run against the compiled library.
- `app/` — ordinary Rust around the library: reading files and metadata,
  running `gh` and the editor, clocks, and the parts that use floating
  point.

Calls into std that the verifier cannot read (string decoding, lower-casing,
`Debug` formatting, clocks, JSON parsing through serde_json) go through
small wrappers whose contracts are stated where they are declared.
