# reinject_core

Context rot prevention for coding-agent hooks: the logic of the transcript
monitor and of the hooks that consume its counts, verified with Verus.

- `src/parser.rs`: the transcript model, the splitting of a transcript delta
  into the lines that are counted, and the byte counts (non-thinking and
  thinking text) of a line and of a delta.
- `src/monitor.rs`: the monitor's decisions for one run (nothing to do, count
  the delta from the saved offset, save the accumulated state).
- `src/output.rs`: the JSON answer that a hook prints.
- `src/types.rs`: re-injection tiers and throttle types.
- `app/`: the `reinject-parser` program, the file I/O of the monitor and its
  saved state, and the JSON decoding of transcript lines.
