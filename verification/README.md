# trolly-gym

The integer and text logic behind a trading-gym training workflow, written in
Verus with contracts that say what each function returns.

Layout:

- `src/` — the verified library. Notable modules:
  - `action` — discrete trade actions, their indices, sides and outbound orders.
  - `orchestrator` — the weekday working-hours window (parsing, membership,
    time until the next window), job selection, run modes, git sync decisions,
    progress-log bodies.
  - `device` — device requests, HIP device inventory text and the choice of the
    discrete RX card.
  - `wire` / `onnx` — a protobuf reader and writer for the small ONNX graphs the
    project exports, with the law that a written graph inspects back to what was
    written.
  - `ticks` — ClickHouse URL and statement building, tick tapes.
  - `replay`, `observation`, `env` — bounded buffers, observation windows and
    symbol bookkeeping.
  - `fingerprint` — SHA-256 hex digests (through `sha2`) and sidecar paths.
- `tests/` — executable tests against the compiled library.
- `app/` — the I/O around the library: environment and file access, HTTP to
  ClickHouse, the ONNX runtime, git and docker processes, and the float-valued
  policy helpers.
