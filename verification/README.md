# necessary_work

The deterministic core of *The Necessary Work*, a real-time incremental
strategy game about coordinating global decarbonisation, written in Verus and
verified.

## Layout

- `src/` — the verified library.
  - `world`, `units`, `schema`, `catalogue` — the fixed world, canonical units,
    the authored-content schema, and content validation.
  - `hash`, `rng` — FNV-1a 64, and the seeded PCG32 generator with Lemire's
    bounded draw and its three named streams.
  - `render` — the text of an effect and a scope, as a content issue shows it.
  - `calc`, `state`, `derive` — cost curves, scaling and breakpoints, the run
    state, and the derivation of every derived field from the standing lists.
  - `sim`, `tick`, `init`, `preview` — commands, the tick in its fixed order,
    opening a run, and projected previews.
  - `headroom`, `bounds` — run-time checks of the integer range the proofs
    cover, for callers loading content, deriving a state or driving a run.
  - `bot` — the two seeded bot strategies.
  - `record` — run records, the digest ledger, and replay decisions.
  - `laws`, `determinism` — properties spanning operations: what ticks and
    commands keep, cancellation and decommission cleanup, victory, sampling,
    and deterministic replay.
- `tests/` — executable tests of the library.
- `app/` — the `nw` command-line tool: content loading from RON, state
  serialization for digests, records on disk, and the loops that drive runs
  and replays.
