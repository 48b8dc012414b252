# drone_tuner_core

Blackbox log parsing and tuning logic for FPV flight controllers, written in
Verus. The library's own functions in `src/` carry contracts that Verus
proves; the few calls into outside crates stand behind small trusted
wrappers whose contracts Verus believes without proof.

## Layout

- `src/` — the verified library.
  - `text.rs`, `info_map.rs`: character-sequence helpers and an ordered
    string map, with their specifications.
  - `error.rs`, `domain.rs`: the error type and the integer/text part of the
    domain model.
  - `blackbox/`: header scanning (`utils`, `intervals`, `config`, `fields`),
    frame-time semantics (`timing`), the session survey and scan state
    machines (`session`, `stream`), the reader that drives the
    `blackbox-log` crate (`reader`), and the byte-level decoder with gzip
    support (`legacy`).
  - `analysis/`: recommendation ranking, cross-tune convergence suppression
    and the configuration-only advanced tuning checks.
- `tests/` — tests run against the compiled library.
- `app/` — the unverified remainder: floating-point frequency analysis,
  filter design, telemetry conversion, the float steps that feed the
  library's recommendation rules and the baseline clamp
  (`analysis/rules.rs`), and serde-ready copies of the domain types.

Those wrappers (around `blackbox-log`, `flate2`, `nom` and two `String`
functions) state only what the crates' sources show.
