# ghostnet

Deterministic doctrine, policy and contract logic for GhostNet operating
modalities, written in Verus. The functions in `src/` carry contracts that
Verus proves, apart from four small trusted wrappers around outside calls
(listed below) and a few private helpers. The library's laws (idempotent
duplicates, final terminal states, monotone policy composition,
order-independent canonical bytes, projections that always fit the bearer
limit, ...) are stated as
public proof functions named `law_*`.

Layout:

- `src/` — the verified library.
  - `policy.rs`, `policy_extension.rs` — posture directives, emission
    decisions and composition with policy extensions.
  - `incident.rs`, `net.rs`, `report.rs` — signed-artifact state machines.
  - `canonical.rs` — restricted RFC 8785 canonical JSON, content hashes and
    signature input; `projection.rs` — bearer-limited projections.
  - `calendar.rs`, `window.rs`, `clock.rs` — UTC dates and times, one-shot
    and weekly communication windows, clock readings.
  - `styrene.rs`, `store.rs`, `adapter.rs` — the substrate, local store and
    adapter doubles.
  - `text.rs`, `keyed.rs` — character helpers and a string-keyed map.
- `tests/` — tests run against the compiled library.
- `app/` — what stays outside verification: `async` port traits and shared
  (locked) doubles, `serde_json::Value` intake, and `thiserror` copies of the
  error types.

The few calls into outside crates (`sha2`, `serde_json` string escaping,
`time` calendar conversion) sit behind small trusted wrappers whose
contracts are documented next to them.
