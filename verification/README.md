# engine

A discovery engine over a causal mechanism graph, and the discrete rules of
the platform that serves it, verified with Verus.

- `src/` — the verified library.
  - `contracts` — the contract types (nodes, edges, claims, KPI contracts,
    rerun actions, error bodies), with views.
  - `graph` — the mechanism graph over `petgraph` (`pg` holds the trusted
    declarations of the calls it makes), path enumeration, lookups.
  - `operators`, `discover`, `doe`, `scoring`, `status` — candidate generation
    by generic operators, de-duplication, titles and summaries, experiment
    plans, the discrete side of scoring and the status rules.
  - `platform` — readiness, rerun actions, reference validation, the run
    store and the board lookup, the expert benchmark, lever availability, run
    preparation, CSV export, roadmap grouping, alternatives and phases,
    adapter paths and sidecar requests, the snapshot and its hash.
- `app/` — the HTTP server (axum), file and sidecar I/O, serde copies of the
  types, and the floating-point scoring, money and ranking.
- `tests/` — tests of the library.

The data root (`fixtures/`, `packs/`, `factories/`, `golden/`) is given by
`NORNIKEL_ROOT`; `SIDECAR_URL` points at a live sidecar, with the files as
fallback.
