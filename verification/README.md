# kallip_tagma

The decision core of the kallip tagma, the HTTP server that hosts a tree
of cooperating agents: the agent registry and its supervisor chains, the
authorization rules of every route, the declarative team domain (status
comparison, converge planning, preflight and execution bookkeeping), the
profile-set configuration and its reference-integrity gates, the token
budget, the task-event wake rules, deferred-action approvals, exec-policy
writes, attachment ingest, and the lesche (room and direct message)
surfaces.

Zone names in the timezone setting resolve through `jiff`'s time zone
database, behind one trusted wrapper (`src/settings.rs`).

Everything else under `src/` is verified with Verus (the one other
trusted wrapper, in `src/fmt.rs`, quotes a string with std's `{:?}`
rendering): each public function
states what it returns or changes in its `requires`/`ensures`, and the
properties that span functions are proved as `law_*` proof functions
(`src/registry.rs`, `src/team/laws.rs`, `src/profiles.rs`,
`src/task_watcher.rs`, `src/budget.rs`, `src/config.rs`,
`src/relays.rs`, `src/approvals.rs`).

Layout:

- `src/` — the verified library (one module per domain; `team/` holds
  the status comparison, the converge planner, the preflight, the
  execution steps and the laws).
- `tests/` — tests that run the compiled library on concrete values.
- `app/` — the thin HTTP face (axum): shared state, bearer
  authentication, JSON wire copies of the library types, and a few
  routes that hand requests to the library.
