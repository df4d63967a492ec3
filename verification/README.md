# centaur_session_store

The session store behind the Centaur agent API, verified with Verus: sessions
bound to a harness, persona and principal; executions with idempotent
creation, a queued-to-running claim and a stdout-owner lease that fences stale
writers; a durable event log with delivery receipts; messages deduplicated by
client message id; the warm sandbox pool; and the idle and capacity sweeps.

## Layout

- `src/` — the verified library.
  - `types.rs`, `records.rs`: the persisted vocabulary and the checked reading
    of stored rows.
  - `store/`: `SessionStore`, the store's semantics over plain values, one
    operation per database statement group, each with an exact contract over
    the model `StoreV`, down to the idle, capacity and workflow sweeps.
  - `laws.rs`: properties across operations (lease fencing, replays,
    monotone event ids, scoped releases, and more).
  - `idle.rs`, `lease.rs`: sweep candidates and lease deadlines.
  - `decimal.rs`: the decimal text of an integer, as the database reads a
    JSON integer as text.
  - `notification.rs`: event notifications from the database.
  - `config.rs`: the rollback bridge's start-up checks.
  - `checks.rs`, `report.rs`: the verdicts and report of the API integration
    check.
  - `json.rs`, `ids.rs`: the calls into `serde_json` and `uuid`, each behind a
    small trusted wrapper.
  - `order.rs`: the order listings come back in (a timestamp, then a text
    compared character by character) and the verified sort that produces it.
- `tests/` — scenario tests against the library.
- `app/` — the programs around it: `PgSessionStore` on PostgreSQL through
  `sqlx`, which runs the statements, reads every row through the library and
  takes each decision between statements from it;
  the rollback bridge's environment reads; and the API integration check's
  HTTP requests.

## What is and is not verified

`SessionStore` is a model of the store: each of its operations has an exact
contract over `StoreV`, and the laws are proved over that model. The SQL that
`PgSessionStore` runs is not verified against it; that the statements do what
the model's operations do is a claim of this project, held up by reading, not
by proof. Row locks, `skip locked` and the order in which a transaction takes
its locks have no counterpart in the model, whose operations are atomic.

