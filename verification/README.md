# nostos

Nostos keeps a local store in step with a server. This crate is its logic, written in
Verus: contracts say what its functions return or change, and Verus proves them.

- `src/` is the verified library.
  - `apply`, `pull`, `pull_snapshot` and `appwrite_pull` turn what the server sends into
    commits on a `storage::Storage`; `in_memory` is a store, `conformance` runs the
    cases that every store has to pass, and `verdicts` judges what a store answered.
  - `crdt`, `counter` and `hlc` merge payloads that several devices write.
  - `predicate`, `predicate_compile`, `scope` and `rules` say which rows an account sees.
  - `outbox`, `patch`, `engine`, `transport`, `socket` and `sqlite_store` are the client in a
    browser: local writes, the frames on the wire and the statements of its database.
  - `auth`, `license`, `records`, `stripe`, `payments`, `routes` and `config` are the
    rules of the service that holds accounts, projects and licenses.
- `tests/` runs the library on concrete values.
- `app/` is ordinary Rust around it: the HTTP service and the browser bindings. It reads,
  sends and stores; what it decides, it asks the library.

The laws that span several functions are public proof functions named `law_…`: what a
snapshot makes of a table (`snapshot_laws`), that an echoed page changes nothing
(`apply`), that merging is commutative, associative and idempotent (`crdt`, `counter`),
that a queued write reads back (`sqlite_store`), and more.

What is believed without proof stands in `text`, `json`, `session` and `digest`: the
calls into `std`, `serde_json`, `uuid`, `sha2`, `hmac`, `hex`, `rand` and `time`, each
with a doc comment that says what is claimed of it.
