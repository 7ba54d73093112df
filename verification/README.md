# todo_app

A todo service whose core is verified with Verus.

- `src/` — the verified library:
  - `todo.rs`, `label.rs`: todos, labels, the joined todo/label rows and the
    create/update payloads, each with a mathematical view.
  - `fold.rs`: folding joined rows into todos (one per id, labels in row
    order), with the laws that folding keeps every todo and nothing else.
  - `validation.rs`: the payloads' text-length rules, checked through the
    `validator` crate.
  - `memory.rs`: the repository trait and an in-memory repository, with
    read-after-write laws.
  - `error.rs`: repository errors.
- `app/` — the axum server, the JSON and SQL copies of the library's types,
  and the PostgreSQL repository, which hands query results to the library.
- `tests/` — tests of the library.
