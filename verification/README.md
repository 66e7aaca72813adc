# wooridb

WooriDB is a time-serial, schemaless key-value database with its own query
language, WQL. This crate holds its engine as a library verified with Verus,
and a small command line around it.

## Layout

- `src/` — the verified library.
  - WQL: `text`, `types`, `numbers`, `values`, `compound`, `ast`,
    `statements`, `where_clause`, `select`, `parser`. `parser::parse_wql`
    turns a statement into a `Wql` value; each parsing function is specified
    by a spec function over the characters it reads.
  - The engine: `context` (entities and their registries, kept in the order
    of their identifiers), `controllers` (what each transaction and query
    does to the context and answers), `clauses` (`WHERE`), `query`
    (selection, `LIMIT`, `OFFSET`, `DEDUP`), `algebra` and `options`
    (`ORDER BY`, `GROUP BY`, `COUNT`), `relation` (`INTERSECT`,
    `DIFFERENCE`, `UNION`), `join` (`JOIN`), `state` (`UPDATE ... CONTENT`,
    `MATCH`, reading log lines), `steps` (the decisions of updates and
    deletions between reads and writes of the log), `when` (states
    recorded on a given day), `uniques`
    (unique and encrypted keys), `log` (the lines of the transaction log),
    `error`, `tx`, `model`, `debug`, `compare`, `when_at` (the date of a
    `WHEN`, its day's log file, and the last state of each registry that
    day), `scheduler` (which log
    files the daily task compresses), and `auth` (users, sessions, roles,
    and the decisions of the authentication endpoints).
  - Laws of the library are public proof functions named `law_*`.
- `tests/` — tests of the library.
- `app/` — the command line: reading requests, the files of the database,
  RON input and output, and floating-point numbers (their canonical text and
  how they compare, hashing their bits, and their sums).

## Maps and collections

The original keeps an entity's state, the entities and their registries,
the unique and encrypted keys, and the open sessions in `std` `HashMap`s
(and a `BTreeMap`). These are `std` collections, not ones of an outside
crate, and what the engine needs of them is their contents and the order in
which they are walked. So the library holds each as vectors with a stated
invariant (keys that occur once; registries in the order of their
identifiers, as the original's `BTreeMap` walks them) and a view as a `Map`
or `Seq`, which every contract speaks of. A `HashMap` keyed by `String`
would let Verus state and prove far less of each operation, and the order in
which it is walked, which some answers expose, is not a function of its
contents.
