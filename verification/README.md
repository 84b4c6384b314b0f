# postgrustql

The catalog and query engine of a small PostgreSQL-like database, written in
Verus. Every public function in `src/` carries a contract; Verus proves every
function's contract except those of the few trusted wrappers (marked `#[verifier::external_body]`), whose
bodies make one call into std or an outside library (chrono, uuid,
rust_decimal, sha2) and whose contracts say what that call is believed to do.

- `src/catalog/` — values, data types, columns, rows with their MVCC versions,
  tables, databases, users, roles and rights, and the server instance that
  holds them.
- `src/index/` — B-tree and hash indexes, single and composite keys.
- `src/executor/` — condition evaluation, SELECT (plain, aggregate, grouped,
  joined), window functions, subquery and compound-query results, statement
  routing, DDL, DML with
  its constraints, EXPLAIN, system catalogs and functions, VACUUM.
- `src/dump.rs`, `src/restore.rs` — the SQL dump text, and the reading of a dump.
- `src/settings.rs` — server and client settings and their defaults.
- `src/cli.rs` — what a line typed at the client asks for, and which server
  lines are prompts.
- `app/` — the program around the library: configuration files and the
  environment, the host, files and standard streams, and floating-point sums
  and means.

Laws that relate several operations are public proof functions named `law_*`.
