# PotatoDB

The core of an analytical SQL database that keeps its tables in Parquet files, written and verified
in Verus: the catalog, transactions and savepoints, constraints, the planning of every statement
that changes data, scripts and their statements, user-defined functions, procedures, migrations,
access rights, full-text indexes, and the printing of results.

- `src/` is the library. Each function states in its contract what it returns or changes, over the
  views of its arguments. Public proof functions named `law_...` state what holds across functions.
  `tree.rs`, `display.rs`, `history.rs`, `location.rs`, `settings.rs`, `sql_helpers.rs`, `stats.rs`,
  `text.rs`, `fulltext.rs`, `checkpoint_policy.rs` and `engine.rs` hold the few declarations that are
  believed without proof; each says which function of which crate it stands for.
- `tests/` runs the library with the real crates.
- `app/` performs what the library decides: object stores and files, queries in DataFusion, the C
  interface. The write-ahead logs are traits there; the program that embeds the database brings them.

## How a statement runs

`PotatoDB::execute` draws sequence values, expands user-defined functions and full-text matches, and
says what the statement is. The parsed statement is a tree, which `statement.rs` reads into plain
values. From these and the catalog the planning functions make the queries that are to be run, in
order, and the answers; `app/` runs the queries and hands back what they counted or found.
