# SQL sobre tablas CSV

A small SQL engine for tables stored as CSV files (`INSERT`, `SELECT`,
`UPDATE`, `DELETE` with `WHERE` clauses of comparisons joined by `AND`/`OR`,
and `ORDER BY`), written in Verus.

- `src/` is the library: every command is parsed and computed by verified
  functions whose contracts state the result over `Seq<char>` models
  (`texto` holds the text operations: trim, split, replace, find, integer
  parsing; `parciar` the keyword sections, comparisons, `WHERE` parser and
  evaluator; `filas` and `orden` the row handling and the stable ordering;
  `insert`, `select`, `delete`, `update` the commands; `leyes` and
  `leyes_where` the properties that relate the commands).
- `app/main.rs` is the command-line program: it reads the arguments, checks
  that the table file exists, reads and writes the CSV files, and prints.
- `tests/` runs the library on concrete commands and tables.
