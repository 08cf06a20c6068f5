# lqs

Query databases in SQL-FWS format: standard SQL with the SELECT clause last,
as in `FROM table WHERE id = 1 SELECT id`.

The library (`src/`) is verified with Verus:

- `lqs` — the translator from SQL-FWS to standard SQL (`parse`), with its
  specification (`translate`) and the parser state machine.
- `laws` — proved properties of the translation: a query of plain words is
  reordered to select, from, where, whether WHERE or SELECT comes second; a
  trailing `;` changes nothing; a query that does not begin with `from` only
  gets lowered; ASCII queries, nested queries included, are lowered letter
  by letter, so they translate alike in any case and come out without
  capital letters.
- `config` — connections read from the INI configuration file.
- `table` — the text table in which query results are shown; with printable
  ASCII cells every line is as long as its border.
- `connector` — which database a connection names, and its client address.
- `session` — the line that ends the interactive mode.
- `text` — string helpers stated over `Seq<char>`.

The program around it (`app/`) reads the command line and the configuration
file, talks to PostgreSQL and SurrealDB, and prints the results.
