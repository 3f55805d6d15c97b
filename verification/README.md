# kith

The verified core of Kith, a local-first family-tree manager: the domain
model, GEDCOM reading, import planning and writing, the legacy LB import,
genealogical dates, search expressions, the layering of the network chart,
the command line's argument parsers, decisions and printed text.

- `src/` is the library, written in Verus. Every function carries a contract
  and is proved against it, except five small wrappers marked
  `external_body`, whose contracts are trusted: building a `String` from
  characters, the `Debug` form of a string, lowercasing, the Unicode
  alphanumeric test, and the day count of a civil date (through `jiff`).
  Import is planned, not performed: a document becomes an `ImportPlan` whose
  steps refer to earlier steps, so whoever holds the database can carry it
  out in one transaction.
- `tests/` runs the library on concrete values.
- `app/` is the `kith` command line around it: argument handling, the SQLite
  store, JSON output and printing.

Not carried over: the relationship walks that build a chart's graph, the
chart geometry (floating-point coordinates), HTML chart export, the
development seed data, and undoable deletion with its restore.
