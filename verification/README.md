# Mimir

Mimir keeps a local copy of Monobank card statements and answers questions
about them over HTTP: transactions by account, card, time window and
user-defined exceptions, their tags, MCC descriptions, and CSV, JSON and
spreadsheet exports.

## Layout

- `src/` is the library, verified with Verus:
  - `datetime`: UTC instants, their order, and reading them from Unix
    timestamps and text;
  - `ranges`: which parts of a requested window are not stored yet, and how
    a window is cut into the chunks the bank accepts;
  - `sql`: statements with `?` parameters and the values bound to them;
  - `transaction`, `account`: the models, the statements that read and write
    them (each proved to bind one value per parameter), and the decisions of
    a refresh (retries, stored range, tag spreading, export rows);
  - `tags`, `mcc`, `error`, `config`, `text`: the tags column, MCC lookups,
    error answers, settings and the text helpers they share.
- `tests/` runs the library on concrete values.
- `app/` is the service around it: the HTTP routes, SQLite, the Monobank
  client, the WebSocket and logging.
