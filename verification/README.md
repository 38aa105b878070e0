# sqlens

A read-only SQLite explorer for the terminal, with its logic verified in
[Verus](https://github.com/verus-lang/verus).

The library holds everything that is decided: how a query becomes SQL, how an
expression is checked and labelled, how a page is counted and cut, what every key
does, and which request still matters. It reads no file, clock or terminal. The
database is asked one statement at a time: loading a page is a series of steps,
each of which names a statement and is resumed with what came back.

- `src/text.rs`, `src/names.rs`: characters, numbers, and collections by name.
- `src/scan.rs`: the scan that finds the alias of an expression.
- `src/db.rs`, `src/sql.rs`: columns, queries, cells, and their SQL.
- `src/load.rs`: loading a page, step by step.
- `src/worker.rs`: numbered requests, of which only the newest counts.
- `src/input.rs`, `src/app.rs`, `src/keys.rs`: the input line, the state of the
  explorer, and its keys.
- `src/clipboard.rs`: the OSC 52 sequence for copied text.
- `src/quoting.rs`, `src/outcome.rs`, `src/runs.rs`, `src/laws.rs`: what holds of all
  this as a whole.
- `app/`: the program: command line, SQLite, the worker thread, the terminal.

Three things are taken on trust: that `String::push` appends a character, that
`String::from_utf8_lossy` is a function of the bytes that decodes valid UTF-8 as it
stands, and that the `base64` crate's standard engine encodes as RFC 4648 says.
