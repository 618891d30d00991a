# vaultdb

A folder of Markdown notes with YAML frontmatter and `[[wikilinks]]`, used as a
database: conditions, sorted queries, a graph of links, schemas, planned changes,
renames that survive a crash, exports, a full-text index and a set of tools for
agents.

- `src/` holds the rules, as functions on plain values whose contracts Verus proves.
  The disk is a picture (`tree::Tree`) that the caller takes; changes come out as
  texts to write, or as runs that name one step at a time and are told how it went.
- `src/*/laws.rs`, and the functions `law_*` beside the code, state what holds of the
  library as a whole; `src/runs.rs` says what is on disk once a run was carried out to
  its end.
- What `regex`, `url`, `csv`, `serde_yaml` and `serde_json` do is taken from them: the
  functions marked `external_body`, and the names without a body that they speak of,
  say what is believed.
- `app/` is the program: arguments, files, locks, SQLite, spreadsheets and the server.
- `tests/` runs the library from outside.
