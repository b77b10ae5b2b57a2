# pistachio_dictionary

The logic of an offline Chinese–English dictionary with ordered word lists
that sync to the Bingqilin service, verified with Verus.

- `src/` is the verified library:
  - `text`: Unicode whitespace, trimming, decimal rendering, string helpers.
  - `search`: query routing (hanzi or latin), flat pinyin, `LIKE` escaping,
    the FTS5 expression for English terms, the search as a state machine
    (`SearchRun`) that hands out lookups and merges their rows, and greedy
    longest-match segmentation (`Segmentation`).
  - `lists`: list-name validation, new list and item records, the outcome
    of the lookups that guard an add, placement of a moved item, TSV export.
  - `db`: the read-only `file:` URI of the dictionary, whether the
    user-writable copy is current, timestamps and fresh ids.
  - `sync`: outbox records, connector selection and the mock connector,
    per-op result handling, tallies and reports.
  - `error`: the application error and its user-facing text.
- `tests/` exercises the library on concrete values.
- `app/` is the desktop shell: Tauri commands, SQLite access, HTTP pushes,
  and fractional item positions. It runs the library's state machines
  against the database and the network.
