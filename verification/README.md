# CyberScope

A private web console for FOFA asset searches: one administrator signs in,
submits a query, watches the job and downloads the rows as CSV, JSON or TXT.

## Layout

- `src/` is the library, verified with Verus. It holds the logic of the
  console: query and field validation for the official API and for relays,
  batch-file parsing (CIDR and full-query lines), normalisation of FOFA
  results, CSV/TXT encoding and the bookkeeping of split, transactional
  export parts, the retry state machine of a search request, the relay quota
  rules, the job table and the batch run state machine, configuration
  checks, sessions, and the web rules (static routes, cookies, paging,
  exports).
- `app/` is the program around it: the axum server, the reqwest calls,
  SQLite storage through sqlx, temporary files, the clock and the
  environment. It makes no decision of its own; each one is a call into the
  library.
- `tests/` exercises the library on concrete values.
