# gtm_sync

A service that reads the time data that gtm (git time metrics) keeps in git
notes and syncs it to a metrics backend.

- `src/` is the library, verified with Verus: the clone-URL grammar, the
  configuration and the paths derived from it, the grammar of gtm's notes
  and their folding into per-file records, adding and looking up
  repositories, and the decisions of a sync (what to send, where, and how
  results are reported).
- `app/` is the program around it: the HTTP routes, reading and writing the
  TOML configuration, cloning and fetching with git2, and the requests to the
  backend.
- `tests/` runs the library on concrete values.
