# dlmgr

A download manager that fetches a file over HTTP in byte ranges, from several
servers and with several tasks at once, and hands the bytes to a consumer in
file order. When servers do not take range requests it falls back to one
sequential request.

- `src/` is the library, verified with Verus: how a file is cut into ranges
  (`planner`), how out-of-order chunks are put back in order (`reorder`), what a
  worker does after each attempt at a range (`worker`), which server each
  attempt goes to (`urlset`), how server answers become a download plan
  (`validate`, `headers`), the builder and its settings (`builder`), and the
  consumers that hash the stream (`hashing`, `consumers`). Calls into `sha2`,
  `hex`, `reqwest`, `url` and `tokio` stand behind small trusted wrappers.
  Where a crate documents a result (hashing, hex, URL parsing and comparison,
  semaphore permits, the pairing of a one-shot channel's two ends), the
  wrapper's contract states it; whether building an HTTP client succeeds
  depends on the system, so that wrapper claims nothing about its outcome.
- `app/` runs it: the command-line downloader, the async tasks, the HTTP
  requests, the file consumer and the test server.
- `tests/` exercises the library on concrete values.
