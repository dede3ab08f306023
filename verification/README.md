# resy

Change detection for S3 buckets. A run lists a bucket page by page, compares every object with the
state that earlier runs left in a local SQLite database, hands each difference to a consumer, and
records what was handed over.

- `src/` is the library. Everything that decides is in it, and proved: which change an object
  stands for, what a run does after each outcome, which statements it executes, how a client is
  configured. `src/laws.rs` and `src/completion.rs` state what holds of runs as a whole, over the
  model of their surroundings in `src/model.rs`.
- `app/` connects the library to the network, to SQLite and to asynchronous consumers.
- `tests/` runs the library, with a bucket in memory and databases on disk.
