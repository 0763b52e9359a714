# chbackup

Backups of ClickHouse tables to S3-compatible storage, with the rules of the program
verified in [Verus](https://github.com/verus-lang/verus).

- `src/` is the library. It holds what the program decides and computes: which parts of a
  backup are uploaded, copied or carried over (`upload`), how requests to S3 are split,
  timed and retried (`storage`), what the HTTP API answers and which operations may run
  together (`server`), and when the watch loop makes which backup (`watch`). Every function
  states what it does, and the statements are proved. Proof functions whose names start
  with `law_` state what holds of several functions together.
- `tests/` runs the library on concrete values.
- `app/` talks to S3, the file system, HTTP and the clock, and asks the library what to do.

The library calls `chrono`, `glob`, `base64`, `lz4_flex`, `zstd`, `flate2` and `tokio` through
small functions whose contracts say what is taken for granted of each of them.
