# quickload

A chunked, concurrent HTTP downloader. The decisions it makes are a verified library:

- `src/` — the library, verified with Verus: splitting the data into chunks (`chunker`,
  `chunk_picker`, `linear_chunk_picker`), the record of the finished byte ranges
  (`progress_state`, `progress_state_reporter`), and the loader's rules (`loader`: the `Range`
  header, the response check, the `Content-Length` and `Accept-Ranges` parsing, the retry policy,
  the chunk size check, the hash check and the write loop's state machine).
- `app/` — the I/O around it: the HTTP requests with hyper, the tokio tasks and channels, the disk
  writes and allocation, the serde forms of the library's types.
- `tests/` — tests of the library on concrete values.
