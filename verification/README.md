# transfer

A small file-transfer server. A console (`exit`, `start [port]`, `status`,
`port`) starts an HTTP/1.1 listener that serves the files of the `res`
directory and an index page linking to them.

- `src/` is the verified library: the console's decisions (`transfer`,
  `serve`, `cli`), the file set (`file_tree`), the response model and its
  byte form (`response`, `http_parse`), the index page (`html_parse`), the
  first single-threaded server's answers (`run`) and byte helpers (`text`).
- `app/` runs the terminal console, the listener thread and its sockets, and
  reads the files from disk.
- `tests/` exercises the library on concrete values.
