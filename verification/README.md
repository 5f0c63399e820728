# library

A networked library management system whose logic is verified with Verus.

- `src/` is the verified library: the records (`model`), the request and
  response messages (`protocol`), the library's state with every operation
  specified over `state::LibraryModel` (`state`), substring search and the
  number, genre and menu parsers (`text`, `menu`), and the properties that
  span requests (`laws`).
- `app/` is the program around it: a Tokio TCP server that stores the state
  as JSON after each change and logs it to `operation_log.txt`
  (`library server`), and an interactive client (`library client`), with
  serde copies of the library's types.
- `tests/` runs the library on concrete values.
