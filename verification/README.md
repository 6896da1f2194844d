# util

Conversion between ESB XML messages and JSON, and the decision logic of a
stream over a set of futures and of a future with a deadline, each stated by
contracts and proved.

- `src/` is the verified library.  `esb/to_json.rs` turns the events of an
  XML message into JSON; `esb/to_xml.rs` writes a JSON value as an ESB
  message.  `xml.rs`, `json.rs` and `bytes_buf.rs` hold the trusted wrappers
  around `quick_xml`, `serde_json` and `bytes`, with the names (`xml_events`,
  `json_read`, ...) that the contracts use for what those crates compute.
  `select.rs`, `stream_vec.rs` and `timeout.rs` decide, from the result of
  each poll, what a stream or a future reports.
- `app/` holds what polls: the `Stream` and `Future` impls, the `Timeout`
  trait, and the conversions with `quick_xml`'s error type.
- `tests/` runs the library on concrete messages.
