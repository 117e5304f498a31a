# libwing

A library for talking to Behringer Wing digital mixing consoles, with its protocol logic
verified by Verus.

- `src/` holds the logic and its proofs: the decoder of the console's byte stream
  (`wire`, `console`), the encoders of requests and parameter changes (`encode`,
  `console`, `meter`), node definitions and values (`node`, `text`, `json`), the parameter
  catalog (`catalog`), discovery (`discovery`), property subscriptions (`subscriptions`), the
  decisions of the loop that owns a connection (`dispatch`),
  shared-connection decisions (`shared`), the simplified message stream (`simple`), and
  the round-trip and streaming laws (`laws`).
- `app/` holds what runs around it: the TCP and UDP sockets, the reader threads, the
  connection manager, JSON rendering with `jzon`, and the Erlang NIF built with `rustler`.
- `tests/` exercises the library on concrete messages.
