# echo_server

A small Redis-like key-value server. Clients send requests in the RESP2 protocol (an array
of bulk strings such as `*2\r\n$3\r\nGET\r\n$3\r\nkey\r\n`); the server answers `PING`,
`GET` and `SET`.

- `src/` is the verified library: the request reader (`reader`, `number`, `server`), the
  commands and their replies (`command`), the in-memory store (`mem_store`), the request
  counter (`lib.rs`), and the proof that a request as a client writes it reads back as its
  arguments in upper case (`encoding`). Replies are encoded with the `redis-protocol` crate.
- `app/` is the program: the TCP listener, the worker threads and the shared store.
- `tests/` runs the library on concrete requests.
