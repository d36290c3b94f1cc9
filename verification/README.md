# tee_server

A small HTTP file server behind TLS, as run on a host or inside an OP-TEE
trusted application, with its parsing and decisions verified in Verus.

- `src/text.rs`: byte-level text (CR LF lines, white-space words, UTF-8
  length and encoding of Latin-1 text).
- `src/decimal.rs`: decimal text of `usize`, written and read back.
- `src/http.rs`: the request parser, the responses, and the file actions
  a request asks for; `src/http_laws.rs` proves what the parser reads back
  of well-formed requests and what the responses announce.
- `src/storage.rs`: creating, reading and deleting persistent objects in
  the TEE's secure storage, as step machines over the service's replies.
- `src/command.rs`: command numbers of the trusted applications.
- `src/tls.rs`: the server side of TLS on `rustls` (keys, configuration,
  moving records between buffers and the session), and the trust anchors
  of the clients.  Each session carries a ghost record of every exchange
  with `rustls`, and the contracts of the read, write and echo rounds say
  which exchanges they made and what they did with the answers.
- `app/`: the programs (servers, clients, benchmarks, OP-TEE host and
  trusted-application glue) that do the I/O around the library.
