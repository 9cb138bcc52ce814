# harbor

The verified core of a small web browser: URL parsing and serialization,
HTTP/1.x request encoding and response decoding, HTML tokenization, and
the document tree with the structures that tree construction works on. Every function under `src/` carries a contract that Verus
proves, but for a few small wrappers around calls into `std`, `idna` and
`encoding_rs`, whose contracts are taken as given.

- `src/http/` — simple `scheme://host[:port]/path` addresses; the URL
  parser (a state machine with a proof that it terminates), hosts, IPv4 and
  IPv6 addresses, percent-encoding, serialization; DNS cache ageing.
- `src/http_client.rs` — requests and their integrity rules, the request
  encoder, and the response decoder (status line, headers, chunked bodies).
- `src/html5/` — input preprocessing, code point classes, character
  reference mapping, tags and DOCTYPE tokens, character data with UTF-8
  offsets, text, comment, document type and attribute nodes, and a
  standalone tokenizer whose every step is stated as a
  mathematical state machine (`html5/tokenize/steps.rs`).
- `src/html5/tree_builder.rs` — the document tree as an arena of nodes
  with parent and child links, the stack of open elements with its scopes,
  the insertion of elements, text and comments, the list of active
  formatting elements with its reconstruction and the adoption agency
  algorithm, and the insertion modes from the initial mode to the text
  mode, with the dispatch that hands a token to the current mode.
- `src/html5/in_body.rs` — the in-body insertion mode, stated token by
  token as a function of the builder's mathematical form.
- `src/text.rs`, `src/infra.rs` — string and code point helpers.
- `app/` — the command-line front end: reads an address, resolves it,
  opens the connection and prints the body of the response.
- `tests/` — the test suite, run against the compiled library.
