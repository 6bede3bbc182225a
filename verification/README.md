# http_server

The core of a small HTTP server, written in Verus and verified:

- `src/http_method.rs` — request methods and their text (`Method::parse`, `Method::to_string`).
- `src/http_header.rs` — `name: value` headers.
- `src/params.rs` — `ParamMap`, the name/value parameters of a request.
- `src/http_request.rs` — requests; parsing of the request line, query string, header block and body.
- `src/http_response.rs` — responses and their HTTP/1.1 encoding (`write_to`).
- `src/http_route.rs` — routes, path patterns with `:param` segments, `find_route`.
- `src/application.rs` — the routing table and the responses chosen for each connection.
- `src/text.rs` — character-level definitions (white space, search, trimming, decimal numbers).

`app/` holds the Node.js (napi) bindings and the TCP plumbing: accepting
connections, reading a request off a socket, calling the JavaScript handler
and writing the response back.
