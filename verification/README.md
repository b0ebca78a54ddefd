# praxis

Request-path logic of the Praxis HTTP proxy, verified with Verus: YAML input
checks, filter registration, header mutations, W3C trace context propagation,
retries, and what is recorded of a request.

- `src/` is the library. Every function has a contract; laws that relate
  several functions stand at the end of the modules that they speak of, and
  `forwarding` states what a forwarded request carries once the trace context
  filter has run.
- `src/http_headers.rs`, `src/session_header.rs` and `src/context.rs` hold what
  is trusted rather than proved: contracts of `http` and `pingora_http`
  functions, and the outside types that values are carried in.
- `app/` connects the library to files, configuration values, spans, metrics
  and proxy sessions.
- `tests/` runs the library.
