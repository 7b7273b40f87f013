# gatel_core

The core of gatel, a reverse proxy and web server that is configured in
[KDL](https://kdl.dev/). What the server decides and computes stands in a
library that is verified with [Verus](https://github.com/verus-lang/verus);
what waits, reads and sends stands around it.

## Layout

- `src/` is the library. Its functions have contracts, and Verus proves that
  their bodies meet them. The exceptions are the few small functions that call
  another crate or a part of the standard library: Verus takes their contracts
  on trust and does not read their bodies.
  - `config/` reads the configuration; `router/` matches requests against
    routes; `salvo_service.rs` picks the route of a request and plans its steps.
  - `hoops/` holds the steps between a request and its goal, `goals/` files and
    redirects, `proxy/` everything that hands requests on to other servers.
  - `runtime_services/` manages services while the server runs; `admin/` is the
    interface to them.
  - `message.rs`, `net.rs`, `time.rs` and `sorted_map.rs` hold the plain values
    that the rest works on; `text.rs`, `bytes.rs`, `encoding.rs`, `http_date.rs`,
    `glob.rs` and others hold the small things.
- `app/` is the server around the library: sockets, files, processes, timers and
  the web framework. It performs what the library decides and hands the outcome
  back.
- `tests/` runs the library on given values.

## Contracts

Each type with contents worth speaking of has a view made of plain values, and
each function says what it returns as a spec function over those views. State
that changes (the upstream pool, the cache, the runtime state) is passed by
`&mut`; time is passed in, as is whatever a file, a socket or a lookup brought.

Laws that span functions are public proof functions named `lemma_..` beside
the functions they are about: a change that succeeds leaves the runtime state
valid and in its normal form, what was kept in the cache is found again while it is fresh, a path that
is served never leaves its directory, turns by weight come out even. Where a
law is about one function, the doc comment of the function names it. What the
changes of the runtime state promise is collected in
`runtime_services/operations.rs`.

What the library takes on trust is marked `external_body` and says which
function of which crate it stands for.
