# pitchfork_proxy

The decisions behind pitchfork's local development proxy, with their
contracts proved by Verus: which daemon and port a hostname reaches, how a
TLS connection is handled, what the loopback DNS responder answers, what
`proxy setup` installs and how `--undo` reverses it, and what `proxy doctor`
concludes from its probes.

## Layout

- `src/` — the verified library.
  - `settings` — the proxy settings the library reads.
  - `names`, `text`, `split`, `order` — text and hostname primitives.
  - `sni` — reading the server name from a ClientHello.
  - `dns` — the responder: parsing a question, building and framing the
    answer.
  - `hostname` — hostname labels, checkouts of a project, and the registry
    that maps hostnames to daemons.
  - `routing` — routing a request: the order its first decisions are taken
    in, the slug table, TLS modes, daemon ports,
    forwarded headers, the pages the proxy answers with, the certificate
    authority's issuing rules and cache, the SNI peek loop, requests for the
    auto-config file, and where the proxy listens.
  - `setup` — planning, applying and undoing the system changes of
    `proxy setup`, the records kept for `--undo`, and what undo reverses.
  - `doctor` — the checks of `proxy doctor`.
  - `activity`, `throttle` — in-flight request tracking for idle stops, and
    a rate limit for log lines a client can provoke.
- `tests/` — tests of the library on concrete values.
- `app/` — the I/O around the library: commands, files, sockets and the
  setup record on disk.

Each module states laws as public proof functions named `law_…`; a law's doc
comment says in words what it proves.
