# rzrouter

A two-tier TCP request router. Clients send router frames naming a segment;
an edge router forwards each request to a router of the segment's zone, and a
zone router forwards it to a bridge of the segment's shard. Routing tables are
synchronized from a service registry, and hop addresses come from a resolver.

## Layout

- `src/` — the library, verified with Verus. Every function there carries a
  contract over a mathematical model of its data:
  - `protocol` — router frames, shard headers, keepalive frames, error
    responses (byte-exact specifications and decoding);
  - `tcp_server`, `connection` — how receive buffers are cut into frames and
    resynchronized after malformed bytes;
  - `routing_state`, `strmap` — the edge and zone routing tables;
  - `rzid` — change detection against the registry's version manifest and the
    plan/apply/finish steps of a synchronization;
  - `forwarder` — request classification, client request id rewriting, and
    the retry policy as a state machine;
  - `hop`, `hop_manager`, `demux`, `resolver`, `config` — hop health and
    round-robin choice, pool maintenance decisions, hop retirement, resolver
    URLs, configuration validation;
  - `buffer`, `text` — the byte buffers of the `bytes` crate and string
    helpers as the verified code sees them.
- `app/` — the program around the library: command line, async runtime,
  sockets, HTTP clients and server, metrics and logging. It performs the I/O
  and hands the results to the library's functions.
- `tests/` — tests of the library on concrete values.
