# ban2bgp

A network-wide ban list announced over BGP: an HTTP API takes prefixes to
block (for a given time) and the daemon announces them as routes to a null
next hop to the configured BGP peers, withdrawing them when they expire or
are removed.

## Layout

- `src/` — the verified library (Verus):
  - `text.rs`: character-level helpers (splitting, trimming, number parsing
    as `str::parse` does it, decimal rendering);
  - `net.rs`: prefixes and addresses as integers, and the prefix arithmetic
    of `zettabgp` that the route table relies on;
  - `config.rs`: the ini configuration and the service configuration built
    from it;
  - `rib.rs`: the route table, its updates, and the laws it keeps;
  - `peers.rs`: the registry of sessions and their states;
  - `session.rs`: the batching of route changes into UPDATE messages and
    the attributes they carry, the capabilities a session opens with, the
    decisions of the session loop;
  - `open.rs`: the OPEN exchange, the capabilities it carries as plain
    values, and the framing of messages;
  - `update.rs`: the UPDATE messages the sessions send, written by
    `zettabgp`, with the lengths and prefix limits of its encoder, and the
    NOTIFICATION messages they read;
  - `speaker.rs`: the route table together with the sessions: who is sent
    which change;
  - `api.rs`: the HTTP endpoints' decisions and texts;
  - `fltitem.rs`: flow-filter items.
- `app/` — the daemon around it: file, socket and HTTP I/O, timers, the
  JSON form of requests, the logging of incoming UPDATE messages.
- `tests/` — tests of the library.
