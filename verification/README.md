# airboard

The protocol core of AirBoard, a peer-to-peer LAN clipboard synchronizer,
written in Verus and verified.

- `src/` is the verified library: identity keys, signatures, key agreement,
  session-key derivation and authenticated encryption over the RustCrypto
  crates; the signed, length-delimited pairing transcripts and the checks
  each side of a pairing applies; the per-session replay window; clipboard
  deduplication by content hash and packet-ID cache; the registries of
  discovered peers and trusted devices; discovery destinations and the
  line and word parsing of `ip addr` output (the address tokens themselves
  are parsed by the standard library in `app/`); text-only clipboard
  synchronization; and the lifecycle and reconnection decisions. The
  contracts state the results, except for values drawn from the clock or
  the random generator, and the verdict that a pairing prompt hands to
  its waiting flow (whether that flow still receives it is not modelled).
  The properties that span calls (replay rejection, bounded caches,
  last-writer-wins convergence, pairing acceptance, transcript domain
  separation) are proved as laws over the step functions that the
  contracts use.
- `tests/` runs the library with the real cryptography, Base64 and Tokio
  crates linked.
- `app/` is the service around it: process-wide state, the Tokio runtime,
  UDP discovery sockets, the pairing WebSocket exchange, clipboard access,
  trust-store files, and the background tasks. The encrypted peer
  connection layer is supplied by the embedding application through the
  `PeerTransport` trait.
