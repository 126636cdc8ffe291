# naboscale

A WireGuard-style mesh VPN with a coordination server, as a verified Verus library
with a thin program around it. Nodes behind NAT are reached through a relay.

| directory    | what it holds                                                      |
|--------------|--------------------------------------------------------------------|
| `src/crypto` | the Noise IKpsk2 handshake, its framing, the node's keys           |
| `src/tunnel` | per-peer sessions, relaying, keepalives, rekeying                  |
| `src/coord`  | the coordination server's rules: tokens, addresses, rate limits    |
| `src/cli`    | the node's side: keystore, configuration, requests, tunnel plans   |
| `app`        | sockets, HTTP, SQLite, the tunnel device, the command line         |
| `tests`      | the library from outside                                           |

Everything in `src` is proved against its contract. Where it calls an outside crate
(snow, the Dalek curves, BLAKE2, Argon2, XChaCha20-Poly1305, base64, uuid) the
call stands in a small function whose contract says what is relied on; these are the
functions marked `external_body`.

What holds of two nodes taken together is stated and proved in `src/tunnel/laws.rs`:
a handshake gives both sides sessions in step, a packet that goes into one device
comes out of the other, directly or through a relay, and a relay learns how to reach
a node behind NAT. What holds of one node over a row of steps (its INITs, when a peer
becomes stale) is in `src/tunnel/runs.rs`. The laws of the handshake itself are in `src/crypto/handshake.rs`,
those of the server in `src/coord`.

The tunnel does no I/O of its own. `TunnelManager::step` takes in how the last command
went and hands out the next one; `app/tunnel.rs` carries the commands out. The server's
handlers work on a directory in memory, which `app/coord.rs` reads from and writes
through to SQLite.
