# vpnnode

An onion-routed UDP tunnel node: a client, relays and an exit carry TCP streams over
encrypted, source-routed packets with reliable, paced delivery, and nodes find each other
through a small discovery protocol.

The library under `src/` is verified with Verus. It holds the wire formats (routing
header, tunnel messages, stream and ACK frames, handshake payloads), the session layer
(X25519 key agreement, ChaCha20-Poly1305 sealing, the replay window), the reliable
stream (ordering, ACK accounting, retransmission selection), the flow and stream tables,
the per-role decision steps of client, relay and exit, discovery, route scoring inputs
and the configuration and report parsers. Each public function states its result in its
contract; laws that span several calls stand as public proof functions beside the code
they speak of.

Calls into the cryptographic crates (`x25519-dalek`, `chacha20poly1305`, `hkdf`, `hmac`,
`sha2`, `rand_core`) and the system clock are made through small trusted wrappers whose
contracts say what those crates document.

`app/` is the program around the library: argument and configuration handling, sockets,
the TUN device, tokio tasks and logging. It performs the actions the library decides and
feeds back what happened.

`tests/` runs the library against the real outside crates.
