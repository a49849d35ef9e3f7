# signaling_server

A WebSocket signaling server for WebRTC. Clients join a room with a key,
receive the room's roster, relay SDP offers/answers and ICE candidates to
one another by member id, and leave (explicitly or by disconnecting).

- `src/` is the verified core (Verus): rooms and members (`room`), the
  message types (`message`), the table of rooms (`state`, a `dashmap`
  behind specified wrappers), the per-request decisions with explicit
  destinations (`signaling`), the handling of one connection's requests
  (`handler`), and proofs of the properties that hold across requests
  (`laws`).
- `app/` is the server program: sockets, JSON (serde), channels, and the
  table that maps member ids to their outbound channels.
- `tests/` exercise the library on concrete values.
