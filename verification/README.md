# rustrtc

The protocol logic of a WebRTC stack, verified with Verus, and the sockets and tasks around it.

- `src/` is the verified library. It does no I/O: it takes packets, times and random values, and
  says what to send and what to deliver.
  - `rtp`, `srtp`: media packets, feedback packets and their protection.
  - `transports/dtls`, `transports/sctp`, `transports/rtp`: the handshake and its keys, data
    channels, and who gets which media packet.
  - `transports/ice`: candidates, STUN, TURN and connectivity checks.
  - `media`, `stats`: samples, tracks and statistics.
  - `sdp`, `config`, `peer_connection`: negotiation.
  - `crypto`, `buffer`, `text`, `stats`: where other crates are called, with what is relied on.
- `tests/` runs the library.
- `app/` runs it over sockets with tokio.

Proof functions whose names begin with `law_` state what holds across several functions, such as
that what one end writes the other reads back.
