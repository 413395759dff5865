# BlueWren

An experimental encrypted one-to-one P2P text chat over iroh/QUIC, with
fixed-length frames, out-of-band ticket exchange and a pairing code that both
users compare before they chat.

## Layout

- `src/` is the library, verified with Verus:
  - `frame.rs`: fixed-length frames (encoding, decoding, the round-trip law);
  - `pairing.rs`: the 30-bit pairing code bound to the TLS session
    (transcript, BLAKE3, display as `XXXXX-XXXXX`, symmetry and injectivity
    laws);
  - `sanitize.rs`: turning received text into text that is safe to print;
  - `session.rs`: the course of a session as a state machine (handshake,
    confirmation, acknowledgement, chat) and the ticket text;
  - `cli.rs`: the command-line options and the choices made from them;
  - `entropy.rs`: the operating system's random source.
- `app/` is the program around it: command-line parsing, the iroh endpoint,
  the streams, stdin and the timeouts.
- `tests/` exercises the library with concrete values.
