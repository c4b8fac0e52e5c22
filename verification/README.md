# airplay2

The protocol core of an AirPlay 2 audio sender, written in Verus: the
functions in `src/` carry contracts that Verus proves, except the small
wrappers (marked `#[verifier::external_body]`) around calls into outside
crates and std, whose contracts are trusted and say what those calls do.

## Layout

- `src/` — the verified library
  - `rtsp/` — RTSP methods, headers, request and response encoding, the
    client session state machine, incremental decoders for responses
    (client) and requests (receiver), the `Transport` header, and the
    proofs that what one side encodes the other side decodes unchanged
  - `rtp/` — RTP headers and packets, the audio codec (AES-CTR and
    ChaCha20-Poly1305), control and timing packets, NTP-style timing, the
    retransmission buffer and loss detection
  - `ptp/` — PTP timestamps and messages, the clock estimate (median of
    measurements filtered by round-trip time), the single-role handlers and
    the node with best-master selection, as functions from events to
    actions
  - `pairing/` — HomeKit pair-setup and pair-verify state machines, TLV8
    encoding, key storage
  - `crypto/` — SRP-6a, HKDF, X25519, Ed25519, ChaCha20-Poly1305 and AES,
    each outside primitive behind a wrapper whose contract names its result
  - `sdp/`, `daap/`, `dacp/`, `plist/`, `ntp/` — SDP parsing (RAOP stream
    parameters), DMAP/DAAP metadata, DACP remote commands, binary property
    list encoding and decoding (with the proof that decoding gives back what
    encoding wrote), NTP packets
- `tests/` — tests run against the compiled library
- `app/` — the unverified edges: UDP loops, file storage, property-list
  values with floating-point numbers, error types with `Display`

Verify with `verus` on `src/lib.rs`; run the tests with the crate built.
