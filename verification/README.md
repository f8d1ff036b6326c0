# orb

A node and a relay that bridge clients to services (RTSP cameras among them)
through a relay server, with a WebRTC side for viewers in a browser.

- `src/` is the library, verified with Verus: the protocol messages and their
  framing, the node's and the relay's decisions, the bridge bookkeeping, the
  H.264 depacketizer, RTP ingestion and interleaved framing, the RTSP client's
  requests and parsers, and the WebRTC session bookkeeping. Laws that span
  several calls are public proof functions next to the code they speak of.
- `app/` is the program around it: command line, sockets, the async runtime,
  CBOR/JSON encoding, the HTTP signalling routes and the WebRTC peer
  connections. It hands the library plain values and acts on what comes back.
- `tests/` runs the library on concrete values.
