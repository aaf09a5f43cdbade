# audio_relay

Streams audio between a PC and a phone over WebSocket. `src/` is the library, verified with Verus;
`app/` is the program around it.

- `src/protocol`: messages, binary audio frames, sequence numbers, clock readings, identifiers.
- `src/audio`: PCM samples and bytes, what leaves a capture device, chunks for the rate converter,
  what fills a playback buffer.
- `src/server`: the clients and their statistics, what a connection does with each event, the feed
  of a speaker, replacing a running capture, discovery, the sample-rate request.
- `src/client.rs`: what a PC client plays, and the frames of its microphone.
- `src/address.rs`, `src/endian.rs`: addresses as text, little-endian numbers.
- `app/`: command line, sockets, threads and tasks, audio devices, JSON, and everything that
  computes with floating-point numbers.

## Binary audio frame

Little-endian: sequence (8 bytes), timestamp in milliseconds (8), sample rate in Hz (4), then the
16-bit PCM data up to the end.
