# link

Link, the wire of the Grid, as a verified library: the framing, the codec and the decisions of
the transport and the recordings, each with a contract that Verus proves.

- `src/` is the library. `protocol` holds the wire's constants and structs (real numbers as
  binary32 bits), `words` and `layout` state every payload as little-endian words, `codec`
  turns messages into frames and frames into messages by refusal, `transport` reassembles
  frames, buffers writes, judges which message may arrive at which end and judges the
  handshake, `recording` writes and reads Disks, `abi` holds the decisions behind the C
  boundary, `wording` says refusals and failures in words, and `laws` states what holds
  across them: decode gives back what encode wrote, frames say where they end, a connection
  and a replay hand over what was written whole and in order, a recording header reads back
  as written.
- Byte sources and sinks may model their streams (`Source::stream`, `Sink::intake`) and
  promise to wait only when drained, never to fail, or to take everything
  (`Source::waits_only_when_drained`, `Source::never_fails`, `Sink::takes_everything`); the reader, the write buffer, a connection and a recording state
  what they take and give in those terms, and each answer of a source or sink is turned into a
  step by a verified function (`FrameReader::answer_to_read`, `answer_to_write`).
- `app/` is what stands around it: TCP sockets, files, and the C table both consumers load.
- `tests/` runs the library on concrete values.
