# websocket_stream

RFC-6455 websocket frames over a TCP stream, with the framing verified by Verus.

- `src/util.rs`: op codes, the masks of the frame header, and the error types.
- `src/writer.rs`: lays out the bytes of a frame (op-code byte, payload-length
  field, payload).
- `src/reader.rs`: the frame reader, a state machine fed what each read of the
  socket gave; it keeps partial fields, unmasks the payload, gives up on a
  stalled payload after three more reads that find nothing waiting, answers
  a read of zero bytes with `DataStop`, and stays failed after a reserved
  op code.
- `src/laws.rs`: what holds of the two together, chiefly that the reader gives
  back the message of every frame that the writer lays out and a client masks,
  and of every client frame whatever its FIN and RSV bits, however its bytes
  are split over reads and over calls of `read()`, as long as no stall in the
  payload makes the reader give the message up (four reads in a row that find
  nothing waiting).
- `app/lib.rs`: `WebsocketStream`, which drives a `TcpStream` with `fcntl`,
  `read` and `write` from `libc` and reads `errno`.
