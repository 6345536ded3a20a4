# adaptive_transport

An adaptive transport protocol over UDP, written in Verus: per-packet
reliability classes, priority scheduling, connections with streams,
congestion control, retransmission, a network emulator and multipath
steering.

## Layout

- `src/` is the verified library. Every function that computes carries a
  contract over a mathematical model of its data (the clock readers hand
  their reading to functions that do), and the laws of the protocol are stated
  and proved as proof functions beside the code they speak of:
  - `packet`: the 28-byte header format; encoding and decoding undo each other.
  - `scheduler`: the priority queue; packets leave by priority, then sequence
    number, equal keys in the order they were enqueued.
  - `connection`, `lifecycle`: connections, streams and the protocol's state machines.
  - `congestion`, `features`, `metrics`: the AIMD controller, window statistics, counters.
  - `sender`: admission to the congestion window, the retransmission list,
    attempt limits, timeouts, the counters each ACK or timeout updates, and
    the transfer step that accounts for every packet sent.
  - `emulator`, `multipath`: loss, delay and jitter decisions; scenarios; path choice.
  - `server`, `client`: the server's answers; the client's command language,
    its gating on the connection and the handshake's state changes.
  - `mp_report`, `experiment`, `telemetry`, `text`: the result files' CSV lines
    and the telemetry journal's JSON lines; a per-path results line is read
    back as the record that was written, and a journal string as the text that
    was written.
- `app/` is the program around it: the UDP server and interactive client,
  file output, and the floating-point controllers and path qualities.
- `tests/` runs the library on concrete values.
