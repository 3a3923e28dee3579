# game_sockets

A benchmark suite for game transport protocols (UDP, TCP, QUIC and
GameNetworkingSockets): a server echoes probe packets, a client sends a 60 Hz
unreliable stream and a 20 Hz reliable stream and records round trips, and a
report tool summarizes the recorded runs.

## Layout

- `src/` is the verified library (Verus). It holds the stream-id flags, the
  byte formats (big-endian integers, stream frames, UDP datagrams,
  length-prefixed frames, benchmark packets with their CRC), the connection
  tables and per-event decisions of each transport backend, the server's and
  the client's state machines, and the counting, grouping and sorting behind
  the reports. Calls into `uuid`, `crc32fast`, `rand` and the system clock sit
  behind small trusted wrappers whose contracts are documented where they
  stand.
- `tests/` runs the library on concrete values.
- `app/` is the program around the library: argument parsing, sockets and
  async runtimes, CSV and JSON files, the floating-point statistics and the
  plots.

## The GameNetworkingSockets transport

`app/protocols/gns.rs` drives Valve's GameNetworkingSockets through its Rust
bindings (`gns::sys` and friends). The crate that the registry serves under
the name `gns` is a different, unrelated project, so that file does not
compile against it; the rest of `app/` does. The GNS backend's decisions
(`src/gns.rs`) do not depend on the bindings and are verified like the
others.
