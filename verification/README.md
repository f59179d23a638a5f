# yamux_cli

The verified core of `yamux`, a command-line tool that multiplexes TCP,
Unix-domain-socket and UDP traffic over one yamux session carried on standard
input and output.

- `src/args.rs`: what a command line asks for (`Args::command`): TCP or
  Unix-socket listening or connecting, `-ul [HOST] PORT` (receive UDP there)
  and `-u HOST PORT` (send the carried datagrams there).
- `src/port.rs`: reading port numbers as `str::parse::<u16>` does.
- `src/listen_and_connect.rs`: listen and connect endpoints.
- `src/udp_frame.rs`: the length-prefixed framing of UDP datagrams inside a
  stream, and the state machine of the side that reads them back
  (`DatagramReader`, whose type invariant keeps every awaited length within
  the receive buffer).
- `src/peer_table.rs`: which stream carries which UDP peer's datagrams, and
  whether a datagram reuses its peer's stream or opens one (`route`). The
  table is a vector of entries with no address twice (a type invariant), not
  a `HashMap`: vstd's `HashMap` contract is usable only for keys whose
  hashing it models, such as integers, and a UDP peer's address (address
  family, 128-bit IP, port, flow info, scope id) fits no integer key; with a
  struct key not even that a key is present after `insert` can be proved
  (tried with `PeerAddr` deriving `Hash`). `record_opened` records a stream
  that opened and hands back its reading side (`PeerReturnPath`), which
  addresses every datagram it reads to that peer only.
- `app/`: the program itself: clap, tokio sockets, the yamux session and the
  relay loops; they take their decisions from the modules above and keep the
  I/O, the locking and the logging.
