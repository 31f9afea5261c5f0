# stun_common

A client for UDP hole punching between two peers, `A` and `B`. Each peer binds
its side's port, asks a public STUN server (RFC 5389) for the address it is
seen from, and then both exchange ten pings starting at the same ten-second
sync point.

- `src/` is the library, each function with a proved contract:
  - `comm.rs`: the two sides, their ports and names;
  - `socket.rs`: a socket's side read from its name;
  - `be.rs`: big-endian integers read from bytes;
  - `stun.rs`: the STUN header (message type, length, magic cookie,
    transaction ID), the attributes that follow it (XOR-MAPPED-ADDRESS), and
    the reading of a datagram received while awaiting a binding response,
    and the address that the replies report;
  - `session.rs`: the ping exchange's decisions: the peer's port, the wait to
    the next sync point, and what a received datagram means.
- `app/main.rs` is the program around it: command line, logging, sockets,
  random transaction IDs, the wire encoding of pings, and the loops that
  send, receive and sleep.
- `tests/` runs the library on concrete values, among them the sample
  responses of RFC 5769.
