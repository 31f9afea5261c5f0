//! The decisions of the ping exchange between the two peers: where pings go,
//! when the exchange starts, and what a received datagram means.

use vstd::prelude::*;

use crate::comm::{side_port, Port, Side};

verus! {

/// How many pings each side sends.
pub const PING_COUNT: u32 = 10;

/// Both sides start at a multiple of this many nanoseconds since the Unix
/// epoch (ten seconds).
pub const SYNC_FRAME_NANOS: u128 = 10_000_000_000;

/// One datagram exchanged between the two peers: the sender's side and the
/// ping's sequence number, so that the receiver can detect loss and
/// reordering on the wire.
#[derive(Debug, Clone, Copy, PartialEq, Eq, Structural)]
pub struct Ping {
    pub side: Side,
    pub seq: u32,
}

/// What a datagram received in the ping exchange turned out to be.
#[derive(Debug, Clone, Copy, PartialEq, Eq, Structural)]
pub enum PingReceipt {
    /// It came from another address than the peer's.
    UnknownSource,
    /// It held no bytes.
    Empty,
    /// Its bytes are no ping.
    Undecodable,
    /// The ping that was awaited.
    InSequence,
    /// A ping with another sequence number than the one awaited.
    OutOfSequence { expected: u32, got: u32 },
}

/// The port that pings from `side` are sent to: the other side's.
pub fn peer_port(side: Side) -> (p: Port)
    ensures
        p == side_port(side.other_spec()),
{
    side.other().port()
}

/// Reads a datagram received while awaiting ping number `expected`:
/// `from_peer` says whether it came from the peer's address, `received` how
/// many bytes it held, and `decoded` what they decode to as a ping, if anything.
pub fn classify_ping(expected: u32, from_peer: bool, received: usize, decoded: Option<Ping>) -> (r:
    PingReceipt)
    ensures
        r == (if !from_peer {
            PingReceipt::UnknownSource
        } else if received == 0 {
            PingReceipt::Empty
        } else {
            match decoded {
                None => PingReceipt::Undecodable,
                Some(p) => if p.seq == expected {
                    PingReceipt::InSequence
                } else {
                    PingReceipt::OutOfSequence { expected, got: p.seq }
                },
            }
        }),
{
    if !from_peer {
        return PingReceipt::UnknownSource;
    }
    if received == 0 {
        return PingReceipt::Empty;
    }
    match decoded {
        None => PingReceipt::Undecodable,
        Some(p) => {
            if p.seq != expected {
                PingReceipt::OutOfSequence { expected, got: p.seq }
            } else {
                PingReceipt::InSequence
            }
        },
    }
}

/// The time to wait, in nanoseconds, from `now` (nanoseconds since the Unix
/// epoch) to the next start of a sync frame; a full frame when `now` is
/// itself the start of one.
pub fn nanos_to_sync_point(now: u128) -> (rest: u128)
    ensures
        rest == SYNC_FRAME_NANOS - now % SYNC_FRAME_NANOS,
        0 < rest <= SYNC_FRAME_NANOS,
        (now + rest) % (SYNC_FRAME_NANOS as int) == 0,
{
    let rest = SYNC_FRAME_NANOS - now % SYNC_FRAME_NANOS;
    proof {
        let f = SYNC_FRAME_NANOS as int;
        let n = now as int;
        assert((n + (f - n % f)) % f == 0) by (nonlinear_arith)
            requires
                f > 0,
                n >= 0,
        ;
    }
    rest
}

} // verus!
