//! Building blocks of a two-peer UDP hole-punching client: the peer sides and
//! their ports, the STUN (RFC 5389) header and attribute codec, and the
//! decisions taken while talking to a STUN server and to the other peer.

pub mod be;
pub mod comm;
pub mod session;
pub mod socket;
pub mod stun;
