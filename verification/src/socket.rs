//! The side of a socket, read from its name.

use vstd::prelude::*;

use crate::comm::{self, side_from_name, side_named};

verus! {

/// Which of the two peers a socket belongs to.
#[derive(Debug, Clone, Copy, PartialEq, Eq, Structural)]
pub enum Side {
    A,
    B,
}

/// The side that a name stands for: `"b"` in either case is `B`, anything else is `A`.
pub open spec fn socket_side_named(name: Seq<char>) -> Side {
    match side_named(name) {
        comm::Side::A => Side::A,
        comm::Side::B => Side::B,
    }
}

impl From<&str> for Side {
    fn from(value: &str) -> (side: Side) {
        match side_from_name(value) {
            comm::Side::A => Side::A,
            comm::Side::B => Side::B,
        }
    }
}

impl vstd::std_specs::convert::FromSpecImpl<&str> for Side {
    open spec fn obeys_from_spec() -> bool {
        true
    }

    open spec fn from_spec(value: &str) -> Side {
        socket_side_named(value@)
    }
}

} // verus!
