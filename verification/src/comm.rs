//! The two sides of the exchange and the UDP port each of them binds.

use vstd::prelude::*;

verus! {

/// A UDP port number.
pub type Port = u16;

/// Which of the two peers this client is.
#[derive(Debug, Clone, Copy, PartialEq, Eq, Structural)]
pub enum Side {
    A,
    B,
}

/// The port that a side binds: `A` takes 10010, `B` takes 10011.
pub open spec fn side_port(side: Side) -> Port {
    match side {
        Side::A => 10010,
        Side::B => 10011,
    }
}

/// The side that a name stands for: `"b"` in either case is `B`, anything else is `A`.
pub open spec fn side_named(name: Seq<char>) -> Side {
    if name.len() == 1 && (name[0] == 'b' || name[0] == 'B') {
        Side::B
    } else {
        Side::A
    }
}

impl Side {
    /// The UDP port this side binds.
    pub fn port(self) -> (p: Port)
        ensures
            p == side_port(self),
    {
        match self {
            Side::A => 10010,
            Side::B => 10011,
        }
    }

    /// The peer on the other end: `A` for `B` and `B` for `A`.
    pub open spec fn other_spec(self) -> Side {
        match self {
            Side::A => Side::B,
            Side::B => Side::A,
        }
    }

    /// The peer on the other end: `A` for `B` and `B` for `A`.
    pub fn other(self) -> (o: Side)
        ensures
            o == self.other_spec(),
    {
        match self {
            Side::A => Side::B,
            Side::B => Side::A,
        }
    }

    /// The name of this side, `"a"` or `"b"`.
    pub fn as_str(self) -> (name: &'static str)
        ensures
            name == side_str(self),
            name@ == side_name(self),
    {
        proof {
            reveal_strlit("a");
            reveal_strlit("b");
        }
        match self {
            Side::A => "a",
            Side::B => "b",
        }
    }
}

/// The string that names a side.
pub open spec fn side_str(side: Side) -> &'static str {
    match side {
        Side::A => "a",
        Side::B => "b",
    }
}

/// The name of a side: `"a"` for `A`, `"b"` for `B`.
pub open spec fn side_name(side: Side) -> Seq<char> {
    match side {
        Side::A => seq!['a'],
        Side::B => seq!['b'],
    }
}

/// Reads a side from its name; see [`side_named`].
pub fn side_from_name(name: &str) -> (side: Side)
    ensures
        side == side_named(name@),
{
    broadcast use vstd::string::axiom_spec_iter, vstd::string::next_postcondition;

    let mut chars = name.chars();
    let first = chars.next();
    let second = chars.next();
    match (first, second) {
        (Some(c), None) => {
            if c == 'b' || c == 'B' {
                Side::B
            } else {
                Side::A
            }
        },
        _ => Side::A,
    }
}

impl From<&str> for Side {
    fn from(name: &str) -> (side: Side) {
        side_from_name(name)
    }
}

impl vstd::std_specs::convert::FromSpecImpl<&str> for Side {
    open spec fn obeys_from_spec() -> bool {
        true
    }

    open spec fn from_spec(name: &str) -> Side {
        side_named(name@)
    }
}

/// Each side's peer is the other side, whose peer is the side itself, and the
/// two bind different ports.
pub proof fn law_other_side(side: Side)
    ensures
        side.other_spec() != side,
        side.other_spec().other_spec() == side,
        side_port(side.other_spec()) != side_port(side),
{
}

/// A side read back from its own name is that side.
pub proof fn law_name_roundtrip(side: Side)
    ensures
        side_named(side_name(side)) == side,
{
}

impl From<String> for Side {
    fn from(name: String) -> (side: Side) {
        side_from_name(name.as_str())
    }
}

impl vstd::std_specs::convert::FromSpecImpl<String> for Side {
    open spec fn obeys_from_spec() -> bool {
        true
    }

    open spec fn from_spec(name: String) -> Side {
        side_named(name@)
    }
}

impl From<&String> for Side {
    fn from(name: &String) -> (side: Side) {
        side_from_name(name.as_str())
    }
}

impl vstd::std_specs::convert::FromSpecImpl<&String> for Side {
    open spec fn obeys_from_spec() -> bool {
        true
    }

    open spec fn from_spec(name: &String) -> Side {
        side_named(name@)
    }
}

impl From<Side> for &'static str {
    fn from(side: Side) -> (name: &'static str) {
        side.as_str()
    }
}

impl vstd::std_specs::convert::FromSpecImpl<Side> for &'static str {
    open spec fn obeys_from_spec() -> bool {
        true
    }

    open spec fn from_spec(side: Side) -> &'static str {
        side_str(side)
    }
}

} // verus!
