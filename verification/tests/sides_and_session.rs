use stun_common::comm::{self, Side};
use stun_common::session::{
    classify_ping, nanos_to_sync_point, peer_port, Ping, PingReceipt, PING_COUNT,
    SYNC_FRAME_NANOS,
};
use stun_common::socket;

#[test]
fn ports_of_sides() {
    assert_eq!(Side::A.port(), 10010);
    assert_eq!(Side::B.port(), 10011);
    assert_eq!(peer_port(Side::A), 10011);
    assert_eq!(peer_port(Side::B), 10010);
}

#[test]
fn other_side() {
    assert_eq!(Side::A.other(), Side::B);
    assert_eq!(Side::B.other(), Side::A);
    for s in [Side::A, Side::B] {
        assert_eq!(s.other().other(), s);
        assert_ne!(s.other().port(), s.port());
    }
}

#[test]
fn side_from_names() {
    assert_eq!(Side::from("b"), Side::B);
    assert_eq!(Side::from("B"), Side::B);
    assert_eq!(Side::from("a"), Side::A);
    assert_eq!(Side::from("A"), Side::A);
    assert_eq!(Side::from(""), Side::A);
    assert_eq!(Side::from("bb"), Side::A);
    assert_eq!(Side::from("side b"), Side::A);
    assert_eq!(comm::side_from_name("c"), Side::A);
}

#[test]
fn side_names_roundtrip() {
    assert_eq!(Side::A.as_str(), "a");
    assert_eq!(Side::B.as_str(), "b");
    let a: &'static str = Side::A.into();
    assert_eq!(a, "a");
    for s in [Side::A, Side::B] {
        let name: &'static str = s.into();
        assert_eq!(Side::from(name), s);
    }
}

#[test]
fn socket_side_from_names() {
    assert!(matches!(socket::Side::from("b"), socket::Side::B));
    assert!(matches!(socket::Side::from("B"), socket::Side::B));
    assert!(matches!(socket::Side::from("a"), socket::Side::A));
    assert!(matches!(socket::Side::from("x"), socket::Side::A));
}

#[test]
fn ping_receipts() {
    let p = |seq| Some(Ping { side: Side::B, seq });
    assert_eq!(classify_ping(3, false, 5, p(3)), PingReceipt::UnknownSource);
    assert_eq!(classify_ping(3, true, 0, p(3)), PingReceipt::Empty);
    assert_eq!(classify_ping(3, true, 5, None), PingReceipt::Undecodable);
    assert_eq!(classify_ping(3, true, 5, p(3)), PingReceipt::InSequence);
    assert_eq!(
        classify_ping(3, true, 5, p(7)),
        PingReceipt::OutOfSequence { expected: 3, got: 7 }
    );
    assert_eq!(PING_COUNT, 10);
}

#[test]
fn sync_point_waits() {
    assert_eq!(SYNC_FRAME_NANOS, 10_000_000_000);
    assert_eq!(nanos_to_sync_point(0), SYNC_FRAME_NANOS);
    assert_eq!(nanos_to_sync_point(3_000_000_000), 7_000_000_000);
    assert_eq!(nanos_to_sync_point(1_700_000_000_123_456_789), 9_876_543_211);
    let now = 1_234_567_890_987_654_321u128;
    let rest = nanos_to_sync_point(now);
    assert!(rest > 0 && rest <= SYNC_FRAME_NANOS);
    assert_eq!((now + rest) % SYNC_FRAME_NANOS, 0);
}

#[test]
fn side_from_owned_names() {
    assert_eq!(Side::from(String::from("B")), Side::B);
    assert_eq!(Side::from(&String::from("b")), Side::B);
    assert_eq!(Side::from(String::from("a")), Side::A);
    assert_eq!(Side::from(&String::new()), Side::A);
}
