use stun_common::stun::{
    HeaderError, MsgType, StunHeader, StunHeaderImpl, StunHeaderRef, HEADER_LEN, MAGIC_COOKIE,
};

#[test]
fn test_header() {
    let mut s = StunHeader::new();
    s.set_message_type(MsgType::BindingRequest).set_length(10);

    assert_eq!(s.length(), 10);
    assert_eq!(s.message_type().ok(), Some(MsgType::BindingRequest));

    let s = StunHeader::new();
    assert_eq!(s.length(), 0);
    assert_eq!(s.message_type().ok(), None);
}

#[test]
fn new_header_has_only_the_cookie() {
    let s = StunHeader::new();
    let mut expected = [0u8; HEADER_LEN];
    expected[4..8].copy_from_slice(&MAGIC_COOKIE.to_be_bytes());
    assert_eq!(s.as_bytes(), &expected);
    assert_eq!(s.message_type(), Err(0));
    assert_eq!(s.transaction_id(), [0u8; 12]);
}

#[test]
fn binding_request_bytes() {
    let id = [1, 2, 3, 4, 5, 6, 7, 8, 9, 10, 11, 12];
    let h = StunHeader::new_binding_request(id);
    assert_eq!(
        h.as_bytes(),
        &[0x00, 0x01, 0x00, 0x00, 0x21, 0x12, 0xA4, 0x42, 1, 2, 3, 4, 5, 6, 7, 8, 9, 10, 11, 12]
    );
    assert_eq!(h.message_type(), Ok(MsgType::BindingRequest));
    assert_eq!(h.length(), 0);
    assert_eq!(h.transaction_id(), id);
}

#[test]
fn binding_request_is_accepted_on_receipt() {
    let id = [9u8; 12];
    let h = StunHeader::new_binding_request(id);
    let r = StunHeaderRef::new(h.as_bytes()).expect("a binding request carries the cookie");
    assert!(r.valid());
    assert_eq!(r.message_type(), Ok(MsgType::BindingRequest));
    assert_eq!(r.length(), 0);
    assert_eq!(r.transaction_id(), id);
}

#[test]
fn header_without_cookie_is_refused() {
    let bytes = [0u8; HEADER_LEN];
    assert_eq!(StunHeaderRef::new(&bytes).err(), Some(HeaderError::MissingMagicCookie));
    assert!(!StunHeaderImpl(&bytes).valid());
    let mut bytes = *StunHeader::new().as_bytes();
    bytes[7] = 0x43;
    assert!(StunHeaderRef::new(&bytes).is_err());
}

#[test]
fn setters_write_their_field_only() {
    let mut s = StunHeader::new();
    s.set_transaction_id([0xAB; 12]);
    s.set_length(0x1234);
    s.set_message_type(MsgType::BindingResponseError);
    assert_eq!(
        s.as_bytes(),
        &[0x01, 0x11, 0x12, 0x34, 0x21, 0x12, 0xA4, 0x42, 0xAB, 0xAB, 0xAB, 0xAB, 0xAB, 0xAB, 0xAB,
          0xAB, 0xAB, 0xAB, 0xAB, 0xAB]
    );
    assert_eq!(s.length(), 0x1234);
    assert_eq!(s.message_type(), Ok(MsgType::BindingResponseError));
    s.set_message_type(MsgType::BindingResponse);
    assert_eq!(s.message_type(), Ok(MsgType::BindingResponse));
    assert_eq!(s.length(), 0x1234);
    assert_eq!(s.transaction_id(), [0xAB; 12]);
}

#[test]
fn message_type_codes() {
    assert_eq!(MsgType::BindingRequest.code(), 0x0001);
    assert_eq!(MsgType::BindingResponse.code(), 0x0101);
    assert_eq!(MsgType::BindingResponseError.code(), 0x0111);
    for t in [MsgType::BindingRequest, MsgType::BindingResponse, MsgType::BindingResponseError] {
        assert_eq!(MsgType::try_from(t.code()), Ok(t));
    }
    assert_eq!(MsgType::try_from(0x0002), Err(0x0002));
    assert_eq!(MsgType::try_from(0), Err(0));
}

#[test]
fn random_binding_request() {
    let h = StunHeader::new_random_binding_request().expect("the random source works");
    assert_eq!(&h.as_bytes()[..8], &[0x00, 0x01, 0x00, 0x00, 0x21, 0x12, 0xA4, 0x42]);
    assert_eq!(h.message_type(), Ok(MsgType::BindingRequest));
    assert_eq!(h.length(), 0);
    assert_eq!(&h.as_bytes()[8..], &h.transaction_id()[..]);
    assert!(StunHeaderRef::new(h.as_bytes()).is_ok());
    let other = StunHeader::new_random_binding_request().unwrap();
    assert_ne!(h.transaction_id(), other.transaction_id());
}
