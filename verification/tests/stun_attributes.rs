use stun_common::stun::{
    binding_step, classify_reply, missed_step, parse_attributes, parse_xor_mapped_address,
    reported_address_of, Attribute, AttributeType, StunStep, STUN_RECEIVE_TRIES,
    IpAddress, MsgType, StunHeaderRef, StunReply, XorMappedAddress, HEADER_LEN,
};

/// The IPv4 sample response of RFC 5769, section 2.2.
const IPV4_RESPONSE: [u8; 80] = [
    0x01, 0x01, 0x00, 0x3c, 0x21, 0x12, 0xa4, 0x42, 0xb7, 0xe7, 0xa7, 0x01, 0xbc, 0x34, 0xd6, 0x86,
    0xfa, 0x87, 0xdf, 0xae, 0x80, 0x22, 0x00, 0x0b, 0x74, 0x65, 0x73, 0x74, 0x20, 0x76, 0x65, 0x63,
    0x74, 0x6f, 0x72, 0x20, 0x00, 0x20, 0x00, 0x08, 0x00, 0x01, 0xa1, 0x47, 0xe1, 0x12, 0xa6, 0x43,
    0x00, 0x08, 0x00, 0x14, 0x2b, 0x91, 0xf5, 0x99, 0xfd, 0x9e, 0x90, 0xc3, 0x8c, 0x74, 0x89, 0xf9,
    0x2a, 0xf9, 0xba, 0x53, 0xf0, 0x6b, 0xe7, 0xd7, 0x80, 0x28, 0x00, 0x04, 0xc0, 0x7d, 0x4c, 0x96,
];

/// The IPv6 sample response of RFC 5769, section 2.3.
const IPV6_RESPONSE: [u8; 92] = [
    0x01, 0x01, 0x00, 0x48, 0x21, 0x12, 0xa4, 0x42, 0xb7, 0xe7, 0xa7, 0x01, 0xbc, 0x34, 0xd6, 0x86,
    0xfa, 0x87, 0xdf, 0xae, 0x80, 0x22, 0x00, 0x0b, 0x74, 0x65, 0x73, 0x74, 0x20, 0x76, 0x65, 0x63,
    0x74, 0x6f, 0x72, 0x20, 0x00, 0x20, 0x00, 0x14, 0x00, 0x02, 0xa1, 0x47, 0x01, 0x13, 0xa9, 0xfa,
    0xa5, 0xd3, 0xf1, 0x79, 0xbc, 0x25, 0xf4, 0xb5, 0xbe, 0xd2, 0xb9, 0xd9, 0x00, 0x08, 0x00, 0x14,
    0xa3, 0x82, 0x95, 0x4e, 0x4b, 0xe6, 0x7b, 0xf1, 0x17, 0x84, 0xc9, 0x7c, 0x82, 0x92, 0xc2, 0x75,
    0xbf, 0xe3, 0xed, 0x41, 0x80, 0x28, 0x00, 0x04, 0xc8, 0xfb, 0x0b, 0x4c,
];

fn header(bytes: &[u8]) -> [u8; HEADER_LEN] {
    bytes[..HEADER_LEN].try_into().unwrap()
}

const EXPECTED_V4: XorMappedAddress =
    XorMappedAddress { port: 32853, address: IpAddress::V4(0xC000_0201) };

const EXPECTED_V6: XorMappedAddress = XorMappedAddress {
    port: 32853,
    address: IpAddress::V6(0x2001_0db8_1234_5678_0011_2233_4455_6677),
};

#[test]
fn xor_mapped_ipv4_address() {
    let h = header(&IPV4_RESPONSE);
    let r = StunHeaderRef::new(&h).unwrap();
    let val = &IPV4_RESPONSE[40..48];
    assert_eq!(parse_xor_mapped_address(r, val), Some(EXPECTED_V4));
}

#[test]
fn xor_mapped_ipv6_address() {
    let h = header(&IPV6_RESPONSE);
    let r = StunHeaderRef::new(&h).unwrap();
    let val = &IPV6_RESPONSE[40..60];
    assert_eq!(parse_xor_mapped_address(r, val), Some(EXPECTED_V6));
}

#[test]
fn xor_mapped_unknown_family() {
    let h = header(&IPV4_RESPONSE);
    let r = StunHeaderRef::new(&h).unwrap();
    assert_eq!(parse_xor_mapped_address(r, &[0, 3, 0xa1, 0x47]), None);
}

#[test]
fn attributes_of_sample_ipv4_response() {
    let h = header(&IPV4_RESPONSE);
    let r = StunHeaderRef::new(&h).unwrap();
    let attrs = parse_attributes(r, &IPV4_RESPONSE[HEADER_LEN..]);
    assert_eq!(attrs.len(), 1);
    assert_eq!(
        attrs.get(&AttributeType::XorMappedAddress.code()),
        Some(&vec![Attribute::XorMappedAddress(EXPECTED_V4)])
    );
}

#[test]
fn attributes_of_sample_ipv6_response() {
    let h = header(&IPV6_RESPONSE);
    let r = StunHeaderRef::new(&h).unwrap();
    let attrs = parse_attributes(r, &IPV6_RESPONSE[HEADER_LEN..]);
    assert_eq!(attrs.len(), 1);
    assert_eq!(attrs.get(&0x0020), Some(&vec![Attribute::XorMappedAddress(EXPECTED_V6)]));
}

#[test]
fn attributes_grouped_in_order() {
    let h = header(&IPV4_RESPONSE);
    let r = StunHeaderRef::new(&h).unwrap();
    let mut body = Vec::new();
    body.extend_from_slice(&IPV4_RESPONSE[36..48]);
    body.extend_from_slice(&[0x80, 0x28, 0x00, 0x04, 1, 2, 3, 4]);
    body.extend_from_slice(&IPV6_RESPONSE[36..60]);
    let attrs = parse_attributes(r, &body);
    // Both samples carry the same transaction ID, which keys the IPv6 address.
    assert_eq!(
        attrs.get(&0x0020),
        Some(&vec![Attribute::XorMappedAddress(EXPECTED_V4), Attribute::XorMappedAddress(EXPECTED_V6)])
    );
}

#[test]
fn attributes_not_word_aligned_are_ignored() {
    let h = header(&IPV4_RESPONSE);
    let r = StunHeaderRef::new(&h).unwrap();
    let attrs = parse_attributes(r, &IPV4_RESPONSE[HEADER_LEN..78]);
    assert!(attrs.is_empty());
}

#[test]
fn attribute_with_corrupt_length_ends_reading() {
    let h = header(&IPV4_RESPONSE);
    let r = StunHeaderRef::new(&h).unwrap();
    let mut body = Vec::new();
    body.extend_from_slice(&IPV4_RESPONSE[36..48]);
    body.extend_from_slice(&[0x00, 0x20, 0x00, 0x40, 0, 1, 0, 0]);
    let attrs = parse_attributes(r, &body);
    assert_eq!(attrs.get(&0x0020), Some(&vec![Attribute::XorMappedAddress(EXPECTED_V4)]));

    let mut body = Vec::new();
    body.extend_from_slice(&[0x00, 0x20, 0x00, 0x40, 0, 1, 0, 0]);
    body.extend_from_slice(&IPV4_RESPONSE[36..48]);
    assert!(parse_attributes(r, &body).is_empty());
}

#[test]
fn short_or_unknown_address_values_are_skipped() {
    let h = header(&IPV4_RESPONSE);
    let r = StunHeaderRef::new(&h).unwrap();
    let mut body = Vec::new();
    // An IPv4 address value two bytes short, padded.
    body.extend_from_slice(&[0x00, 0x20, 0x00, 0x06, 0x00, 0x01, 0xa1, 0x47, 0xe1, 0x12, 0, 0]);
    // An unknown family.
    body.extend_from_slice(&[0x00, 0x20, 0x00, 0x04, 0x00, 0x07, 0xa1, 0x47]);
    body.extend_from_slice(&IPV4_RESPONSE[36..48]);
    let attrs = parse_attributes(r, &body);
    assert_eq!(attrs.get(&0x0020), Some(&vec![Attribute::XorMappedAddress(EXPECTED_V4)]));
}

#[test]
fn no_attributes() {
    let h = header(&IPV4_RESPONSE);
    let r = StunHeaderRef::new(&h).unwrap();
    assert!(parse_attributes(r, &[]).is_empty());
    assert!(parse_attributes(r, &IPV4_RESPONSE[20..36]).is_empty());
}

#[test]
fn attribute_type_codes() {
    assert_eq!(AttributeType::XorMappedAddress.code(), 0x0020);
    assert_eq!(AttributeType::try_from(0x0020), Ok(AttributeType::XorMappedAddress));
    assert_eq!(AttributeType::try_from(0x8022), Err(0x8022));
    assert_eq!(
        Attribute::XorMappedAddress(EXPECTED_V4).attribute_type(),
        AttributeType::XorMappedAddress
    );
}

#[test]
fn reply_from_other_source_or_too_short() {
    assert!(matches!(classify_reply(&IPV4_RESPONSE, false), StunReply::OtherSource));
    assert!(matches!(classify_reply(&IPV4_RESPONSE[..19], true), StunReply::OtherSource));
    assert!(!classify_reply(&IPV4_RESPONSE, false).is_final());
}

#[test]
fn reply_without_cookie() {
    let mut d = IPV4_RESPONSE;
    d[4] = 0;
    assert!(matches!(classify_reply(&d, true), StunReply::NotStun));
}

#[test]
fn reply_of_unsupported_type() {
    let mut d = IPV4_RESPONSE;
    d[1] = 0x02;
    assert!(matches!(classify_reply(&d, true), StunReply::UnsupportedMessageType(0x0102)));
    assert!(!classify_reply(&d, true).is_final());
}

#[test]
fn reply_with_mapped_address() {
    let reply = classify_reply(&IPV4_RESPONSE, true);
    assert!(reply.is_final());
    match reply {
        StunReply::Message { msg_type, header, attributes } => {
            assert_eq!(msg_type, MsgType::BindingResponse);
            assert_eq!(header.as_bytes(), &self::header(&IPV4_RESPONSE));
            assert_eq!(header.length(), 0x3c);
            assert_eq!(attributes.get(&0x0020), Some(&vec![Attribute::XorMappedAddress(EXPECTED_V4)]));
        }
        other => panic!("unexpected reply {other:?}"),
    }
}

#[test]
fn header_only_reply() {
    let reply = classify_reply(&IPV4_RESPONSE[..HEADER_LEN], true);
    match reply {
        StunReply::Message { msg_type, attributes, .. } => {
            assert_eq!(msg_type, MsgType::BindingResponse);
            assert!(attributes.is_empty());
        }
        other => panic!("unexpected reply {other:?}"),
    }
}

#[test]
fn reported_address_of_ipv4_response() {
    let reply = classify_reply(&IPV4_RESPONSE, true);
    assert_eq!(reported_address_of(&reply), Some(EXPECTED_V4));
    assert_eq!(binding_step(0, &reply), StunStep::Found(EXPECTED_V4));
    assert_eq!(binding_step(STUN_RECEIVE_TRIES - 1, &reply), StunStep::Found(EXPECTED_V4));
}

#[test]
fn no_reported_address_in_ipv6_response() {
    let reply = classify_reply(&IPV6_RESPONSE, true);
    assert_eq!(reported_address_of(&reply), None);
    assert_eq!(binding_step(0, &reply), StunStep::GiveUp);
}

#[test]
fn reported_address_is_the_first_ipv4_one() {
    let mut d = Vec::new();
    d.extend_from_slice(&IPV4_RESPONSE[..HEADER_LEN]);
    d.extend_from_slice(&IPV6_RESPONSE[36..60]);
    d.extend_from_slice(&IPV4_RESPONSE[36..48]);
    // Another IPv4 address, 192.0.2.2, after the first.
    d.extend_from_slice(&[0x00, 0x20, 0x00, 0x08, 0x00, 0x01, 0xa1, 0x47, 0xe1, 0x12, 0xa6, 0x40]);
    let reply = classify_reply(&d, true);
    assert_eq!(reported_address_of(&reply), Some(EXPECTED_V4));
}

#[test]
fn error_response_reports_no_address() {
    let mut d = IPV4_RESPONSE;
    d[1] = 0x11;
    let reply = classify_reply(&d, true);
    assert!(reply.is_final());
    assert_eq!(reported_address_of(&reply), None);
    assert_eq!(binding_step(3, &reply), StunStep::GiveUp);
}

#[test]
fn steps_before_and_on_the_last_try() {
    let other = classify_reply(&IPV4_RESPONSE, false);
    assert_eq!(reported_address_of(&other), None);
    assert_eq!(binding_step(0, &other), StunStep::Await);
    assert_eq!(binding_step(STUN_RECEIVE_TRIES - 2, &other), StunStep::Await);
    assert_eq!(binding_step(STUN_RECEIVE_TRIES - 1, &other), StunStep::GiveUp);
    assert_eq!(missed_step(0), StunStep::Await);
    assert_eq!(missed_step(STUN_RECEIVE_TRIES - 1), StunStep::GiveUp);
}

#[test]
fn unknown_attribute_inserted_changes_nothing() {
    let h = header(&IPV4_RESPONSE);
    let r = StunHeaderRef::new(&h).unwrap();
    let p = &IPV4_RESPONSE[36..48];
    let q = &IPV6_RESPONSE[36..60];
    let mut plain = p.to_vec();
    plain.extend_from_slice(q);
    for unknown in [&[0x80u8, 0x28, 0x00, 0x04, 1, 2, 3, 4][..], &IPV4_RESPONSE[20..36]] {
        let mut with = p.to_vec();
        with.extend_from_slice(unknown);
        with.extend_from_slice(q);
        assert_eq!(parse_attributes(r, &with), parse_attributes(r, &plain));
    }
}
