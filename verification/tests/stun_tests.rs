use mc_share::client::stun::{
    build_binding_request, gave_up_message, parse_binding_response, parse_mapped, parse_xor_mapped, unresolved_message, Endpoint,
    StunError, StunEvent, StunQuery, StunStep,
};

const TID: [u8; 12] = [1, 2, 3, 4, 5, 6, 7, 8, 9, 10, 11, 12];

fn response(attributes: &[u8]) -> Vec<u8> {
    let mut v = vec![0x01, 0x01];
    v.extend_from_slice(&(attributes.len() as u16).to_be_bytes());
    v.extend_from_slice(&[0x21, 0x12, 0xa4, 0x42]);
    v.extend_from_slice(&TID);
    v.extend_from_slice(attributes);
    v
}

/// 203.0.113.7:54321, as XOR-MAPPED-ADDRESS.
fn xor_attribute() -> Vec<u8> {
    let port: u16 = 54321 ^ 0x2112;
    let ip: u32 = 0xCB00_7107 ^ 0x2112_A442;
    let mut v = vec![0x00, 0x20, 0x00, 0x08, 0x00, 0x01];
    v.extend_from_slice(&port.to_be_bytes());
    v.extend_from_slice(&ip.to_be_bytes());
    v
}

/// 198.51.100.2:62137, as MAPPED-ADDRESS.
fn mapped_attribute() -> Vec<u8> {
    let mut v = vec![0x00, 0x01, 0x00, 0x08, 0x00, 0x01];
    v.extend_from_slice(&62137u16.to_be_bytes());
    v.extend_from_slice(&0xC633_6402u32.to_be_bytes());
    v
}

#[test]
fn request_has_type_cookie_and_transaction() {
    let r = build_binding_request(&TID);
    assert_eq!(&r[..8], &[0x00, 0x01, 0x00, 0x00, 0x21, 0x12, 0xa4, 0x42]);
    assert_eq!(&r[8..], &TID);
}

#[test]
fn xor_mapped_address_is_read() {
    let e = parse_binding_response(&response(&xor_attribute()), &TID).unwrap();
    assert_eq!(e, Endpoint { ip: 0xCB00_7107, port: 54321 });
    assert_eq!(e.to_text(), "203.0.113.7:54321");
}

#[test]
fn mapped_address_is_the_fallback() {
    let e = parse_binding_response(&response(&mapped_attribute()), &TID).unwrap();
    assert_eq!(e.to_text(), "198.51.100.2:62137");
}

#[test]
fn xor_mapped_takes_precedence_in_any_order() {
    let mut both = mapped_attribute();
    both.extend(xor_attribute());
    let e = parse_binding_response(&response(&both), &TID).unwrap();
    assert_eq!(e.to_text(), "203.0.113.7:54321");
    let mut both = xor_attribute();
    both.extend(mapped_attribute());
    let e = parse_binding_response(&response(&both), &TID).unwrap();
    assert_eq!(e.to_text(), "203.0.113.7:54321");
}

#[test]
fn mapped_address_is_taken_where_the_other_cannot_be_read() {
    let mut v6 = xor_attribute();
    v6[5] = 0x02;
    let cut = vec![0x00, 0x20, 0x00, 0x04, 0x00, 0x01, 0x00, 0x00];
    for unreadable in [v6, cut] {
        let mut both = mapped_attribute();
        both.extend(unreadable.clone());
        let e = parse_binding_response(&response(&both), &TID).unwrap();
        assert_eq!(e.to_text(), "198.51.100.2:62137");
        let mut both = unreadable.clone();
        both.extend(mapped_attribute());
        let e = parse_binding_response(&response(&both), &TID).unwrap();
        assert_eq!(e.to_text(), "198.51.100.2:62137");
    }
    let mut both = mapped_attribute();
    both[5] = 0x02;
    both.extend([0x00, 0x20, 0x00, 0x04, 0x00, 0x01, 0x00, 0x00]);
    assert_eq!(parse_binding_response(&response(&both), &TID), Err(StunError::XorMappedTooShort));
}

#[test]
fn masked_bytes_give_the_same_address() {
    let mut v = xor_attribute();
    v[1] = 0x01;
    for (i, mask) in [0x21, 0x12, 0x21, 0x12, 0xa4, 0x42].iter().enumerate() {
        v[6 + i] ^= mask;
    }
    let e = parse_binding_response(&response(&v), &TID).unwrap();
    assert_eq!(e, parse_binding_response(&response(&xor_attribute()), &TID).unwrap());
}

#[test]
fn readers_differ_by_the_mask_alone() {
    let v = [0x00, 0x01, 0xf5, 0x43, 0xea, 0x12, 0xd5, 0x45, 0x99];
    let mut w = v;
    for (i, mask) in [0x21, 0x12, 0x21, 0x12, 0xa4, 0x42].iter().enumerate() {
        w[2 + i] ^= mask;
    }
    let e = parse_xor_mapped(&v, &TID).unwrap();
    assert_eq!(e, Endpoint { ip: 0xCB00_7107, port: 0xd451 });
    assert_eq!(parse_mapped(&w), Ok(e));
    assert_eq!(parse_xor_mapped(&v, &[0; 12]), Ok(e));
    assert_eq!(parse_xor_mapped(&v[..7], &TID), Err(StunError::XorMappedTooShort));
    assert_eq!(parse_mapped(&v[..7]), Err(StunError::MappedTooShort));
}

#[test]
fn defects_have_their_words() {
    let words = [
        (StunError::TooShort(7), "STUN response too short (7 bytes)"),
        (StunError::NotSuccess, "Not a STUN binding success response"),
        (StunError::BadCookie, "Invalid STUN magic cookie"),
        (StunError::TransactionMismatch, "STUN transaction ID mismatch"),
        (StunError::NoAddress, "No address attribute in STUN response"),
        (StunError::XorMappedTooShort, "XOR-MAPPED-ADDRESS too short"),
        (StunError::XorMappedNotIpv4, "IPv6 STUN addresses are not supported yet"),
        (StunError::MappedTooShort, "MAPPED-ADDRESS too short"),
        (StunError::MappedNotIpv4, "IPv6 MAPPED-ADDRESS not supported yet"),
    ];
    for (e, text) in words {
        assert_eq!(e.message(), text);
    }
}

#[test]
fn unknown_attributes_are_skipped_with_their_padding() {
    let mut v = vec![0x80, 0x22, 0x00, 0x05, b'h', b'e', b'l', b'l', b'o', 0, 0, 0];
    v.extend(xor_attribute());
    let e = parse_binding_response(&response(&v), &TID).unwrap();
    assert_eq!(e.port, 54321);
}

#[test]
fn each_defect_has_its_error() {
    assert_eq!(parse_binding_response(&[0; 7], &TID), Err(StunError::TooShort(7)));
    let mut r = response(&xor_attribute());
    r[0] = 0x01;
    r[1] = 0x11;
    assert_eq!(parse_binding_response(&r, &TID), Err(StunError::NotSuccess));
    let mut r = response(&xor_attribute());
    r[4] = 0;
    assert_eq!(parse_binding_response(&r, &TID), Err(StunError::BadCookie));
    let mut r = response(&xor_attribute());
    r[8] = 99;
    assert_eq!(parse_binding_response(&r, &TID), Err(StunError::TransactionMismatch));
    assert_eq!(parse_binding_response(&response(&[]), &TID), Err(StunError::NoAddress));
    let short = [0x00, 0x20, 0x00, 0x04, 0x00, 0x01, 0x00, 0x00];
    assert_eq!(parse_binding_response(&response(&short), &TID), Err(StunError::XorMappedTooShort));
    let short = [0x00, 0x01, 0x00, 0x04, 0x00, 0x01, 0x00, 0x00];
    assert_eq!(parse_binding_response(&response(&short), &TID), Err(StunError::MappedTooShort));
    let mut v6 = xor_attribute();
    v6[5] = 0x02;
    assert_eq!(parse_binding_response(&response(&v6), &TID), Err(StunError::XorMappedNotIpv4));
    let mut v6 = mapped_attribute();
    v6[5] = 0x02;
    assert_eq!(parse_binding_response(&response(&v6), &TID), Err(StunError::MappedNotIpv4));
}

#[test]
fn three_attempts_and_no_more() {
    let mut q = StunQuery::start(TID);
    assert_eq!(q.request(), build_binding_request(&TID));
    assert_eq!(q.advance(&StunEvent::Timeout), StunStep::Resend);
    assert_eq!(q.advance(&StunEvent::Datagram(vec![1, 2, 3])), StunStep::Resend);
    assert_eq!(q.advance(&StunEvent::Timeout), StunStep::GiveUp);
}

#[test]
fn an_answer_ends_the_query() {
    let mut q = StunQuery::start(TID);
    assert_eq!(q.advance(&StunEvent::Timeout), StunStep::Resend);
    let step = q.advance(&StunEvent::Datagram(response(&xor_attribute())));
    assert_eq!(step, StunStep::Found(Endpoint { ip: 0xCB00_7107, port: 54321 }));
    assert_eq!(q.advance(&StunEvent::SocketError), StunStep::SocketFailed);
}

#[test]
fn messages_name_the_server() {
    assert_eq!(gave_up_message("s:1"), "STUN failed after 3 attempts (server: s:1)");
    assert_eq!(unresolved_message("s:1"), "Could not resolve STUN server: s:1");
}
