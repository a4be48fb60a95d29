use atomic_websocket::envelope::{
    ends_stream, text_of, Category, Envelope, HandshakeRecord, DISCONNECT_CODE, EXPIRED_CODE,
    PING_CODE, PONG_CODE,
};

#[test]
fn envelope_bytes_layout() {
    let e = Envelope::new(Category::Custom(0x0102), vec![7, 8, 9]);
    assert_eq!(e.serialize(), vec![0x02, 0x01, 3, 0, 0, 0, 7, 8, 9]);
}

#[test]
fn envelope_round_trip() {
    let e = Envelope::new(Category::Custom(42), vec![1, 2, 3, 4, 5]);
    let back = Envelope::deserialize(&e.serialize()).unwrap();
    assert_eq!(back.category, Category::Custom(42));
    assert_eq!(back.payload, vec![1, 2, 3, 4, 5]);
}

#[test]
fn envelope_round_trip_empty_payload() {
    let e = Envelope::expired();
    let bytes = e.serialize();
    assert_eq!(bytes, vec![0x13, 0x27, 0, 0, 0, 0]);
    let back = Envelope::deserialize(&bytes).unwrap();
    assert_eq!(back.category, Category::Expired);
    assert!(back.payload.is_empty());
}

#[test]
fn envelope_rejects_bad_length() {
    assert!(Envelope::deserialize(&[1, 0, 2, 0, 0, 0, 9]).is_none());
    assert!(Envelope::deserialize(&[1, 0, 0, 0, 0, 0, 9]).is_none());
    assert!(Envelope::deserialize(&[1, 0, 0, 0, 0]).is_none());
    assert!(Envelope::deserialize(&[]).is_none());
}

#[test]
fn category_codes() {
    assert_eq!(Category::Ping.code(), PING_CODE);
    assert_eq!(Category::from_code(PING_CODE), Category::Ping);
    assert_eq!(Category::from_code(PONG_CODE), Category::Pong);
    assert_eq!(Category::from_code(DISCONNECT_CODE), Category::Disconnect);
    assert_eq!(Category::from_code(EXPIRED_CODE), Category::Expired);
    assert_eq!(Category::from_code(5), Category::Custom(5));
    assert_eq!(Category::Custom(5).code(), 5);
}

#[test]
fn handshake_bytes_layout() {
    let h = HandshakeRecord { peer_id: String::from("p1") };
    assert_eq!(h.serialize(), vec![2, 0, 0, 0, b'p', b'1']);
}

#[test]
fn handshake_round_trip_non_ascii() {
    let h = HandshakeRecord { peer_id: String::from("pé€") };
    let back = HandshakeRecord::deserialize(&h.serialize()).unwrap();
    assert_eq!(back.peer_id, "pé€");
}

#[test]
fn handshake_rejects_invalid_utf8() {
    assert!(HandshakeRecord::deserialize(&[2, 0, 0, 0, 0xff, 0xfe]).is_none());
    assert!(HandshakeRecord::deserialize(&[3, 0, 0, 0, b'a']).is_none());
}

#[test]
fn text_of_decodes_utf8() {
    assert_eq!(text_of("héllo".as_bytes()), Some(String::from("héllo")));
    assert_eq!(text_of(&[0xc3]), None);
    assert_eq!(text_of(&[]), Some(String::new()));
}

#[test]
fn ping_carries_peer_id() {
    let e = Envelope::ping(&String::from("node-7"));
    assert_eq!(e.category, Category::Ping);
    let h = HandshakeRecord::deserialize(&e.payload).unwrap();
    assert_eq!(h.peer_id, "node-7");
}

#[test]
fn disconnect_ends_stream() {
    let d = Envelope::disconnect(&String::from("p1")).serialize();
    assert!(ends_stream(&d));
    assert!(!ends_stream(&Envelope::pong().serialize()));
    assert!(!ends_stream(&[1, 2, 3]));
}
