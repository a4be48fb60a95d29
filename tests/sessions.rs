use atomic_websocket::envelope::{Category, Envelope, HandshakeRecord};
use atomic_websocket::hub::{handshake_peer, HubAction, HubConnection, HubState};
use atomic_websocket::peer::{continue_after_write, PeerAction, PeerSession, HEARTBEAT_DELAY_MILLIS};
use atomic_websocket::settings::{identity_from_settings, Settings};

fn s(x: &str) -> String {
    String::from(x)
}

fn frame(category: Category, payload: Vec<u8>) -> Vec<u8> {
    Envelope::new(category, payload).serialize()
}

#[test]
fn handshake_accepts_ping() {
    let mut conn = HubConnection::new(s("10.0.0.1:5000"));
    let ping = Envelope::ping(&s("p1")).serialize();
    match conn.on_frame(&ping) {
        HubAction::Accept(id) => assert_eq!(id, "p1"),
        _ => panic!("a valid ping is accepted"),
    }
    assert!(matches!(conn.state, HubState::Active(ref id) if id == "p1"));
}

#[test]
fn handshake_rejects_non_ping() {
    let mut conn = HubConnection::new(s("10.0.0.1:5000"));
    let first = frame(Category::Custom(3), vec![1]);
    assert!(matches!(conn.on_frame(&first), HubAction::Reject));
    let d = conn.rejection();
    assert_eq!(d.category, Category::Disconnect);
    assert_eq!(HandshakeRecord::deserialize(&d.payload).unwrap().peer_id, "10.0.0.1:5000");
    assert!(!continue_after_write(&d.serialize()));
    let ping = Envelope::ping(&s("p1")).serialize();
    assert!(matches!(conn.on_frame(&ping), HubAction::Ignore));
    assert!(matches!(conn.on_close(), HubAction::Ignore));
}

#[test]
fn handshake_rejects_malformed_and_closed() {
    let mut conn = HubConnection::new(s("a"));
    assert!(matches!(conn.on_frame(&[1, 2, 3]), HubAction::Reject));
    let mut conn = HubConnection::new(s("b"));
    let bad_ping = frame(Category::Ping, vec![9, 9]);
    assert!(matches!(conn.on_frame(&bad_ping), HubAction::Reject));
    let mut conn = HubConnection::new(s("c"));
    assert!(matches!(conn.on_close(), HubAction::Reject));
    assert!(handshake_peer(&bad_ping).is_none());
}

#[test]
fn active_connection_routes_frames() {
    let mut conn = HubConnection::new(s("addr"));
    conn.on_frame(&Envelope::ping(&s("p1")).serialize());
    match conn.on_frame(&Envelope::ping(&s("p9")).serialize()) {
        HubAction::Pong(id) => assert_eq!(id, "p9"),
        _ => panic!("a ping is answered"),
    }
    match conn.on_frame(&frame(Category::Custom(7), vec![4, 5])) {
        HubAction::Forward(payload, owner) => {
            assert_eq!(payload, vec![4, 5]);
            assert_eq!(owner, "p1");
        }
        _ => panic!("an application frame is forwarded"),
    }
    assert!(matches!(conn.on_frame(&[0, 0]), HubAction::Ignore));
    assert!(matches!(conn.on_frame(&frame(Category::Ping, vec![1])), HubAction::Ignore));
    let d = Envelope::disconnect(&s("p1")).serialize();
    assert!(matches!(conn.on_frame(&d), HubAction::Stop));
    assert!(matches!(conn.state, HubState::Closed));
    assert!(matches!(conn.on_frame(&frame(Category::Custom(7), vec![])), HubAction::Ignore));
}

#[test]
fn active_connection_stops_on_close() {
    let mut conn = HubConnection::new(s("addr"));
    conn.on_frame(&Envelope::ping(&s("p1")).serialize());
    assert!(matches!(conn.on_close(), HubAction::Stop));
}

#[test]
fn peer_start_publishes_ping() {
    let (session, first) = PeerSession::start(s("me"), true);
    let first = first.unwrap();
    assert_eq!(first.category, Category::Ping);
    assert_eq!(HandshakeRecord::deserialize(&first.payload).unwrap().peer_id, "me");
    assert!(session.open);
    let (_, none) = PeerSession::start(s("me"), false);
    assert!(none.is_none());
}

#[test]
fn peer_pong_schedules_one_ping() {
    let (mut session, _) = PeerSession::start(s("me"), true);
    let pong = Envelope::pong().serialize();
    match session.on_frame(&pong) {
        PeerAction::ScheduleHeartbeat(ms) => assert!(ms >= 15_000 && ms == HEARTBEAT_DELAY_MILLIS),
        _ => panic!("a pong schedules the next ping"),
    }
    let next = session.heartbeat();
    assert_eq!(next.category, Category::Ping);
    assert_eq!(next.serialize(), Envelope::ping(&s("me")).serialize());
}

#[test]
fn peer_without_pong_schedules_nothing() {
    let (mut session, _) = PeerSession::start(s("me"), true);
    let frames = vec![
        frame(Category::Custom(1), vec![1]),
        frame(Category::Expired, vec![]),
        vec![9, 9, 9],
        Envelope::ping(&s("x")).serialize(),
    ];
    for f in &frames {
        assert!(!matches!(session.on_frame(f), PeerAction::ScheduleHeartbeat(_)));
    }
}

#[test]
fn peer_dispatches_and_stops() {
    let (mut session, _) = PeerSession::start(s("me"), false);
    match session.on_frame(&frame(Category::Custom(2), vec![3])) {
        PeerAction::Dispatch(e) => {
            assert_eq!(e.category, Category::Custom(2));
            assert_eq!(e.payload, vec![3]);
        }
        _ => panic!("an application frame is dispatched"),
    }
    assert!(matches!(session.on_frame(&[1]), PeerAction::Ignore));
    let d = Envelope::disconnect(&s("me")).serialize();
    assert!(matches!(session.on_frame(&d), PeerAction::Stop));
    assert!(!session.open);
    assert!(matches!(session.on_frame(&Envelope::pong().serialize()), PeerAction::Ignore));
}

#[test]
fn outbound_loop_continues_after_ping() {
    assert!(continue_after_write(&Envelope::ping(&s("me")).serialize()));
    assert!(continue_after_write(&[0]));
}

#[test]
fn identity_lookup() {
    let settings = vec![
        Settings { key: s("Other"), value: b"x".to_vec() },
        Settings { key: s("ClientId"), value: b"peer-1".to_vec() },
        Settings { key: s("ClientId"), value: b"peer-2".to_vec() },
    ];
    assert_eq!(identity_from_settings(&settings, &s("ClientId")), Some(s("peer-1")));
    assert_eq!(identity_from_settings(&settings, &s("Missing")), None);
    let bad = vec![Settings { key: s("ClientId"), value: vec![0xff] }];
    assert_eq!(identity_from_settings(&bad, &s("ClientId")), None);
}
