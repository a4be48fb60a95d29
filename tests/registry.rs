use atomic_websocket::envelope::{Category, HandshakeRecord};
use atomic_websocket::registry::{
    ClientSender, ClientSenders, RetryStep, SendRetry, MAX_ATTEMPTS, RETRY_DELAY_MILLIS,
};

fn s(x: &str) -> String {
    String::from(x)
}

#[test]
fn register_twice_replaces_handle() {
    let mut reg: ClientSenders<u32> = ClientSenders::new();
    assert!(reg.add(s("p1"), 1).is_none());
    let notice = reg.add(s("p1"), 2).unwrap();
    assert_eq!(notice.to, 1);
    assert_eq!(notice.envelope.category, Category::Disconnect);
    let h = HandshakeRecord::deserialize(&notice.envelope.payload).unwrap();
    assert_eq!(h.peer_id, "p1");
    assert_eq!(reg.len(), 1);
    assert_eq!(reg.outbound_of(&s("p1")), Some(&2));
}

#[test]
fn register_keeps_delivery_time() {
    let mut reg: ClientSenders<u32> = ClientSenders::new();
    reg.add(s("p1"), 1);
    reg.mark_sent(&s("p1"), 500);
    reg.add(s("p1"), 2);
    assert_eq!(reg.get(0).send_time, 500);
    assert_eq!(reg.get(0).sx, 2);
}

#[test]
fn new_session_starts_at_zero() {
    let mut reg: ClientSenders<u32> = ClientSenders::new();
    reg.add(s("a"), 1);
    reg.add(s("b"), 2);
    assert_eq!(reg.len(), 2);
    assert_eq!(reg.get(1).peer, "b");
    assert_eq!(reg.get(1).send_time, 0);
}

#[test]
fn send_accepted_sets_time() {
    let mut reg: ClientSenders<u32> = ClientSenders::new();
    reg.add(s("p1"), 1);
    assert_eq!(reg.outbound_of(&s("p1")), Some(&1));
    let mut retry = SendRetry::new();
    assert_eq!(retry.after_attempt(true), RetryStep::Delivered);
    assert!(reg.conclude_send(&s("p1"), true, 1_000));
    assert_eq!(reg.get(0).send_time, 1_000);
    assert_eq!(reg.len(), 1);
}

#[test]
fn send_to_absent_is_success() {
    let mut reg: ClientSenders<u32> = ClientSenders::new();
    reg.add(s("p1"), 1);
    assert!(reg.outbound_of(&s("absent")).is_none());
    assert!(reg.conclude_send(&s("absent"), false, 77));
    assert_eq!(reg.len(), 1);
    assert_eq!(reg.get(0).send_time, 0);
}

#[test]
fn send_failing_everywhere_gives_up_after_six() {
    let mut reg: ClientSenders<u32> = ClientSenders::new();
    reg.add(s("p1"), 1);
    let mut retry = SendRetry::new();
    let mut attempts = 0;
    let mut waited: u64 = 0;
    loop {
        attempts += 1;
        match retry.after_attempt(false) {
            RetryStep::RetryAfterMillis(ms) => waited += ms,
            RetryStep::Exhausted => break,
            RetryStep::Delivered => panic!("a failed attempt is never a delivery"),
        }
    }
    assert_eq!(attempts, 6);
    assert_eq!(retry.attempts, MAX_ATTEMPTS);
    assert_eq!(waited, 5 * RETRY_DELAY_MILLIS);
    assert!(waited >= 5_000 && waited < 7_000);
    assert!(!reg.conclude_send(&s("p1"), false, 10));
    assert!(!reg.contains(&s("p1")));
    assert_eq!(reg.len(), 0);
}

#[test]
fn retry_succeeds_late() {
    let mut retry = SendRetry::new();
    for _ in 0..5 {
        assert_eq!(retry.after_attempt(false), RetryStep::RetryAfterMillis(1000));
    }
    assert_eq!(retry.after_attempt(true), RetryStep::Delivered);
}

#[test]
fn sweep_removes_stale_only() {
    let mut reg: ClientSenders<u32> = ClientSenders::new();
    reg.add(s("old"), 1);
    reg.add(s("fresh"), 2);
    reg.add(s("edge"), 3);
    let now = 1_000_000;
    reg.mark_sent(&s("old"), now - 31);
    reg.mark_sent(&s("fresh"), now - 29);
    reg.mark_sent(&s("edge"), now - 30);
    reg.check_client_send_time(now);
    assert!(!reg.contains(&s("old")));
    assert!(reg.contains(&s("fresh")));
    assert!(reg.contains(&s("edge")));
    assert_eq!(reg.len(), 2);
}

#[test]
fn sweep_removes_every_stale_session() {
    let mut reg: ClientSenders<u32> = ClientSenders::new();
    for (i, id) in ["a", "b", "c", "d"].iter().enumerate() {
        reg.add(s(id), i as u32);
    }
    reg.mark_sent(&s("c"), 100);
    reg.check_client_send_time(100);
    assert_eq!(reg.len(), 1);
    assert_eq!(reg.get(0).peer, "c");
}

#[test]
fn sweep_on_empty_registry() {
    let mut reg: ClientSenders<u32> = ClientSenders::new();
    reg.check_client_send_time(i64::MAX);
    assert_eq!(reg.len(), 0);
}

#[test]
fn notify_not_active_targets() {
    let mut reg: ClientSenders<u32> = ClientSenders::new();
    reg.add(s("p1"), 1);
    reg.add(s("p2"), 2);
    let targets = reg.inactive_peers(&vec![s("p2")]);
    assert_eq!(targets, vec![s("p1")]);
    assert_eq!(reg.len(), 2);
}

#[test]
fn notify_not_active_all_or_none() {
    let mut reg: ClientSenders<u32> = ClientSenders::new();
    reg.add(s("p1"), 1);
    reg.add(s("p2"), 2);
    assert_eq!(reg.inactive_peers(&vec![]), vec![s("p1"), s("p2")]);
    assert!(reg.inactive_peers(&vec![s("p2"), s("p1"), s("x")]).is_empty());
}

#[test]
fn remove_deletes_session() {
    let mut reg: ClientSenders<u32> = ClientSenders::new();
    reg.add(s("p1"), 1);
    reg.add(s("p2"), 2);
    reg.remove(s("p1"));
    assert!(!reg.contains(&s("p1")));
    assert_eq!(reg.outbound_of(&s("p2")), Some(&2));
    reg.remove(s("zzz"));
    assert_eq!(reg.len(), 1);
}

#[test]
fn write_time_stamps_session() {
    let mut c = ClientSender { peer: s("p"), sx: 3u8, send_time: 0 };
    c.write_time(42);
    assert_eq!(c.send_time, 42);
}
