use master_events::bus::Envelope;
use master_events::bus::EventBus;
use master_events::bus::RecvOutcome;
use master_events::structures::Info;
use master_events::structures::MasterEvent;
use master_events::structures::Server;

fn tiny_server(addr: &str) -> Server {
    Server {
        addresses: vec![addr.to_string()],
        location: None,
        info: Info {
            clients: None,
            game_type: None,
            max_clients: None,
            max_players: None,
            passworded: None,
            name: None,
            version: None,
            other: Vec::new(),
        },
        other: Vec::new(),
    }
}

fn envelope(addr: &str, time: i64) -> Envelope {
    Envelope {
        event: MasterEvent::ServerWentOnline(tiny_server(addr)),
        time,
    }
}

fn envelope_addr(e: &Envelope) -> &str {
    match &e.event {
        MasterEvent::ServerWentOnline(s) => s.addresses[0].as_str(),
        _ => panic!("unexpected event kind"),
    }
}

#[test]
fn prior_subscriber_reads_batch_in_publish_order() {
    let mut bus = EventBus::new(10);
    let mut sub = bus.subscribe();
    for k in 0..3i64 {
        bus.publish(envelope(&format!("srv:{k}"), k));
    }
    for k in 0..3i64 {
        match bus.recv(&mut sub) {
            RecvOutcome::Delivered(e) => {
                assert_eq!(envelope_addr(&e), format!("srv:{k}"));
                assert_eq!(e.time, k);
            }
            _ => panic!("expected delivery"),
        }
    }
    assert!(matches!(bus.recv(&mut sub), RecvOutcome::Empty));
}

#[test]
fn drain_returns_whole_backlog_in_order() {
    let mut bus = EventBus::new(10);
    let mut sub = bus.subscribe();
    for k in 0..4i64 {
        bus.publish(envelope("x", k));
    }
    let got = bus.drain(&mut sub);
    assert_eq!(got.len(), 4);
    for (k, e) in got.iter().enumerate() {
        assert_eq!(e.time, k as i64);
    }
    assert!(matches!(bus.recv(&mut sub), RecvOutcome::Empty));
}

#[test]
fn late_subscriber_sees_none_of_an_earlier_batch() {
    let mut bus = EventBus::new(10);
    for k in 0..3i64 {
        bus.publish(envelope("x", k));
    }
    let mut sub = bus.subscribe();
    assert!(matches!(bus.recv(&mut sub), RecvOutcome::Empty));
    bus.publish(envelope("y", 9));
    match bus.recv(&mut sub) {
        RecvOutcome::Delivered(e) => assert_eq!(envelope_addr(&e), "y"),
        _ => panic!("expected the envelope published after subscribing"),
    }
}

#[test]
fn overflowing_subscriber_lags_once_then_resumes() {
    let mut bus = EventBus::new(2);
    let mut slow = bus.subscribe();
    for k in 0..5i64 {
        bus.publish(envelope("x", k));
    }
    match bus.recv(&mut slow) {
        RecvOutcome::Lagged(missed) => assert_eq!(missed, 3),
        _ => panic!("expected a lag indicator"),
    }
    match bus.recv(&mut slow) {
        RecvOutcome::Delivered(e) => assert_eq!(e.time, 3),
        _ => panic!("expected the oldest envelope still buffered"),
    }
    match bus.recv(&mut slow) {
        RecvOutcome::Delivered(e) => assert_eq!(e.time, 4),
        _ => panic!("expected the next envelope"),
    }
    assert!(matches!(bus.recv(&mut slow), RecvOutcome::Empty));
}

#[test]
fn stalled_subscriber_never_holds_back_a_fast_one() {
    let mut bus = EventBus::new(2);
    let mut stalled = bus.subscribe();
    let mut fast = bus.subscribe();
    for k in 0..6i64 {
        bus.publish(envelope("x", k));
        match bus.recv(&mut fast) {
            RecvOutcome::Delivered(e) => assert_eq!(e.time, k),
            _ => panic!("fast subscriber must keep receiving"),
        }
    }
    match bus.recv(&mut stalled) {
        RecvOutcome::Lagged(missed) => assert_eq!(missed, 4),
        _ => panic!("expected the stalled subscriber to lag"),
    }
    match bus.recv(&mut stalled) {
        RecvOutcome::Delivered(e) => assert_eq!(e.time, 4),
        _ => panic!("expected resumed delivery"),
    }
}

#[test]
fn backlog_equal_to_capacity_is_not_lag() {
    let mut bus = EventBus::new(3);
    let mut sub = bus.subscribe();
    for k in 0..3i64 {
        bus.publish(envelope("x", k));
    }
    for k in 0..3i64 {
        match bus.recv(&mut sub) {
            RecvOutcome::Delivered(e) => assert_eq!(e.time, k),
            _ => panic!("a backlog that just fits must be delivered whole"),
        }
    }
}

#[test]
fn publish_with_no_subscriber_is_accepted() {
    let mut bus = EventBus::new(1);
    bus.publish(envelope("x", 1));
    bus.publish(envelope("x", 2));
    let mut sub = bus.subscribe();
    assert!(matches!(bus.recv(&mut sub), RecvOutcome::Empty));
}
