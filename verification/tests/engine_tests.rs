use master_events::bus::RecvOutcome;
use master_events::engine::Engine;
use master_events::engine::FetchError;
use master_events::snapshot::ServerListMap;
use master_events::structures::Client;
use master_events::structures::Info;
use master_events::structures::MasterEvent;
use master_events::structures::Server;
use master_events::structures::ServerList;

fn client(name: &str) -> Client {
    Client {
        name: Some(name.to_string()),
        clan: None,
        country: None,
        score: None,
        afk: None,
        team: None,
        is_player: None,
        skin: None,
    }
}

fn server(addr: &str, names: &[&str]) -> Server {
    Server {
        addresses: vec![addr.to_string()],
        location: None,
        info: Info {
            clients: Some(names.iter().map(|n| client(n)).collect()),
            game_type: None,
            max_clients: None,
            max_players: None,
            passworded: None,
            name: None,
            version: None,
            other: Vec::new(),
        },
        other: Vec::new(),
    }
}

fn snapshot(servers: Vec<Server>) -> ServerListMap {
    ServerListMap::from_list(&ServerList { servers })
}

#[test]
fn successful_tick_publishes_diff_and_swaps_snapshot() {
    let mut engine = Engine::new(snapshot(vec![]), 100);
    let mut sub = engine.bus.subscribe();
    let world = snapshot(vec![server("a:1", &["alice"])]);
    let published = engine.tick(Ok(world), 1000);
    assert_eq!(published.len(), 1);
    assert!(matches!(&published[0].event, MasterEvent::ServerWentOnline(s) if s.addresses[0] == "a:1"));
    assert_eq!(published[0].time, 1000);
    assert!(engine.snapshot.contains_key(&"a:1".to_string()));
    match engine.bus.recv(&mut sub) {
        RecvOutcome::Delivered(e) => assert_eq!(e.time, 1000),
        _ => panic!("the published batch must reach a prior subscriber"),
    }
    assert!(matches!(engine.bus.recv(&mut sub), RecvOutcome::Empty));
}

#[test]
fn second_tick_diffs_against_swapped_snapshot() {
    let mut engine = Engine::new(snapshot(vec![]), 100);
    engine.tick(Ok(snapshot(vec![server("a:1", &["alice"])])), 1);
    let published = engine.tick(Ok(snapshot(vec![server("a:1", &["alice", "bob"])])), 2);
    assert_eq!(published.len(), 1);
    assert!(matches!(&published[0].event, MasterEvent::ClientJoined(c, _) if c.name.as_deref() == Some("bob")));
}

#[test]
fn failed_tick_changes_nothing_and_publishes_nothing() {
    let mut engine = Engine::new(snapshot(vec![server("a:1", &["alice"])]), 100);
    let mut sub = engine.bus.subscribe();
    let before: Vec<(String, Vec<Option<String>>)> = engine
        .snapshot
        .servers
        .iter()
        .map(|(a, s)| {
            let names = s
                .info
                .clients
                .as_ref()
                .map(|cs| cs.iter().map(|c| c.name.clone()).collect())
                .unwrap_or_default();
            (a.clone(), names)
        })
        .collect();
    let published = engine.tick(
        Err(FetchError { message: "upstream unreachable".to_string() }),
        7,
    );
    assert!(published.is_empty());
    assert!(matches!(engine.bus.recv(&mut sub), RecvOutcome::Empty));
    let after: Vec<(String, Vec<Option<String>>)> = engine
        .snapshot
        .servers
        .iter()
        .map(|(a, s)| {
            let names = s
                .info
                .clients
                .as_ref()
                .map(|cs| cs.iter().map(|c| c.name.clone()).collect())
                .unwrap_or_default();
            (a.clone(), names)
        })
        .collect();
    assert_eq!(before, after);
}

#[test]
fn offline_event_carries_the_old_server_payload() {
    let mut engine = Engine::new(snapshot(vec![server("a:1", &["alice"])]), 100);
    let published = engine.tick(Ok(snapshot(vec![])), 3);
    assert_eq!(published.len(), 1);
    match &published[0].event {
        MasterEvent::ServerWentOffline(s) => {
            assert_eq!(s.addresses[0], "a:1");
            assert_eq!(s.info.clients.as_ref().unwrap()[0].name.as_deref(), Some("alice"));
        }
        _ => panic!("expected an offline event"),
    }
}
