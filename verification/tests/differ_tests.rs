use master_events::differ::diff;
use master_events::snapshot::ServerListMap;
use master_events::structures::Client;
use master_events::structures::Info;
use master_events::structures::MasterEvent;
use master_events::structures::Server;
use master_events::structures::ServerList;

fn client(name: Option<&str>) -> Client {
    Client {
        name: name.map(|s| s.to_string()),
        clan: None,
        country: None,
        score: None,
        afk: None,
        team: None,
        is_player: None,
        skin: None,
    }
}

fn server(addr: &str, clients: Vec<Client>) -> Server {
    Server {
        addresses: vec![addr.to_string()],
        location: Some("eu".to_string()),
        info: Info {
            clients: Some(clients),
            game_type: Some("DM".to_string()),
            max_clients: Some(16),
            max_players: Some(16),
            passworded: Some(false),
            name: Some(format!("server at {addr}")),
            version: Some("0.7".to_string()),
            other: Vec::new(),
        },
        other: Vec::new(),
    }
}

fn snapshot(servers: Vec<Server>) -> ServerListMap {
    ServerListMap::from_list(&ServerList { servers })
}

#[test]
fn diff_of_identical_snapshots_is_empty() {
    let s = snapshot(vec![
        server("tw://1.2.3.4:8303", vec![client(Some("alice")), client(None)]),
        server("tw://5.6.7.8:8303", vec![client(Some("bob"))]),
    ]);
    let events = diff(&s, &s);
    assert!(events.is_empty());
}

#[test]
fn diff_from_empty_emits_one_online_per_server_and_no_client_events() {
    let old = snapshot(vec![]);
    let new = snapshot(vec![
        server("a:1", vec![client(Some("alice")), client(Some("bob"))]),
        server("b:2", vec![client(Some("carol"))]),
    ]);
    let events = diff(&old, &new);
    assert_eq!(events.len(), 2);
    for ev in &events {
        assert!(matches!(ev, MasterEvent::ServerWentOnline(_)));
    }
    let addrs: Vec<&str> = events
        .iter()
        .map(|ev| match ev {
            MasterEvent::ServerWentOnline(s) => s.addresses[0].as_str(),
            _ => unreachable!(),
        })
        .collect();
    assert_eq!(addrs, vec!["a:1", "b:2"]);
}

#[test]
fn diff_to_empty_emits_one_offline_per_server() {
    let old = snapshot(vec![
        server("a:1", vec![client(Some("alice"))]),
        server("b:2", vec![]),
    ]);
    let new = snapshot(vec![]);
    let events = diff(&old, &new);
    assert_eq!(events.len(), 2);
    let addrs: Vec<&str> = events
        .iter()
        .map(|ev| match ev {
            MasterEvent::ServerWentOffline(s) => s.addresses[0].as_str(),
            _ => panic!("expected only offline events"),
        })
        .collect();
    assert_eq!(addrs, vec!["a:1", "b:2"]);
}

#[test]
fn client_set_transition_yields_exactly_one_leave_and_one_join() {
    let old = snapshot(vec![server(
        "a:1",
        vec![client(Some("A")), client(Some("B"))],
    )]);
    let new = snapshot(vec![server(
        "a:1",
        vec![client(Some("B")), client(Some("C"))],
    )]);
    let events = diff(&old, &new);
    assert_eq!(events.len(), 2);
    let mut joined: Vec<String> = Vec::new();
    let mut left: Vec<String> = Vec::new();
    for ev in &events {
        match ev {
            MasterEvent::ClientJoined(c, s) => {
                assert_eq!(s.addresses[0], "a:1");
                joined.push(c.name.clone().unwrap());
            }
            MasterEvent::ClientLeft(c, s) => {
                assert_eq!(s.addresses[0], "a:1");
                left.push(c.name.clone().unwrap());
            }
            _ => panic!("expected only client events"),
        }
    }
    assert_eq!(joined, vec!["C".to_string()]);
    assert_eq!(left, vec!["A".to_string()]);
}

#[test]
fn field_changes_without_identity_change_emit_nothing() {
    let mut quiet = client(Some("alice"));
    quiet.score = Some(3);
    let old = snapshot(vec![server("a:1", vec![quiet])]);
    let mut loud = client(Some("alice"));
    loud.score = Some(99);
    loud.clan = Some("new clan".to_string());
    let new = snapshot(vec![server("a:1", vec![loud])]);
    let events = diff(&old, &new);
    assert!(events.is_empty());
}

#[test]
fn anonymous_identity_is_distinct_from_any_named_client() {
    let old = snapshot(vec![server("a:1", vec![client(Some("alice"))])]);
    let new = snapshot(vec![server("a:1", vec![client(Some("alice")), client(None)])]);
    let events = diff(&old, &new);
    assert_eq!(events.len(), 1);
    match &events[0] {
        MasterEvent::ClientJoined(c, _) => assert_eq!(c.name, None),
        _ => panic!("expected a join of the anonymous client"),
    }
}

#[test]
fn missing_client_list_counts_as_empty() {
    let mut bare = server("a:1", vec![]);
    bare.info.clients = None;
    let old = snapshot(vec![bare]);
    let new = snapshot(vec![server("a:1", vec![client(Some("alice"))])]);
    let events = diff(&old, &new);
    assert_eq!(events.len(), 1);
    assert!(matches!(&events[0], MasterEvent::ClientJoined(c, _) if c.name.as_deref() == Some("alice")));
}

#[test]
fn duplicate_names_in_one_list_produce_one_event() {
    let old = snapshot(vec![server("a:1", vec![])]);
    let new = snapshot(vec![server(
        "a:1",
        vec![client(Some("twin")), client(Some("twin"))],
    )]);
    let events = diff(&old, &new);
    assert_eq!(events.len(), 1);
    assert!(matches!(&events[0], MasterEvent::ClientJoined(c, _) if c.name.as_deref() == Some("twin")));
}
