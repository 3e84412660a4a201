use master_events::session::session_step;
use master_events::session::SessionAction;
use master_events::session::SessionEvent;
use master_events::bus::Envelope;
use master_events::snapshot::ServerListMap;
use master_events::structures::Client;
use master_events::structures::Info;
use master_events::structures::MasterEvent;
use master_events::structures::Server;
use master_events::structures::ServerList;

fn client(name: Option<&str>, clan: Option<&str>) -> Client {
    Client {
        name: name.map(|s| s.to_string()),
        clan: clan.map(|s| s.to_string()),
        country: Some(276),
        score: Some(0),
        afk: Some(false),
        team: Some(0),
        is_player: Some(true),
        skin: None,
    }
}

fn server(addrs: &[&str]) -> Server {
    Server {
        addresses: addrs.iter().map(|s| s.to_string()).collect(),
        location: None,
        info: Info {
            clients: None,
            game_type: None,
            max_clients: None,
            max_players: None,
            passworded: None,
            name: None,
            version: None,
            other: vec![("community".to_string(), "\"none\"".to_string())],
        },
        other: Vec::new(),
    }
}

#[test]
fn clients_are_equal_by_name_alone() {
    let a = client(Some("alice"), Some("red"));
    let b = client(Some("alice"), Some("blue"));
    let c = client(Some("carol"), Some("red"));
    assert!(a == b);
    assert!(a != c);
    assert!(client(None, None) == client(None, None));
    assert!(client(None, None) != client(Some(""), None));
}

#[test]
fn snapshot_is_keyed_by_first_address() {
    let m = ServerListMap::from_list(&ServerList {
        servers: vec![server(&["main:1", "alt:2"])],
    });
    assert!(m.contains_key(&"main:1".to_string()));
    assert!(!m.contains_key(&"alt:2".to_string()));
}

#[test]
fn snapshot_drops_servers_without_addresses() {
    let m = ServerListMap::from_list(&ServerList {
        servers: vec![server(&[]), server(&["a:1"])],
    });
    assert_eq!(m.servers.len(), 1);
    assert!(m.contains_key(&"a:1".to_string()));
}

#[test]
fn snapshot_keeps_the_last_server_per_address() {
    let mut first = server(&["a:1"]);
    first.location = Some("first".to_string());
    let mut second = server(&["a:1"]);
    second.location = Some("second".to_string());
    let m = ServerListMap::from_list(&ServerList { servers: vec![first, second] });
    assert_eq!(m.servers.len(), 1);
    let got = m.get(&"a:1".to_string()).unwrap();
    assert_eq!(got.location.as_deref(), Some("second"));
}

#[test]
fn upsert_replaces_and_inserts() {
    let mut m = ServerListMap::new();
    m.upsert("a:1".to_string(), server(&["a:1"]));
    m.upsert("b:2".to_string(), server(&["b:2"]));
    let mut replacement = server(&["a:1"]);
    replacement.location = Some("moved".to_string());
    m.upsert("a:1".to_string(), replacement);
    assert_eq!(m.servers.len(), 2);
    assert_eq!(
        m.get(&"a:1".to_string()).unwrap().location.as_deref(),
        Some("moved")
    );
    assert!(m.get(&"c:3".to_string()).is_none());
}

#[test]
fn cloned_entities_keep_their_fields() {
    let s = server(&["a:1", "b:2"]);
    let copy = s.clone();
    assert_eq!(copy.addresses, s.addresses);
    assert_eq!(copy.info.other, s.info.other);
    let c = client(Some("alice"), Some("red"));
    let c2 = c.clone();
    assert_eq!(c2.clan, c.clan);
}

#[test]
fn session_forwards_envelopes_and_stops_on_closure() {
    let env = Envelope {
        event: MasterEvent::ServerWentOnline(server(&["a:1"])),
        time: 5,
    };
    match session_step(SessionEvent::EnvelopeReady(env)) {
        SessionAction::Forward(e) => assert_eq!(e.time, 5),
        _ => panic!("an envelope must be forwarded"),
    }
    assert!(matches!(session_step(SessionEvent::PeerClosed), SessionAction::Stop));
    assert!(matches!(session_step(SessionEvent::PeerGone), SessionAction::Stop));
    assert!(matches!(session_step(SessionEvent::SendFailed), SessionAction::Stop));
    assert!(matches!(session_step(SessionEvent::PeerMessage), SessionAction::Continue));
    assert!(matches!(session_step(SessionEvent::EnvelopeLagged(10)), SessionAction::Continue));
}
