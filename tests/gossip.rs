use p2p_gossip::address::{Addr, Ip, LOCALHOST_V4};
use p2p_gossip::application_state::{ApplicationState, Handshake, TickPlan};
use p2p_gossip::message::Message;
use p2p_gossip::peer::{ConfigError, Peer, Timestamp};
use p2p_gossip::registry::PeerRegistry;

const OTHER_HOST: u32 = 0x0a00_0002;

fn default_peer() -> Peer {
    Peer {
        started: Timestamp { secs: 1_600_000_000, nanos: 0 },
        period: 5,
        port: 8080,
        host_alias: None,
    }
}

fn peer_on(port: u16, alias: Option<Ip>) -> Peer {
    Peer { port, host_alias: alias, ..default_peer() }
}

fn setup_app_state() -> ApplicationState {
    ApplicationState::new(default_peer(), true)
}

fn v4(a: u32, port: u16) -> Addr {
    Addr::new(Ip::V4(a), port)
}

#[test]
fn index() {
    let app_state = setup_app_state();
    assert_eq!(app_state.this_peer().port, 8080);
    assert_eq!(app_state.this_peer(), default_peer());
}

#[test]
fn connecting() {
    let mut app_state = setup_app_state();
    let r = app_state.handshake(Ip::V4(OTHER_HOST), default_peer());
    assert_eq!(r, Handshake::Connected(v4(OTHER_HOST, 8080)));
}

#[test]
fn messaging() {
    let m = Message::from(String::from("Hello, world"));
    assert_eq!(m.message, "Hello, world".to_string());
    let n = Message::from("Hello, world");
    assert_eq!(n, m);
}

#[test]
fn zero_initial_known_peers() {
    let app_state = setup_app_state();
    assert_eq!(app_state.known_peers().len(), 0);
    assert!(app_state.known_peers().entries().is_empty());
}

#[test]
fn connecting_adds_this_peer() {
    let mut this_peer = default_peer();
    this_peer.port = 8081;
    let mut app_state = setup_app_state();
    app_state.handshake(Ip::V4(LOCALHOST_V4), this_peer);
    assert!(app_state.known_peers().contains(&this_peer.socket_addr()));
}

#[test]
fn second_connect_reports_already_connected() {
    let mut app_state = setup_app_state();
    let d = peer_on(9000, None);
    let first = app_state.handshake(Ip::V4(OTHER_HOST), d);
    let second = app_state.handshake(Ip::V4(OTHER_HOST), d);
    assert_eq!(first, Handshake::Connected(v4(OTHER_HOST, 9000)));
    assert_eq!(second, Handshake::AlreadyConnected(v4(OTHER_HOST, 9000)));
    assert_eq!(app_state.known_peers().len(), 1);
}

#[test]
fn handshake_stores_the_descriptor_sent() {
    let mut app_state = setup_app_state();
    let d = Peer { started: Timestamp { secs: 42, nanos: 7 }, period: 9, port: 9001, host_alias: None };
    app_state.handshake(Ip::V4(OTHER_HOST), d);
    let known = app_state.known_peers();
    assert_eq!(known.len(), 1);
    assert_eq!(known.get(&v4(OTHER_HOST, 9001)), Some(d));
}

#[test]
fn handshake_prefers_host_alias() {
    let mut app_state = setup_app_state();
    let alias = Ip::V6(1);
    let r = app_state.handshake(Ip::V4(OTHER_HOST), peer_on(9002, Some(alias)));
    assert_eq!(r, Handshake::Connected(Addr::new(alias, 9002)));
    assert!(!app_state.known_peers().contains(&v4(OTHER_HOST, 9002)));
}

#[test]
fn handshake_from_own_address_is_rejected() {
    let mut app_state = setup_app_state();
    let r = app_state.handshake(Ip::V4(LOCALHOST_V4), default_peer());
    assert_eq!(r, Handshake::RejectedSelf);
    assert_eq!(app_state.known_peers().len(), 0);
}

#[test]
fn add_known_peer_skips_own_address() {
    let mut app_state = setup_app_state();
    app_state.add_known_peer(default_peer().socket_addr(), default_peer());
    assert_eq!(app_state.known_peers().len(), 0);
    app_state.add_known_peer(v4(OTHER_HOST, 1), peer_on(1, None));
    app_state.add_known_peer(v4(OTHER_HOST, 1), peer_on(2, None));
    assert_eq!(app_state.known_peers().get(&v4(OTHER_HOST, 1)), Some(peer_on(2, None)));
}

#[test]
fn merge_adds_others_but_not_self() {
    let mut app_state = setup_app_state();
    let a = v4(OTHER_HOST, 7001);
    let b = v4(OTHER_HOST, 7002);
    let me = default_peer().socket_addr();
    let mut remote = PeerRegistry::new();
    remote.put(a, peer_on(7001, None));
    remote.put(b, peer_on(7002, None));
    remote.put(me, default_peer());
    app_state.merge_known_peers(&remote);
    let known = app_state.known_peers();
    assert_eq!(known.len(), 2);
    assert_eq!(known.get(&a), Some(peer_on(7001, None)));
    assert_eq!(known.get(&b), Some(peer_on(7002, None)));
    assert!(!known.contains(&me));
}

#[test]
fn failed_pulls_are_dropped_and_later_pulls_win() {
    let mut app_state = setup_app_state();
    let a = v4(OTHER_HOST, 7001);
    let mut first = PeerRegistry::new();
    first.put(a, peer_on(1, None));
    let mut second = PeerRegistry::new();
    second.put(a, peer_on(2, None));
    app_state.update_known_peers(&vec![Some(first), None, Some(second)]);
    let known = app_state.known_peers();
    assert_eq!(known.len(), 1);
    assert_eq!(known.get(&a), Some(peer_on(2, None)));
}

#[test]
fn failed_push_evicts_peer() {
    let mut app_state = setup_app_state();
    let y = v4(OTHER_HOST, 7003);
    let z = v4(OTHER_HOST, 7004);
    app_state.add_known_peer(y, peer_on(7003, None));
    app_state.add_known_peer(z, peer_on(7004, None));
    app_state.evict_unreachable(&vec![(y, false), (z, true)]);
    let known = app_state.known_peers();
    assert!(!known.contains(&y));
    assert!(known.contains(&z));
    assert_eq!(known.len(), 1);
}

#[test]
fn tick_plans_follow_the_flags() {
    let mut app_state = setup_app_state();
    let y = v4(OTHER_HOST, 7005);
    app_state.add_known_peer(y, peer_on(7005, None));
    match app_state.on_tick() {
        TickPlan::Discover(t) => assert_eq!(t, vec![y]),
        _ => panic!("discovery is enabled"),
    }
    let quiet = ApplicationState::new(default_peer(), false);
    match quiet.on_tick() {
        TickPlan::Disseminate(t) => assert!(t.is_empty()),
        _ => panic!("discovery is disabled"),
    }
}

#[test]
fn stopped_scheduler_plans_no_push() {
    let mut app_state = setup_app_state();
    app_state.add_known_peer(v4(OTHER_HOST, 7006), peer_on(7006, None));
    app_state.stop();
    assert!(!app_state.keep_running());
    assert!(matches!(app_state.on_tick(), TickPlan::Stop));
}

#[test]
fn push_targets_follow_the_registry() {
    let mut app_state = setup_app_state();
    let a = v4(OTHER_HOST, 1);
    let b = v4(OTHER_HOST, 2);
    app_state.add_known_peer(a, peer_on(1, None));
    app_state.add_known_peer(b, peer_on(2, None));
    app_state.add_known_peer(a, peer_on(3, None));
    assert_eq!(app_state.push_targets(), vec![a, b]);
}

#[test]
fn registry_remove_is_noop_when_absent() {
    let mut r = PeerRegistry::new();
    let a = v4(OTHER_HOST, 1);
    r.remove(&a);
    assert_eq!(r.len(), 0);
    r.put(a, peer_on(1, None));
    let copy = r.snapshot();
    r.remove(&a);
    assert_eq!(r.len(), 0);
    assert_eq!(copy.len(), 1);
    assert_eq!(r.addresses(), Vec::<Addr>::new());
}

#[test]
fn own_address_defaults_to_loopback() {
    assert_eq!(default_peer().socket_addr(), v4(LOCALHOST_V4, 8080));
    assert_eq!(peer_on(1, Some(Ip::V4(OTHER_HOST))).socket_addr(), v4(OTHER_HOST, 1));
}

#[test]
fn config_parses_period_and_port() {
    let t = Timestamp { secs: 3, nanos: 4 };
    let p = Peer::try_from(t, "5", "8080", None).unwrap();
    assert_eq!(p, Peer { started: t, period: 5, port: 8080, host_alias: None });
    let q = Peer::try_from(t, "+12", "+65535", Some(Ip::V4(OTHER_HOST))).unwrap();
    assert_eq!(q.period, 12);
    assert_eq!(q.port, 65535);
    assert_eq!(q.host_alias, Some(Ip::V4(OTHER_HOST)));
}

#[test]
fn config_rejects_bad_values() {
    let t = Timestamp { secs: 0, nanos: 0 };
    assert_eq!(Peer::try_from(t, "0", "8080", None), Err(ConfigError::BadPeriod));
    assert_eq!(Peer::try_from(t, "five", "8080", None), Err(ConfigError::BadPeriod));
    assert_eq!(Peer::try_from(t, "", "8080", None), Err(ConfigError::BadPeriod));
    assert_eq!(Peer::try_from(t, "5", "65536", None), Err(ConfigError::BadPort));
    assert_eq!(Peer::try_from(t, "5", " 80", None), Err(ConfigError::BadPort));
    assert_eq!(Peer::try_from(t, "5", "-1", None), Err(ConfigError::BadPort));
    assert_eq!(Peer::try_from(t, "x", "y", None), Err(ConfigError::BadPeriod));
}

#[test]
fn message_describe_tags_text() {
    let m = Message::new("hi");
    assert_eq!(m.describe(), "p2pgossip message: hi".to_string());
}
