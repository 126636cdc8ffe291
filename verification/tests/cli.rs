use base64::engine::general_purpose::STANDARD as B64;
use base64::Engine;
use naboscale::bytes::{same_bytes, u32_from_le, u32_to_le, u64_to_be, u64_to_le};
use naboscale::cli::config::Config;
use naboscale::cli::error::Error;
use naboscale::cli::heartbeat::{Heartbeats, Report, Task};
use naboscale::cli::init::init;
use naboscale::cli::keystore::OpenedKeys;
use naboscale::cli::platform::{add_route, configure_tun, parse_ipv4, CommandLine, Os};
use naboscale::cli::state::{
    is_token_expired, is_token_expired_soon, parse_pid, State, TokenStatus,
};
use naboscale::cli::up::{
    check_advertised, check_relay, choose_advertised, discover_peer, discover_peers, far_end,
    initiates, is_after, is_wildcard, own_ip, plan_peers, ListedPeer, ADVERTISE_ENV, MESH_NETWORK,
};
use naboscale::coord::routes::{PeerEntry, RefreshResponse, RegisterResponse};
use naboscale::crypto::Tai64N;
use naboscale::net::{Endpoint, IpAddress};
use naboscale::table::Table;
use naboscale::text;
use naboscale::time::{Duration, Instant};
use naboscale::tunnel::{ManagerConfig, TunnelManager};

fn endpoint(port: u16) -> Endpoint {
    Endpoint::V4 { ip: 0x0a00_0001, port }
}

fn entry(key: u8, ip: &str, last_endpoint: Option<&str>, via_relay: Option<&str>) -> PeerEntry {
    PeerEntry {
        node_id: format!("node-{key}"),
        wg_pubkey: B64.encode([key; 32]),
        ip: ip.to_string(),
        last_endpoint: last_endpoint.map(|s| s.to_string()),
        via_relay: via_relay.map(|s| s.to_string()),
        last_seen: None,
    }
}

fn direct(key: u8, ip: &str, port: u16) -> ListedPeer {
    ListedPeer {
        entry: entry(key, ip, Some("10.0.0.1:1"), None),
        endpoint: Some(endpoint(port)),
        relay: None,
    }
}

fn state(expires_at: Option<i64>) -> State {
    let mut s = State::registered(&RegisterResponse {
        node_id: "n".to_string(),
        ip: "100.100.0.9".to_string(),
        auth_token: "t".to_string(),
        auth_token_expires_at: 5,
        derp_url: String::new(),
    });
    assert_eq!(s.auth_token_expires_at, Some(5));
    s.auth_token_expires_at = expires_at;
    s
}

fn plan_error(p: ListedPeer) -> String {
    match plan_peers(&vec![direct(1, "100.100.0.1", 1), p], &[5u8; 32], None) {
        Ok(_) => panic!("a plan was made"),
        Err(e) => e.message(),
    }
}

#[test]
fn reachable_peers_get_tunnels() {
    let peers = vec![
        direct(9, "100.100.0.1", 11),
        ListedPeer { entry: entry(2, "100.100.0.2", None, None), endpoint: None, relay: None },
        ListedPeer {
            entry: entry(3, "100.100.0.3", Some("0.0.0.0:51820"), None),
            endpoint: Some(endpoint(1)),
            relay: None,
        },
        ListedPeer {
            entry: entry(8, "100.100.0.4", Some("[::]:51820"), Some("10.0.0.1:7")),
            endpoint: Some(endpoint(1)),
            relay: Some(endpoint(7)),
        },
        direct(1, "100.100.0.5", 15),
        ListedPeer {
            entry: entry(7, "100.100.0.6", None, Some("10.0.0.1:8")),
            endpoint: None,
            relay: Some(endpoint(8)),
        },
    ];
    let plan = plan_peers(&peers, &[5u8; 32], None).unwrap();
    assert_eq!(plan.skipped, vec!["100.100.0.2", "100.100.0.3"]);
    assert_eq!(plan.peers.len(), 4);
    let p = &plan.peers[0];
    assert_eq!(p.peer_pub, [9u8; 32]);
    assert_eq!(p.psk, [0u8; 32]);
    assert_eq!(p.local_sender_id, 1);
    assert!(!p.is_initiator);
    assert_eq!(p.peer_endpoint, endpoint(11));
    assert_eq!(p.peer_ip, [100, 100, 0, 1]);
    assert_eq!(p.via_relay, None);
    let p = &plan.peers[1];
    assert_eq!(p.local_sender_id, 4);
    assert!(!p.is_initiator);
    assert_eq!(p.peer_endpoint, Endpoint::V4 { ip: 0, port: 0 });
    assert_eq!(p.via_relay, Some(endpoint(7)));
    let p = &plan.peers[2];
    assert_eq!(p.local_sender_id, 5);
    assert!(p.is_initiator);
    let p = &plan.peers[3];
    assert_eq!(p.local_sender_id, 6);
    assert_eq!(p.peer_endpoint, Endpoint::V4 { ip: 0, port: 0 });
    assert_eq!(p.via_relay, Some(endpoint(8)));
    assert!(!p.is_initiator);
    assert_eq!(far_end(&plan.peers, "100.100.0.9"), "100.100.0.1");
    assert_eq!(far_end(&vec![], "100.100.0.9"), "100.100.0.9");
}

#[test]
fn a_node_behind_a_relay_opens_every_tunnel() {
    let peers = vec![
        direct(9, "100.100.0.1", 11),
        ListedPeer {
            entry: entry(8, "100.100.0.4", Some("10.0.0.1:1"), Some("10.0.0.1:7")),
            endpoint: Some(endpoint(1)),
            relay: Some(endpoint(7)),
        },
    ];
    let plan = plan_peers(&peers, &[5u8; 32], Some(endpoint(99))).unwrap();
    assert!(plan.peers[0].is_initiator);
    assert_eq!(plan.peers[0].via_relay, Some(endpoint(99)));
    assert!(plan.peers[1].is_initiator);
    assert_eq!(plan.peers[1].via_relay, Some(endpoint(99)));
}

#[test]
fn one_side_opens() {
    let a = [1u8; 32];
    let mut b = a;
    b[31] = 2;
    assert!(initiates(&b, None, &a, None));
    assert!(!initiates(&a, None, &b, None));
    assert!(!initiates(&a, None, &a, None));
    assert!(initiates(&a, Some(endpoint(1)), &b, None));
    assert!(!initiates(&b, None, &a, Some(endpoint(1))));
    let mut c = a;
    c[0] = 0;
    c[1] = 255;
    assert!(is_after(&a, &c));
    assert!(!is_after(&c, &a));
}

#[test]
fn impossible_plans_are_refused() {
    let mut p = direct(2, "100.100.0.2", 2);
    p.entry.wg_pubkey = B64.encode([2u8; 31]);
    assert_eq!(plan_error(p), "server error: peer wg_pubkey is not 32 bytes");
    let mut p = direct(2, "100.100.0.2", 2);
    p.entry.wg_pubkey = "?".to_string();
    assert!(plan_error(p).starts_with("base64 decode error: "));
    let mut p = direct(2, "100.100.0.2", 2);
    p.entry.via_relay = Some("here\"".to_string());
    assert_eq!(
        plan_error(p),
        "server error: peer node-2 via_relay \"here\\\"\" is not a valid ip:port"
    );
    let mut p = direct(2, "100.100.0.2", 2);
    p.endpoint = None;
    assert_eq!(plan_error(p), "server error: peer endpoint is not a valid socket address");
    let p = direct(2, "100.100.0", 2);
    assert_eq!(plan_error(p), "server error: peer ip is not a valid IPv4: 100.100.0");
}

#[test]
fn newcomers_are_discovered() {
    let own = [5u8; 32];
    let c = discover_peer(&direct(2, "100.100.0.2", 22), &own, None, 6).unwrap();
    assert_eq!(c.local_sender_id, 7);
    assert_eq!(c.peer_endpoint, endpoint(22));
    assert!(c.is_initiator);
    let mut p = direct(2, "100.100.0.2", 22);
    p.endpoint = None;
    let c = discover_peer(&p, &own, None, 0).unwrap();
    assert_eq!(c.peer_endpoint, Endpoint::V4 { ip: 0, port: 0 });
    let mut p = direct(2, "100.100.0.2", 22);
    p.entry.last_endpoint = None;
    assert!(discover_peer(&p, &own, None, 0).is_none());
    p.entry.via_relay = Some("10.0.0.1:7".to_string());
    p.relay = Some(endpoint(7));
    let c = discover_peer(&p, &own, None, 0).unwrap();
    assert_eq!(c.via_relay, Some(endpoint(7)));
    assert!(!c.is_initiator);
    p.relay = None;
    assert!(discover_peer(&p, &own, None, 0).is_none());
    assert!(discover_peer(&direct(2, "nowhere", 22), &own, None, 0).is_none());
    let mut p = direct(2, "100.100.0.2", 22);
    p.entry.wg_pubkey = "short".to_string();
    assert!(discover_peer(&p, &own, None, 0).is_none());
}

#[test]
fn what_is_announced() {
    assert_eq!(choose_advertised(Some("a"), Some("c"), "d"), "a");
    assert_eq!(choose_advertised(None, Some("c"), "d"), "c");
    assert_eq!(choose_advertised(None, None, "d"), "d");
    assert!(check_advertised("x", true).is_ok());
    assert_eq!(
        check_advertised("x\n", false).unwrap_err().message(),
        "server error: advertise-endpoint \"x\\n\" is not a valid ip:port"
    );
    assert_eq!(check_relay(None, Some(endpoint(1))).unwrap(), None);
    assert_eq!(check_relay(Some("x"), Some(endpoint(1))).unwrap(), Some(endpoint(1)));
    assert_eq!(
        check_relay(Some("x"), None).unwrap_err().message(),
        "server error: invalid --relay endpoint: x"
    );
    assert!(is_wildcard("0.0.0.0:1"));
    assert!(is_wildcard("[::]:1"));
    assert!(!is_wildcard("10.0.0.0:1"));
    assert_eq!(own_ip("1.2.3.4").unwrap(), [1, 2, 3, 4]);
    assert_eq!(
        own_ip("1.2.3").unwrap_err().message(),
        "server error: my own ip is not a valid IPv4: 1.2.3"
    );
    assert_eq!(ADVERTISE_ENV, "NABOSCALE_ADVERTISE_ENDPOINT");
    assert_eq!(MESH_NETWORK, "100.100.0.0/16");
}

#[test]
fn tokens_expire() {
    assert!(is_token_expired(None, 0));
    assert!(is_token_expired(Some(10), 10));
    assert!(!is_token_expired(Some(11), 10));
    assert!(is_token_expired_soon(None, 60, 0));
    assert!(is_token_expired_soon(Some(70), 60, 10));
    assert!(!is_token_expired_soon(Some(71), 60, 10));
    assert_eq!(
        state(Some(50)).token_status(20),
        TokenStatus::Valid { expires_at: 50, remaining: 30 }
    );
    assert_eq!(state(Some(20)).token_status(20), TokenStatus::Expired);
    assert_eq!(state(None).token_status(20), TokenStatus::Unknown);
}

#[test]
fn the_state_remembers() {
    let mut s = state(None);
    s.learn_peers(&vec![entry(1, "100.100.0.1", Some("e"), Some("r"))]);
    assert_eq!(s.known_peers.len(), 1);
    assert_eq!(s.known_peers[0].node_id, "node-1");
    assert_eq!(s.known_peers[0].last_endpoint.as_deref(), Some("e"));
    assert_eq!(s.known_peers[0].via_relay.as_deref(), Some("r"));
    s.learn_peers(&vec![]);
    assert!(s.known_peers.is_empty());
    s.take_token(&RefreshResponse {
        auth_token: "new".to_string(),
        auth_token_expires_at: 9,
        old_token_expires_at: 9,
    });
    assert_eq!(s.auth_token, "new");
    assert_eq!(s.auth_token_expires_at, Some(9));
    s.announced("1.1.1.1:1", 77);
    assert_eq!(s.last_endpoint.as_deref(), Some("1.1.1.1:1"));
    assert_eq!(s.last_handshake_at, Some(77));
    assert_eq!(Config::default_with_server("u").server.url, "u");
}

#[test]
fn process_numbers_are_read() {
    assert_eq!(parse_pid("123").unwrap(), 123);
    assert_eq!(parse_pid("-1").unwrap(), -1);
    assert!(parse_pid("2147483648").is_err());
    assert_eq!(
        parse_pid("12a").unwrap_err().message(),
        "config file malformed: bad PID file"
    );
}

fn line(c: &CommandLine) -> String {
    format!("{} {}", c.program, c.args.join(" "))
}

#[test]
fn devices_are_set_up_per_system() {
    let mac = configure_tun(Os::MacOs, "utun9", "1.1.1.1", "2.2.2.2").unwrap();
    assert_eq!(mac.len(), 1);
    assert_eq!(line(&mac[0]), "ifconfig utun9 1.1.1.1 2.2.2.2");
    assert_eq!(mac[0].on_failure, "ifconfig utun9 1.1.1.1 2.2.2.2 failed");
    let linux = configure_tun(Os::Linux, "tun0", "1.1.1.1", "2.2.2.2").unwrap();
    assert_eq!(linux.len(), 2);
    assert_eq!(line(&linux[0]), "ip addr add 1.1.1.1/32 dev tun0");
    assert_eq!(linux[0].on_failure, "ip addr add failed for tun0");
    assert_eq!(line(&linux[1]), "ip link set tun0 up");
    assert_eq!(linux[1].on_failure, "ip link set up failed for tun0");
    assert!(matches!(configure_tun(Os::Other, "t", "a", "b"), Err(Error::Server(_))));
    let mac = add_route(Os::MacOs, "d", "t").unwrap();
    assert_eq!(line(&mac), "route -n add -net d -interface t");
    assert_eq!(mac.on_failure, "route add -net d -interface t failed");
    let linux = add_route(Os::Linux, "d", "t").unwrap();
    assert_eq!(line(&linux), "ip route replace d dev t");
    assert_eq!(linux.on_failure, "ip route replace d dev t failed");
    assert!(add_route(Os::Other, "d", "t").is_err());
    assert_eq!(parse_ipv4("10.0.0.255").unwrap(), [10, 0, 0, 255]);
    assert_eq!(
        parse_ipv4("10.0.0.256").unwrap_err().message(),
        "server error: invalid IPv4: 10.0.0.256"
    );
}

#[test]
fn numbers_in_words() {
    assert_eq!(text::decimal_text(0), "0");
    assert_eq!(text::decimal_text(u64::MAX), "18446744073709551615");
    assert_eq!(text::signed_decimal_text(i64::MIN), "-9223372036854775808");
    assert_eq!(text::signed_decimal_text(42), "42");
    assert_eq!(text::hex_byte_text(0xa5), "a5");
    assert_eq!(text::dotted_text(&[1, 20, 255, 0]), "1.20.255.0");
    assert_eq!(text::parse_i64("-9223372036854775808"), Some(i64::MIN));
    assert_eq!(text::parse_i64("9223372036854775808"), None);
    assert_eq!(text::parse_i64("+0012"), Some(12));
    assert_eq!(text::parse_i64("-"), None);
    assert_eq!(text::parse_i64(" 1"), None);
    assert!(text::starts_with("abc", "ab"));
    assert!(!text::starts_with("a", "ab"));
}

#[test]
fn addresses_are_read_strictly_or_not() {
    assert_eq!(text::parse_ipv4("100.100.0.1"), Some([100, 100, 0, 1]));
    assert_eq!(text::parse_ipv4("100.100.00.1"), None);
    assert_eq!(text::parse_ipv4("100.100.0.1.2"), None);
    assert_eq!(text::parse_ipv4("100.100.0"), None);
    assert_eq!(text::parse_ipv4("100.100.0.-1"), None);
    assert_eq!(text::parse_ipv4(""), None);
    assert_eq!(text::parse_lenient_ip("100.100.0.1"), [100, 100, 0, 1]);
    assert_eq!(text::parse_lenient_ip("100.300.x.1.9"), [100, 0, 0, 1]);
    assert_eq!(text::parse_lenient_ip("+7"), [7, 0, 0, 0]);
    assert_eq!(text::parse_lenient_ip(""), [0, 0, 0, 0]);
    assert_eq!(text::parse_lenient_ip("007.1"), [7, 1, 0, 0]);
}

#[test]
fn bytes_in_order() {
    assert_eq!(u32_to_le(0x0102_0304), [4, 3, 2, 1]);
    assert_eq!(u32_from_le(&[4, 3, 2, 1]), 0x0102_0304);
    assert_eq!(u64_to_le(1), [1, 0, 0, 0, 0, 0, 0, 0]);
    assert_eq!(u64_to_be(1), [0, 0, 0, 0, 0, 0, 0, 1]);
    assert!(same_bytes(&[1, 2], &[1, 2]));
    assert!(!same_bytes(&[1, 2], &[1, 2, 3]));
}

#[test]
fn tables_keep_one_value_per_key() {
    let mut t: Table<Endpoint, usize> = Table::new();
    assert!(t.get(&endpoint(1)).is_none());
    t.insert(endpoint(1), 10);
    t.insert(endpoint(2), 20);
    t.insert(endpoint(1), 11);
    assert_eq!(t.get(&endpoint(1)), Some(11));
    t.remove(&endpoint(1));
    assert_eq!(t.get(&endpoint(1)), None);
    assert_eq!(t.get(&endpoint(2)), Some(20));
}

#[test]
fn times_and_addresses() {
    assert_eq!(Duration::from_millis(3).nanos, 3_000_000);
    assert_eq!(Duration::from_secs(3).nanos, 3_000_000_000);
    let early = Instant { nanos: 5 };
    let late = early.plus(Duration { nanos: 7 });
    assert_eq!(late.duration_since(early).nanos, 7);
    assert_eq!(early.duration_since(late).nanos, 0);
    assert!(Endpoint::V4 { ip: 0, port: 9 }.is_unspecified());
    assert!(!endpoint(0).is_unspecified());
    assert!(Endpoint::V6 { ip6: 0, port: 9, flowinfo: 0, scope_id: 0 }.is_unspecified());
    assert_ne!(IpAddress::V4(1), IpAddress::V6(1));
}

#[test]
fn errors_are_put_in_words() {
    assert_eq!(
        Error::NotInitialized("/d".to_string()).message(),
        "identity not initialized in /d: run `naboscale --config-dir /d init` first"
    );
    assert_eq!(
        Error::ConfigMissing.message(),
        "config not initialized: run `naboscale init` first"
    );
    assert_eq!(Error::NoConfigDir.message(), "config directory not found");
    assert_eq!(Error::Io("x".to_string()).message(), "io error: x");
}

#[test]
fn a_node_starts_out_with_keys_that_load() {
    let i = init("http://s", false, false, Some(b"pw")).unwrap();
    assert_eq!(i.config.server.url, "http://s");
    assert_eq!(i.wg_public, B64.encode(i.wg.public()));
    let keys =
        OpenedKeys::open("d", Some(&i.identity_file), Some(&i.wg_file), Some(b"pw")).unwrap();
    assert_eq!(keys.identity.public(), i.identity.public());
    assert_eq!(keys.wg.public(), i.wg.public());
    let refused = match init("s", true, false, Some(b"pw")) {
        Err(e) => e.message(),
        Ok(_) => panic!("keys were overwritten"),
    };
    assert_eq!(
        refused,
        "config file malformed: identity already exists; use --force to overwrite"
    );
    let refused = match init("s", true, true, None) {
        Err(e) => e.message(),
        Ok(_) => panic!("keys were left in the open"),
    };
    assert_eq!(
        refused,
        "config file malformed: initializing an encrypted keystore requires a passphrase. \
         set NABOSCALE_PASSPHRASE or pass --passphrase-file <path>"
    );
}

#[test]
fn a_round_exchanges_a_token_that_ends_soon() {
    let mut h = Heartbeats::new("t0", "1.1.1.1:1");
    match h.advance(Report::Done, 0, 0) {
        Task::Rest { span } => assert_eq!(span.nanos, 20_000_000_000),
        _ => panic!("no rest"),
    }
    assert!(matches!(h.advance(Report::Done, 100, 0), Task::Load));
    let loaded = Report::Loaded { state: Some(state(Some(160))) };
    match h.advance(loaded, 100, 0) {
        Task::Refresh { token } => assert_eq!(token, "t0"),
        _ => panic!("no refresh"),
    }
    let resp = RefreshResponse {
        auth_token: "t1".to_string(),
        auth_token_expires_at: 999,
        old_token_expires_at: 999,
    };
    assert!(matches!(h.advance(Report::Refreshed { resp: Some(resp) }, 100, 0), Task::Load));
    match h.advance(Report::Loaded { state: Some(state(Some(160))) }, 100, 0) {
        Task::Save { state } => {
            assert_eq!(state.auth_token, "t1");
            assert_eq!(state.auth_token_expires_at, Some(999));
        }
        _ => panic!("not saved"),
    }
    match h.advance(Report::Done, 100, 0) {
        Task::Beat { token } => assert_eq!(token, "t1"),
        _ => panic!("no heartbeat"),
    }
    assert!(matches!(h.advance(Report::Done, 100, 0), Task::Load));
    match h.advance(Report::Loaded { state: Some(state(None)) }, 100, 77) {
        Task::Save { state } => {
            assert_eq!(state.last_endpoint.as_deref(), Some("1.1.1.1:1"));
            assert_eq!(state.last_handshake_at, Some(77));
        }
        _ => panic!("not saved"),
    }
    assert!(matches!(h.advance(Report::Done, 100, 77), Task::Rest { .. }));
}

#[test]
fn a_round_goes_on_where_tasks_fail() {
    let mut h = Heartbeats::new("t0", "e");
    h.advance(Report::Done, 0, 0);
    h.advance(Report::Done, 0, 0);
    match h.advance(Report::Loaded { state: Some(state(Some(161))) }, 100, 0) {
        Task::Beat { token } => assert_eq!(token, "t0"),
        _ => panic!("no heartbeat"),
    }
    assert!(matches!(h.advance(Report::Done, 0, 0), Task::Load));
    assert!(matches!(h.advance(Report::Loaded { state: None }, 0, 0), Task::Rest { .. }));
    h.advance(Report::Done, 0, 0);
    assert!(matches!(h.advance(Report::Loaded { state: None }, 0, 0), Task::Beat { .. }));
    h.advance(Report::Done, 0, 0);
    h.advance(Report::Loaded { state: None }, 0, 0);
    h.advance(Report::Done, 0, 0);
    assert!(matches!(
        h.advance(Report::Loaded { state: Some(state(None)) }, 0, 0),
        Task::Refresh { .. }
    ));
    match h.advance(Report::Refreshed { resp: None }, 0, 0) {
        Task::Beat { token } => assert_eq!(token, "t0"),
        _ => panic!("no heartbeat"),
    }
}

#[test]
fn newcomers_get_sessions_once() {
    let now = Instant { nanos: 0 };
    let clock = Tai64N::from_unix(0, 0);
    let own = [5u8; 32];
    let peers = vec![direct(1, "100.100.0.1", 1)];
    let plan = plan_peers(&peers, &own, None).unwrap();
    let mut m = TunnelManager::new(ManagerConfig::default(), plan.peers, now, clock).unwrap();
    assert_eq!(m.peer_count(), 1);
    let listed = vec![
        direct(1, "100.100.0.1", 1),
        direct(2, "100.100.0.2", 2),
        direct(2, "100.100.0.2", 2),
        direct(3, "bad", 3),
        direct(4, "100.100.0.4", 4),
    ];
    discover_peers(&mut m, &listed, &own, None, now, clock);
    assert_eq!(m.peer_count(), 3);
    discover_peers(&mut m, &listed, &own, None, now, clock);
    assert_eq!(m.peer_count(), 3);
}
