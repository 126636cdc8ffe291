use base64::engine::general_purpose::STANDARD as B64;
use base64::Engine;
use naboscale::cli::client::{
    base_url, delete_node_request, heartbeat_request, refresh_request, register_request,
};
use naboscale::coord::auth::{
    build_delete_node_message, build_heartbeat_message, build_refresh_message,
    build_register_message, current_timestamp, timestamp_of, validate_timestamp, verify_heartbeat_signature,
    verify_register_signature,
};
use naboscale::coord::db::{Directory, NodeRecord, TokenRecord, DEFAULT_TOKEN_TTL_SECS};
use naboscale::coord::ip_alloc::{IpAllocator, IP_POOL_HOST_COUNT};
use naboscale::coord::rate_limit::{Bucket, RateLimiter};
use naboscale::coord::routes::{
    decode_pubkey, decode_signature, extract_bearer, health, HeartbeatRequest, PeerEntry,
    RegisterRequest, SignedRequest, MAX_BODY_BYTES,
};
use naboscale::coord::state::token_ttl_from_env;
use naboscale::coord::{AppState, Error};
use naboscale::crypto::{Identity, Keypair};
use naboscale::net::IpAddress;
use naboscale::time::{Duration, Instant};

const LOCALHOST: IpAddress = IpAddress::V4(0x7f00_0001);

struct TestClient {
    identity: Identity,
    wg: Keypair,
    auth_token: Option<String>,
    auth_token_expires_at: Option<i64>,
    ip: Option<String>,
}

impl TestClient {
    fn new() -> Self {
        Self {
            identity: Identity::generate(),
            wg: Keypair::generate(),
            auth_token: None,
            auth_token_expires_at: None,
            ip: None,
        }
    }

    fn wg_pub_b64(&self) -> String {
        B64.encode(self.wg.public())
    }

    fn header(&self) -> String {
        format!("Bearer {}", self.auth_token.as_ref().expect("test client has no token"))
    }

    fn register(&mut self, server: &mut AppState, now: i64) {
        let mut msg = Vec::new();
        msg.extend_from_slice(b"register");
        msg.extend_from_slice(&now.to_be_bytes());
        msg.extend_from_slice(&self.identity.public());
        msg.extend_from_slice(self.wg.public());
        let sig = self.identity.sign(&msg);
        let req = RegisterRequest {
            identity_pubkey: B64.encode(self.identity.public()),
            wg_pubkey: self.wg_pub_b64(),
            timestamp: now,
            signature: B64.encode(sig),
        };
        let resp = server.register(LOCALHOST, &req, at(0), now).expect("register failed");
        self.auth_token = Some(resp.auth_token);
        self.auth_token_expires_at = Some(resp.auth_token_expires_at);
        self.ip = Some(resp.ip);
        assert_eq!(resp.derp_url, "");
    }

    fn refresh_token(&mut self, server: &mut AppState, now: i64) -> Result<(), Error> {
        let mut msg = Vec::new();
        msg.extend_from_slice(b"token_refresh");
        msg.extend_from_slice(&now.to_be_bytes());
        let req = SignedRequest {
            timestamp: now,
            signature: B64.encode(self.identity.sign(&msg)),
        };
        let header = self.header();
        let resp = server.refresh_token(LOCALHOST, Some(&header), &req, at(0), now)?;
        self.auth_token = Some(resp.auth_token);
        self.auth_token_expires_at = Some(resp.auth_token_expires_at);
        assert_eq!(resp.old_token_expires_at, resp.auth_token_expires_at);
        Ok(())
    }

    fn delete_node(&self, server: &mut AppState, now: i64) -> Result<(), Error> {
        let mut msg = Vec::new();
        msg.extend_from_slice(b"delete_node");
        msg.extend_from_slice(&now.to_be_bytes());
        let req = SignedRequest {
            timestamp: now,
            signature: B64.encode(self.identity.sign(&msg)),
        };
        server.delete_node(LOCALHOST, Some(&self.header()), &req, at(0), now)
    }

    fn heartbeat(&self, server: &mut AppState, endpoint: &str, now: i64) -> Result<(), Error> {
        let mut msg = Vec::new();
        msg.extend_from_slice(b"heartbeat");
        msg.extend_from_slice(&now.to_be_bytes());
        msg.extend_from_slice(endpoint.as_bytes());
        msg.push(1);
        let req = HeartbeatRequest {
            endpoint: endpoint.to_string(),
            via_relay: None,
            timestamp: now,
            signature: B64.encode(self.identity.sign(&msg)),
        };
        server.heartbeat(LOCALHOST, Some(&self.header()), &req, false, at(0), now)
    }

    fn peers(&self, server: &mut AppState, now: i64) -> Vec<PeerEntry> {
        server
            .peers(LOCALHOST, Some(&self.header()), at(0), now)
            .expect("peers failed")
            .peers
    }
}

fn at(secs: u64) -> Instant {
    Instant { nanos: secs * 1_000_000_000 }
}

fn now_ts() -> i64 {
    current_timestamp().unwrap()
}

fn unsigned_heartbeat(now: i64) -> HeartbeatRequest {
    HeartbeatRequest {
        endpoint: "1.2.3.4:51820".to_string(),
        via_relay: None,
        timestamp: now,
        signature: B64.encode([0u8; 64]),
    }
}

#[test]
fn health_endpoint_returns_ok() {
    assert_eq!(health(), "ok");
}

#[test]
fn two_clients_register_and_see_each_other() {
    let mut server = AppState::in_memory(None);
    let mut alice = TestClient::new();
    let mut bob = TestClient::new();
    let now = now_ts();

    alice.register(&mut server, now);
    bob.register(&mut server, now);

    assert_eq!(alice.ip.as_deref(), Some("100.100.0.1"));
    assert_eq!(bob.ip.as_deref(), Some("100.100.0.2"));

    let alice_peers = alice.peers(&mut server, now);
    assert_eq!(alice_peers.len(), 1);
    assert_eq!(alice_peers[0].wg_pubkey, bob.wg_pub_b64());
    assert_eq!(alice_peers[0].ip, "100.100.0.2");

    let bob_peers = bob.peers(&mut server, now);
    assert_eq!(bob_peers.len(), 1);
    assert_eq!(bob_peers[0].wg_pubkey, alice.wg_pub_b64());
}

#[test]
fn heartbeat_updates_endpoint() {
    let mut server = AppState::in_memory(None);
    let mut alice = TestClient::new();
    let mut bob = TestClient::new();
    let now = now_ts();
    alice.register(&mut server, now);
    bob.register(&mut server, now);

    let resp = bob.heartbeat(&mut server, "203.0.113.10:51820", now);
    assert!(resp.is_ok(), "heartbeat failed: {:?}", resp);

    let peers = alice.peers(&mut server, now);
    assert_eq!(peers[0].last_endpoint.as_deref(), Some("203.0.113.10:51820"));
    assert!(peers[0].last_seen.is_some());
    assert_eq!(peers[0].last_seen, Some(now));
}

#[test]
fn register_rejects_bad_signature() {
    let mut server = AppState::in_memory(None);
    let alice_identity = Identity::generate();
    let alice_wg = Keypair::generate();
    let timestamp = now_ts();
    let sig = [0u8; 64];
    let req = RegisterRequest {
        identity_pubkey: B64.encode(alice_identity.public()),
        wg_pubkey: B64.encode(alice_wg.public()),
        timestamp,
        signature: B64.encode(sig),
    };
    let e = server.register(LOCALHOST, &req, at(0), timestamp).unwrap_err();
    assert_eq!(e.status(), 401);
}

#[test]
fn heartbeat_rejects_missing_token() {
    let mut server = AppState::in_memory(None);
    let mut alice = TestClient::new();
    let now = now_ts();
    alice.register(&mut server, now);
    let req = unsigned_heartbeat(0);
    let e = server.heartbeat(LOCALHOST, None, &req, false, at(0), now).unwrap_err();
    assert_eq!(e.status(), 401);
}

#[test]
fn register_returns_expiry_in_future() {
    let mut server = AppState::in_memory(None);
    let mut alice = TestClient::new();
    let now = now_ts();
    alice.register(&mut server, now);
    let exp = alice.auth_token_expires_at.expect("expiry set");
    assert!(exp > now_ts(), "expiry {exp} must be > now {}", now_ts());
    assert_eq!(exp, now + 30 * 24 * 60 * 60);
}

#[test]
fn expired_token_is_rejected() {
    let mut server = AppState::in_memory_with_ttl(1);
    let mut alice = TestClient::new();
    let now = now_ts();
    alice.register(&mut server, now);
    let resp = alice.heartbeat(&mut server, "1.2.3.4:51820", now + 1);
    assert_eq!(
        resp.map_err(|e| e.status()),
        Err(401),
        "expired token must be rejected"
    );
}

#[test]
fn refresh_token_replaces_old_and_revokes_it() {
    let mut server = AppState::in_memory(None);
    let mut alice = TestClient::new();
    let now = now_ts();
    alice.register(&mut server, now);
    let old_token = alice.auth_token.clone().expect("token");
    let status = alice.refresh_token(&mut server, now);
    assert!(status.is_ok(), "refresh failed: {:?}", status);
    let new_token = alice.auth_token.clone().expect("new token");
    assert_ne!(old_token, new_token, "refresh must issue a new token");

    let header = format!("Bearer {old_token}");
    let e = server
        .heartbeat(LOCALHOST, Some(&header), &unsigned_heartbeat(now), false, at(0), now)
        .unwrap_err();
    assert_eq!(e.status(), 401, "old (revoked) token must be rejected");

    let resp = alice.heartbeat(&mut server, "1.2.3.4:51820", now);
    assert!(resp.is_ok(), "new token must be accepted, got {:?}", resp);
}

#[test]
fn delete_node_removes_node_and_releases_ip() {
    let mut server = AppState::in_memory(None);
    let mut alice = TestClient::new();
    let now = now_ts();
    alice.register(&mut server, now);
    let alice_header = alice.header();
    let status = alice.delete_node(&mut server, now);
    assert!(status.is_ok(), "delete_node must succeed");

    let e = server
        .heartbeat(LOCALHOST, Some(&alice_header), &unsigned_heartbeat(now), false, at(0), now)
        .unwrap_err();
    assert_eq!(e.status(), 401);

    let mut bob = TestClient::new();
    bob.register(&mut server, now);
    assert_eq!(
        bob.ip.as_deref(),
        Some("100.100.0.1"),
        "alice's IP must be recycled after delete_node"
    );
}

#[test]
fn refresh_token_rejects_wrong_signature() {
    let mut server = AppState::in_memory(None);
    let mut alice = TestClient::new();
    let now = now_ts();
    alice.register(&mut server, now);
    let bad_sig = [0u8; 64];
    let req = SignedRequest { timestamp: now, signature: B64.encode(bad_sig) };
    let e = server
        .refresh_token(LOCALHOST, Some(&alice.header()), &req, at(0), now)
        .unwrap_err();
    assert_eq!(e.status(), 401);
}

#[test]
fn register_rate_limited_after_threshold() {
    let mut server = AppState::in_memory(None);
    let mut last_status = None;
    for i in 0..7 {
        let id = Identity::generate();
        let wg = Keypair::generate();
        let ts = now_ts();
        let mut msg = Vec::new();
        msg.extend_from_slice(b"register");
        msg.extend_from_slice(&ts.to_be_bytes());
        msg.extend_from_slice(&id.public());
        msg.extend_from_slice(wg.public());
        let sig = id.sign(&msg);
        let req = RegisterRequest {
            identity_pubkey: B64.encode(id.public()),
            wg_pubkey: B64.encode(wg.public()),
            timestamp: ts,
            signature: B64.encode(sig),
        };
        match server.register(LOCALHOST, &req, at(0), ts) {
            Ok(_) => {}
            Err(e) => {
                last_status = Some(e.status());
                if e.status() == 429 {
                    assert_eq!(i, 5);
                    let retry = e.retry_after();
                    assert!(retry.is_some(), "429 must include Retry-After");
                    assert_eq!(retry, Some(60));
                    return;
                }
                panic!("register {i} unexpectedly failed: {:?}", e);
            }
        }
    }
    panic!(
        "expected 429 within 7 registers from one IP, last_status={:?}",
        last_status
    );
}

#[test]
fn admits_up_to_limit_then_rejects() {
    let mut rl = RateLimiter::new();
    let ip = IpAddress::V4(0x0102_0304);
    for _ in 0..5 {
        assert!(rl.check(ip, Bucket::Register, at(0)).is_ok());
    }
    let err = rl.check(ip, Bucket::Register, at(0)).unwrap_err();
    assert!(err.nanos > Duration::from_secs(0).nanos);
    assert_eq!(err.nanos, 60_050_000_000);
}

#[test]
fn separate_ips_have_separate_buckets() {
    let mut rl = RateLimiter::new();
    let ip1 = IpAddress::V4(0x0102_0304);
    let ip2 = IpAddress::V4(0x0506_0708);
    for _ in 0..5 {
        assert!(rl.check(ip1, Bucket::Register, at(0)).is_ok());
    }
    for _ in 0..5 {
        assert!(rl.check(ip2, Bucket::Register, at(0)).is_ok());
    }
    assert!(rl.check(ip1, Bucket::Register, at(0)).is_err());
}

#[test]
fn separate_buckets_for_same_ip() {
    let mut rl = RateLimiter::new();
    let ip = IpAddress::V4(0x0102_0304);
    for _ in 0..5 {
        assert!(rl.check(ip, Bucket::Register, at(0)).is_ok());
    }
    for _ in 0..30 {
        assert!(rl.check(ip, Bucket::Heartbeat, at(0)).is_ok());
    }
    assert!(rl.check(ip, Bucket::Heartbeat, at(0)).is_err());
}

#[test]
fn the_window_slides() {
    let mut rl = RateLimiter::new();
    let ip = IpAddress::V6(1);
    for second in 0..10 {
        assert!(rl.check(ip, Bucket::Token, at(second)).is_ok());
    }
    assert_eq!(rl.check(ip, Bucket::Token, at(30)).unwrap_err().nanos, 30_050_000_000);
    assert_eq!(
        rl.check(ip, Bucket::Token, Instant { nanos: 59_999_999_999 }).unwrap_err().nanos,
        50_000_001
    );
    assert!(rl.check(ip, Bucket::Token, at(60)).is_ok());
    assert!(rl.check(ip, Bucket::Token, at(60)).is_err());
    assert!(rl.check(ip, Bucket::Token, at(61)).is_ok());
    assert_eq!(rl.check(ip, Bucket::Token, at(61)).unwrap_err().nanos, 1_050_000_000);
    assert_eq!(Bucket::Default.limit().max_requests, 120);
    assert_eq!(Bucket::Default.limit().window.nanos, 60_000_000_000);
}

#[test]
fn a_throttled_caller_waits_at_least_a_second() {
    let mut server = AppState::in_memory(None);
    for _ in 0..10 {
        let req = SignedRequest { timestamp: 0, signature: String::new() };
        assert_eq!(
            server.refresh_token(LOCALHOST, None, &req, at(0), 0).unwrap_err().status(),
            401
        );
    }
    let req = SignedRequest { timestamp: 0, signature: String::new() };
    let late = Instant { nanos: 59_900_000_000 };
    let e = server.delete_node(LOCALHOST, None, &req, late, 0).unwrap_err();
    assert_eq!(e.retry_after(), Some(1));
    assert_eq!(e.message(), "rate limit exceeded; retry after 1s");
}

#[test]
fn client_requests_are_accepted() {
    let mut server = AppState::in_memory(Some("3600"));
    let id = Identity::generate();
    let wg = Keypair::generate();
    let now = 1_700_000_000;
    let reg = register_request(&id, wg.public(), now);
    let resp = server.register(LOCALHOST, &reg, at(0), now + 300).unwrap();
    assert_eq!(resp.auth_token_expires_at, now + 300 + 3600);
    let header = format!("Bearer {}", resp.auth_token);
    let hb = heartbeat_request(&id, "10.0.0.1:1", Some("10.0.0.2:2"), now);
    server.heartbeat(LOCALHOST, Some(&header), &hb, true, at(0), now).unwrap();
    let hb = heartbeat_request(&id, "10.0.0.1:1", Some("nowhere"), now);
    let e = server.heartbeat(LOCALHOST, Some(&header), &hb, false, at(0), now).unwrap_err();
    assert_eq!(e.status(), 400);
    assert_eq!(
        e.message(),
        "invalid request: via_relay \"nowhere\" is not a valid ip:port"
    );
    let refreshed = server
        .refresh_token(LOCALHOST, Some(&header), &refresh_request(&id, now), at(0), now)
        .unwrap();
    let header = format!("Bearer {}", refreshed.auth_token);
    server
        .delete_node(LOCALHOST, Some(&header), &delete_node_request(&id, now), at(0), now)
        .unwrap();
    assert_eq!(base_url("http://host//"), "http://host");
    assert_eq!(base_url("http://host"), "http://host");
}

#[test]
fn a_relay_shows_to_the_peers() {
    let mut server = AppState::in_memory(None);
    let mut alice = TestClient::new();
    let mut bob = TestClient::new();
    let now = 1_700_000_000;
    alice.register(&mut server, now);
    bob.register(&mut server, now);
    let hb = heartbeat_request(&bob.identity, "10.0.0.1:1", Some("10.0.0.2:2"), now);
    server.heartbeat(LOCALHOST, Some(&bob.header()), &hb, true, at(0), now + 7).unwrap();
    let peers = alice.peers(&mut server, now);
    assert_eq!(peers[0].via_relay.as_deref(), Some("10.0.0.2:2"));
    assert_eq!(peers[0].last_seen, Some(now + 7));
    bob.heartbeat(&mut server, "10.0.0.1:1", now).unwrap();
    let peers = alice.peers(&mut server, now);
    assert_eq!(peers[0].via_relay.as_deref(), Some("10.0.0.2:2"));
    assert_eq!(peers[0].last_seen, Some(now));
}

#[test]
fn an_identity_registers_once() {
    let mut server = AppState::in_memory(None);
    let id = Identity::generate();
    let now = 1_700_000_000;
    let first = register_request(&id, Keypair::generate().public(), now);
    let again = register_request(&id, Keypair::generate().public(), now);
    server.register(LOCALHOST, &first, at(0), now).unwrap();
    let e = server.register(LOCALHOST, &again, at(0), now).unwrap_err();
    assert_eq!(e.status(), 500);
    let mut other = TestClient::new();
    other.register(&mut server, now);
    assert_eq!(other.ip.as_deref(), Some("100.100.0.3"));
}

#[test]
fn drawn_names_can_be_given() {
    let mut server = AppState::in_memory_with_ttl(10);
    let id = Identity::generate();
    let req = register_request(&id, &[1u8; 32], 100);
    let resp = server
        .register_as(LOCALHOST, &req, "node".to_string(), "tok".to_string(), at(0), 100)
        .unwrap();
    assert_eq!(resp.node_id, "node");
    assert_eq!(resp.auth_token, "tok");
    assert_eq!(resp.auth_token_expires_at, 110);
    let r = server
        .refresh_token_as(
            LOCALHOST,
            Some("Bearer tok"),
            &refresh_request(&id, 105),
            "tok2".to_string(),
            at(0),
            105,
        )
        .unwrap();
    assert_eq!(r.auth_token, "tok2");
    assert_eq!(r.auth_token_expires_at, 115);
    assert!(server.db.get_token("tok").unwrap().revoked);
    assert!(!server.db.get_token("tok2").unwrap().revoked);
    assert!(server.db.get_token("tok3").is_none());
    server.db.create_token("node", "tok4", 105, 100).unwrap();
    let again = server.refresh_token_as(
        LOCALHOST,
        Some("Bearer tok2"),
        &refresh_request(&id, 106),
        "tok5".to_string(),
        at(0),
        106,
    );
    assert!(again.is_ok());
    for old in ["tok", "tok2", "tok4"] {
        assert!(server.db.get_node_by_token(old, 106).is_none());
    }
    assert!(server.db.get_node_by_token("tok5", 106).is_some());
}

#[test]
fn drawn_identifiers_look_like_uuids_and_tokens_like_base64() {
    let mut server = AppState::in_memory(None);
    let id = Identity::generate();
    let resp = server
        .register(LOCALHOST, &register_request(&id, &[1u8; 32], 0), at(0), 0)
        .unwrap();
    assert_eq!(resp.node_id.len(), 36);
    assert_eq!(&resp.node_id[14..15], "4");
    assert_eq!(B64.decode(&resp.auth_token).unwrap().len(), 32);
}

#[test]
fn keys_and_signatures_are_decoded() {
    assert_eq!(decode_pubkey(&B64.encode([7u8; 32])).unwrap(), [7u8; 32]);
    let e = decode_pubkey(&B64.encode([7u8; 31])).unwrap_err();
    assert!(matches!(e, Error::InvalidPubkey));
    assert_eq!(e.status(), 400);
    assert_eq!(decode_signature(&B64.encode([9u8; 64])).unwrap(), [9u8; 64]);
    let e = decode_signature(&B64.encode([9u8; 65])).unwrap_err();
    assert_eq!(e.message(), "invalid request: invalid signature length");
    let e = decode_pubkey("!").unwrap_err();
    assert_eq!(e.status(), 500);
    assert!(matches!(e, Error::Base64(_)));
}

#[test]
fn bearer_headers_are_read() {
    assert_eq!(extract_bearer(Some("Bearer abc")).unwrap(), "abc");
    assert_eq!(extract_bearer(Some("Bearer ")).unwrap(), "");
    assert_eq!(extract_bearer(Some("Bearer  x")).unwrap(), " x");
    assert!(matches!(extract_bearer(Some("bearer abc")), Err(Error::InvalidAuthToken)));
    assert!(matches!(extract_bearer(Some("Bear")), Err(Error::InvalidAuthToken)));
    assert!(matches!(extract_bearer(None), Err(Error::InvalidAuthToken)));
}

#[test]
fn timestamps_have_a_window() {
    assert!(validate_timestamp(1000, 1300).is_ok());
    assert!(validate_timestamp(1600, 1300).is_ok());
    assert!(matches!(validate_timestamp(1000, 1301), Err(Error::InvalidTimestamp(300))));
    assert!(matches!(validate_timestamp(1602, 1301), Err(Error::InvalidTimestamp(300))));
    assert!(validate_timestamp(i64::MIN, i64::MAX).is_err());
    assert_eq!(timestamp_of(Some((7, 9))), Some(7));
    assert_eq!(timestamp_of(Some((1u64 << 63, 9))), None);
    assert_eq!(timestamp_of(None), None);
    assert!(validate_timestamp(i64::MAX, i64::MIN).is_err());
}

#[test]
fn messages_to_sign() {
    let mut expected = b"register".to_vec();
    expected.extend_from_slice(&[0, 0, 0, 0, 0, 0, 1, 2]);
    expected.extend_from_slice(&[3u8; 32]);
    expected.extend_from_slice(&[4u8; 32]);
    assert_eq!(build_register_message(258, &[3u8; 32], &[4u8; 32]), expected);
    assert_eq!(
        build_heartbeat_message(-1, "e", None),
        b"heartbeat\xff\xff\xff\xff\xff\xff\xff\xffe\x01"
    );
    assert_eq!(
        build_heartbeat_message(0, "e", Some("r")),
        b"heartbeat\0\0\0\0\0\0\0\0e\0r"
    );
    assert_eq!(build_refresh_message(1), b"token_refresh\0\0\0\0\0\0\0\x01");
    assert_eq!(build_delete_node_message(1), b"delete_node\0\0\0\0\0\0\0\x01");
}

#[test]
fn signatures_bind_what_they_sign() {
    let id = Identity::generate();
    let sig = id.sign(&build_register_message(5, &id.public(), &[1u8; 32]));
    assert!(verify_register_signature(&id.public(), &[1u8; 32], 5, &sig).is_ok());
    assert!(matches!(
        verify_register_signature(&id.public(), &[2u8; 32], 5, &sig),
        Err(Error::InvalidSignature)
    ));
    let sig = id.sign(&build_heartbeat_message(5, "e", None));
    assert!(verify_heartbeat_signature(&id.public(), "e", None, 5, &sig).is_ok());
    assert!(verify_heartbeat_signature(&id.public(), "e", Some(""), 5, &sig).is_err());
}

#[test]
fn lowest_free_address_is_given() {
    let mut a = IpAllocator::empty();
    a.occupy("100.100.0.2");
    a.occupy("nonsense");
    assert_eq!(a.allocate().unwrap(), [100, 100, 0, 1]);
    assert_eq!(a.allocate().unwrap(), [100, 100, 0, 3]);
    a.release(&[100, 100, 0, 2]);
    assert_eq!(a.allocate().unwrap(), [100, 100, 0, 2]);
    assert_eq!(a.allocate().unwrap(), [100, 100, 0, 4]);
}

#[test]
fn the_pool_runs_out() {
    let mut a = IpAllocator::empty();
    for hi in 0..=255u32 {
        for lo in 0..=255u32 {
            if (hi, lo) != (0, 0) && (hi, lo) != (255, 254) && (hi, lo) != (255, 255) {
                a.occupy(&format!("100.100.{hi}.{lo}"));
            }
        }
    }
    assert_eq!(IP_POOL_HOST_COUNT, 65534);
    assert_eq!(a.allocate().unwrap(), [100, 100, 255, 254]);
    let e = a.allocate().unwrap_err();
    assert!(matches!(e, Error::IpPoolExhausted));
    assert_eq!(e.status(), 503);
}

fn node(id: &str, n: u8) -> NodeRecord {
    NodeRecord {
        node_id: id.to_string(),
        identity_pubkey: vec![n; 32],
        wg_pubkey: vec![n; 32],
        ip: format!("100.100.0.{n}"),
        last_endpoint: None,
        via_relay: None,
        last_seen: None,
        created_at: 10,
    }
}

#[test]
fn the_directory_keeps_nodes_and_tokens() {
    let mut d = Directory::new();
    d.insert_node(&node("a", 1), "ta", 100).unwrap();
    d.insert_node(&node("b", 2), "tb", 100).unwrap();
    assert_eq!(d.get_node_by_token("ta", 109).unwrap().node_id, "a");
    assert!(d.get_node_by_token("ta", 110).is_none());
    assert!(d.get_node_by_token("tc", 0).is_none());
    d.create_token("a", "ta2", 20, 100).unwrap();
    assert_eq!(d.get_node_by_token("ta2", 119).unwrap().node_id, "a");
    assert_eq!(d.revoke_all_tokens_for_node("a"), 2);
    assert_eq!(d.revoke_all_tokens_for_node("a"), 0);
    assert!(d.get_node_by_token("ta2", 20).is_none());
    assert!(d.get_node_by_token("tb", 20).is_some());
    d.update_endpoint("b", "1.1.1.1:1", 33);
    let b = d.get_node_by_token("tb", 20).unwrap();
    assert_eq!(b.last_endpoint.as_deref(), Some("1.1.1.1:1"));
    assert_eq!(b.last_seen, Some(33));
    assert_eq!(d.list_peers(None).len(), 2);
    let others = d.list_peers(Some("a"));
    assert_eq!(others.len(), 1);
    assert_eq!(others[0].node_id, "b");
    assert_eq!(d.delete_node("b").as_deref(), Some("100.100.0.2"));
    assert_eq!(d.delete_node("b"), None);
    assert!(d.get_token("tb").is_none());
    assert!(d.create_token("b", "x", 0, 1).is_err());
    assert!(d.create_token("a", "ta", 0, 1).is_err());
    assert!(d.insert_node(&node("a", 9), "t9", 1).is_err());
    assert_eq!(DEFAULT_TOKEN_TTL_SECS, 2_592_000);
}

#[test]
fn a_stored_directory_comes_back() {
    let tok = TokenRecord {
        token: "t".to_string(),
        node_id: "a".to_string(),
        created_at: 1,
        expires_at: 50,
        revoked: false,
    };
    let d = Directory::restore(vec![node("a", 1)], vec![tok]).unwrap();
    assert_eq!(d.get_node_by_token("t", 49).unwrap().ip, "100.100.0.1");
    let mut state = AppState::open(d, Some("bad"));
    assert_eq!(state.token_ttl_secs, DEFAULT_TOKEN_TTL_SECS);
    assert_eq!(state.ip_alloc.allocate().unwrap(), [100, 100, 0, 2]);
    let orphan = TokenRecord {
        token: "t".to_string(),
        node_id: "z".to_string(),
        created_at: 1,
        expires_at: 50,
        revoked: false,
    };
    assert!(Directory::restore(vec![node("a", 1)], vec![orphan]).is_err());
    assert!(Directory::restore(vec![node("a", 1), node("a", 2)], vec![]).is_err());
}

#[test]
fn old_tokens_get_the_default_lifetime() {
    let mut tok = TokenRecord {
        token: "t".to_string(),
        node_id: "a".to_string(),
        created_at: 100,
        expires_at: 0,
        revoked: false,
    };
    tok.backfill();
    assert_eq!(tok.expires_at, 100 + DEFAULT_TOKEN_TTL_SECS);
    tok.backfill();
    assert_eq!(tok.expires_at, 100 + DEFAULT_TOKEN_TTL_SECS);
    tok.expires_at = 7;
    tok.backfill();
    assert_eq!(tok.expires_at, 7);
}

#[test]
fn token_lifetimes_are_read_from_settings() {
    assert_eq!(token_ttl_from_env(Some("3600")), 3600);
    assert_eq!(token_ttl_from_env(Some("+7")), 7);
    assert_eq!(token_ttl_from_env(Some("")), DEFAULT_TOKEN_TTL_SECS);
    assert_eq!(token_ttl_from_env(Some("1h")), DEFAULT_TOKEN_TTL_SECS);
    assert_eq!(token_ttl_from_env(None), DEFAULT_TOKEN_TTL_SECS);
    assert_eq!(MAX_BODY_BYTES, 4096);
}

#[test]
fn refusals_have_statuses() {
    assert_eq!(Error::NodeNotFound.status(), 404);
    assert_eq!(Error::TokenExpired(3).status(), 401);
    assert_eq!(Error::InvalidTimestamp(3).status(), 400);
    assert_eq!(Error::Database("x".to_string()).status(), 500);
    assert_eq!(Error::NodeNotFound.retry_after(), None);
    assert_eq!(Error::InvalidSignature.message(), "invalid signature");
    assert_eq!(
        Error::InvalidTimestamp(300).message(),
        "invalid timestamp: drift exceeds 300 seconds"
    );
    assert_eq!(Error::TokenExpired(-4).message(), "token expired at -4");
}

#[test]
fn a_stored_node_without_a_proper_key_is_kept_but_cannot_sign() {
    let mut odd = node("a", 1);
    odd.identity_pubkey = vec![1, 2, 3];
    let mut d = Directory::restore(vec![odd], vec![]).unwrap();
    d.create_token("a", "t", 0, 100).unwrap();
    let mut short = node("b", 2);
    short.identity_pubkey = vec![];
    d.insert_node(&short, "tb", 100).unwrap();
    let mut server = AppState::open(d, None);
    assert_eq!(server.peers(LOCALHOST, Some("Bearer t"), at(0), 5).unwrap().peers.len(), 1);
    let e = server
        .heartbeat(LOCALHOST, Some("Bearer t"), &unsigned_heartbeat(5), false, at(0), 5)
        .unwrap_err();
    assert!(matches!(e, Error::InvalidSignature));
}

#[test]
fn a_refused_registration_takes_nothing() {
    let mut server = AppState::in_memory(None);
    let id = Identity::generate();
    let mut bad = register_request(&id, &[1u8; 32], 100);
    bad.signature = B64.encode([0u8; 64]);
    let e = server.register(LOCALHOST, &bad, at(0), 100).unwrap_err();
    assert!(matches!(e, Error::InvalidSignature));
    assert_eq!(server.db.list_peers(None).len(), 0);
    let good = register_request(&id, &[1u8; 32], 100);
    let resp = server.register(LOCALHOST, &good, at(0), 100).unwrap();
    assert_eq!(resp.clone().ip, "100.100.0.1");
}
