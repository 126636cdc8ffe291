use naboscale::crypto::{Initiator, Keypair, Responder, Tai64N, Transport};
use naboscale::net::Endpoint;
use naboscale::time::{Duration, Instant};
use naboscale::tunnel::device::{fill, receive};
use naboscale::tunnel::packet::{send_maybe_relay, wrap_relay, RELAY_HEADER_SIZE};
use naboscale::tunnel::{
    Command, Device, Error, LoopbackDevice, ManagerConfig, ManagerTimings, Outcome, PeerConfig,
    Progress, TunnelManager, Wait,
};
use std::collections::VecDeque;

const PSK: [u8; 32] = [42u8; 32];
const IP_A: [u8; 4] = [100, 100, 0, 1];
const IP_B: [u8; 4] = [100, 100, 0, 2];
const IP_C: [u8; 4] = [100, 100, 0, 3];
const PORT_A: u16 = 4001;
const PORT_B: u16 = 4002;
const PORT_C: u16 = 4003;

struct Network {
    in_flight: Vec<(Endpoint, VecDeque<(Endpoint, Vec<u8>)>)>,
    sent: usize,
    now: u64,
}

impl Network {
    fn new(ports: &[u16]) -> Self {
        let in_flight = ports.iter().map(|p| (local(*p), VecDeque::new())).collect();
        Network { in_flight, sent: 0, now: 1_000_000 }
    }

    fn send(&mut self, from: Endpoint, to: Endpoint, packet: Vec<u8>) {
        self.sent += 1;
        for (e, queue) in self.in_flight.iter_mut() {
            if *e == to {
                queue.push_back((from, packet));
                return;
            }
        }
    }

    fn receive(&mut self, at: Endpoint) -> Option<(Endpoint, Vec<u8>)> {
        for (e, queue) in self.in_flight.iter_mut() {
            if *e == at {
                return queue.pop_front();
            }
        }
        None
    }

    fn pass_millis(&mut self, ms: u64) {
        self.now += ms * 1_000_000;
    }

    fn instant(&self) -> Instant {
        Instant { nanos: self.now }
    }

    fn clock(&self) -> Tai64N {
        Tai64N::from_unix(1_700_000_000 + self.now / 1_000_000_000, 0)
    }
}

struct Node {
    manager: TunnelManager,
    kernel: LoopbackDevice,
    user: LoopbackDevice,
    endpoint: Endpoint,
}

impl Node {
    fn new(
        net: &Network,
        keys: Keypair,
        peers: Vec<PeerConfig>,
        port: u16,
        ip: [u8; 4],
        timings: ManagerTimings,
    ) -> Self {
        let (kernel, user) = LoopbackDevice::new("utun");
        let config = ManagerConfig { local_keypair: keys, local_ip: ip, timings };
        let manager = TunnelManager::new(config, peers, net.instant(), net.clock()).unwrap();
        Node { manager, kernel, user, endpoint: local(port) }
    }

    fn step(&mut self, net: &mut Network) -> Result<(), Error> {
        let mut progress = Progress::Begin;
        let mut outcome = Outcome::Done;
        loop {
            assert!(self.manager.counters_left());
            let (next, command) =
                self.manager.step(progress, outcome, net.instant(), net.clock())?;
            progress = next;
            outcome = match command {
                Command::Proceed => Outcome::Done,
                Command::Receive => Outcome::Received { packet: net.receive(self.endpoint) },
                Command::Send { out } => {
                    net.send(self.endpoint, out.to, out.packet);
                    Outcome::Done
                }
                Command::Deliver { data } => {
                    self.kernel.write(&data)?;
                    Outcome::Done
                }
                Command::ReadDevice => {
                    let mut buf = vec![0u8; 1500];
                    let data = self.kernel.try_read(&mut buf)?.map(|n| buf[..n].to_vec());
                    Outcome::Read { data }
                }
                Command::Finished => return Ok(()),
            };
        }
    }
}

fn run(net: &mut Network, nodes: &mut [&mut Node], millis: u64) {
    for _ in 0..millis {
        for node in nodes.iter_mut() {
            let _ = node.step(net);
        }
        net.pass_millis(1);
    }
}

fn local(port: u16) -> Endpoint {
    Endpoint::V4 { ip: 0x7f00_0001, port }
}

fn make_ip_packet(src: [u8; 4], dst: [u8; 4], payload: &[u8]) -> Vec<u8> {
    let mut pkt = vec![0u8; 20 + payload.len()];
    pkt[0] = 0x45;
    let total_len = pkt.len() as u16;
    pkt[2..4].copy_from_slice(&total_len.to_be_bytes());
    pkt[8] = 64;
    pkt[9] = 16;
    pkt[12..16].copy_from_slice(&src);
    pkt[16..20].copy_from_slice(&dst);
    pkt[20..].copy_from_slice(payload);
    pkt
}

fn make_peer_cfg(
    peer_pub: [u8; 32],
    local_sender_id: u32,
    is_initiator: bool,
    port: u16,
    peer_ip: [u8; 4],
) -> PeerConfig {
    PeerConfig {
        peer_pub,
        psk: PSK,
        local_sender_id,
        is_initiator,
        peer_endpoint: local(port),
        peer_ip,
        via_relay: None,
    }
}

fn relayed_cfg(
    peer_pub: [u8; 32],
    local_sender_id: u32,
    is_initiator: bool,
    port: u16,
    peer_ip: [u8; 4],
    relay: u16,
) -> PeerConfig {
    PeerConfig {
        via_relay: Some(local(relay)),
        ..make_peer_cfg(peer_pub, local_sender_id, is_initiator, port, peer_ip)
    }
}

fn timings(keepalive: u64, rekey_after: u64, reject_after: u64) -> ManagerTimings {
    ManagerTimings {
        keepalive: Duration::from_millis(keepalive),
        rekey_after: Duration::from_millis(rekey_after),
        reject_after: Duration::from_millis(reject_after),
        maintenance_tick: Duration::from_millis(20),
    }
}

fn make_pair(net: &Network, t: ManagerTimings) -> (Node, Node) {
    let alice_kp = Keypair::generate();
    let bob_kp = Keypair::generate();
    let bob_cfgs = vec![make_peer_cfg(*alice_kp.public(), 2, false, PORT_A, IP_A)];
    let alice_cfgs = vec![make_peer_cfg(*bob_kp.public(), 1, true, PORT_B, IP_B)];
    let bob = Node::new(net, bob_kp, bob_cfgs, PORT_B, IP_B, t);
    let alice = Node::new(net, alice_kp, alice_cfgs, PORT_A, IP_A, t);
    (alice, bob)
}

fn send_and_recv(
    net: &mut Network,
    nodes: &mut [&mut Node],
    from: usize,
    to: usize,
    addresses: ([u8; 4], [u8; 4]),
    payload: &str,
) {
    let pkt = make_ip_packet(addresses.0, addresses.1, payload.as_bytes());
    nodes[from].user.send_raw(pkt).expect("send from user");
    for _ in 0..3000 {
        run(net, nodes, 1);
        if let Some(p) = nodes[to].user.try_recv_raw() {
            assert_eq!(&p[20..], payload.as_bytes(), "{payload}: payload mismatch");
            return;
        }
    }
    panic!("{payload}: packet never arrived");
}

#[test]
fn two_nodes_complete_handshake_and_tunnel_a_packet() {
    let mut net = Network::new(&[PORT_A, PORT_B]);
    let (mut alice, mut bob) = make_pair(&net, ManagerTimings::default());
    run(&mut net, &mut [&mut alice, &mut bob], 5);
    assert!(alice.manager.is_ready(), "alice never became ready");
    assert!(bob.manager.is_ready(), "bob never became ready");

    let payload = b"hello over naboscale tunnel";
    let pkt = make_ip_packet(IP_A, IP_B, payload);
    alice.user.send_raw(pkt).expect("send from alice user");
    run(&mut net, &mut [&mut alice, &mut bob], 2);
    let received = bob.user.try_recv_raw().expect("bob never received the tunneled packet");
    assert!(received.len() >= 20);
    assert_eq!(&received[20..], payload);
}

#[test]
fn three_nodes_complete_handshakes_and_tunnel_packets_to_each_pair() {
    let a_kp = Keypair::generate();
    let b_kp = Keypair::generate();
    let c_kp = Keypair::generate();
    let a_pub = *a_kp.public();
    let b_pub = *b_kp.public();
    let c_pub = *c_kp.public();

    let cfgs_a = vec![
        make_peer_cfg(b_pub, 1, true, PORT_B, IP_B),
        make_peer_cfg(c_pub, 2, true, PORT_C, IP_C),
    ];
    let cfgs_b = vec![
        make_peer_cfg(a_pub, 1, false, PORT_A, IP_A),
        make_peer_cfg(c_pub, 2, true, PORT_C, IP_C),
    ];
    let cfgs_c = vec![
        make_peer_cfg(a_pub, 1, false, PORT_A, IP_A),
        make_peer_cfg(b_pub, 2, false, PORT_B, IP_B),
    ];

    let mut net = Network::new(&[PORT_A, PORT_B, PORT_C]);
    let t = ManagerTimings::default();
    let mut a = Node::new(&net, a_kp.clone(), cfgs_a, PORT_A, IP_A, t);
    let mut b = Node::new(&net, b_kp.clone(), cfgs_b, PORT_B, IP_B, t);
    let mut c = Node::new(&net, c_kp.clone(), cfgs_c, PORT_C, IP_C, t);
    let nodes = &mut [&mut a, &mut b, &mut c];
    run(&mut net, nodes, 10);
    for node in nodes.iter() {
        assert!(node.manager.is_ready());
        assert_eq!(node.manager.peer_count(), 2);
        assert_eq!(node.manager.ready_peer_count(), 2);
    }

    send_and_recv(&mut net, nodes, 0, 1, (IP_A, IP_B), "ping from A→B");
    send_and_recv(&mut net, nodes, 0, 2, (IP_A, IP_C), "ping from A→C");
    send_and_recv(&mut net, nodes, 1, 0, (IP_B, IP_A), "ping from B→A");
    send_and_recv(&mut net, nodes, 1, 2, (IP_B, IP_C), "ping from B→C");
    send_and_recv(&mut net, nodes, 2, 0, (IP_C, IP_A), "ping from C→A");
    send_and_recv(&mut net, nodes, 2, 1, (IP_C, IP_B), "ping from C→B");
}

#[test]
fn three_nodes_with_relay_a_b_traffic_goes_via_r() {
    let a_kp = Keypair::generate();
    let b_kp = Keypair::generate();
    let r_kp = Keypair::generate();
    let a_pub = *a_kp.public();
    let b_pub = *b_kp.public();
    let r_pub = *r_kp.public();

    let cfgs_a = vec![
        relayed_cfg(b_pub, 1, a_pub > b_pub, PORT_B, IP_B, PORT_C),
        make_peer_cfg(r_pub, 2, a_pub > r_pub, PORT_C, IP_C),
    ];
    let cfgs_b = vec![
        relayed_cfg(a_pub, 1, b_pub > a_pub, PORT_A, IP_A, PORT_C),
        make_peer_cfg(r_pub, 2, b_pub > r_pub, PORT_C, IP_C),
    ];
    let cfgs_r = vec![
        make_peer_cfg(a_pub, 1, r_pub > a_pub, PORT_A, IP_A),
        make_peer_cfg(b_pub, 2, r_pub > b_pub, PORT_B, IP_B),
    ];

    let mut net = Network::new(&[PORT_A, PORT_B, PORT_C]);
    let t = ManagerTimings::default();
    let mut a = Node::new(&net, a_kp.clone(), cfgs_a, PORT_A, IP_A, t);
    let mut b = Node::new(&net, b_kp.clone(), cfgs_b, PORT_B, IP_B, t);
    let mut r = Node::new(&net, r_kp.clone(), cfgs_r, PORT_C, IP_C, t);
    let nodes = &mut [&mut a, &mut b, &mut r];
    run(&mut net, nodes, 10);
    assert!(nodes[0].manager.is_ready(), "a never became ready");
    assert!(nodes[1].manager.is_ready(), "b never became ready");
    assert!(nodes[2].manager.is_ready(), "r never became ready");

    send_and_recv(&mut net, nodes, 0, 1, (IP_A, IP_B), "via relay A→B-via-R");
    send_and_recv(&mut net, nodes, 1, 0, (IP_B, IP_A), "via relay B→A-via-R");
}

#[test]
fn keepalive_refreshes_last_tx_after_idle() {
    let mut net = Network::new(&[PORT_A, PORT_B]);
    let (mut alice, mut bob) = make_pair(&net, timings(80, 3_600_000, 60_000));
    run(&mut net, &mut [&mut alice, &mut bob], 5);
    assert!(alice.manager.is_ready(), "alice never became ready");

    run(&mut net, &mut [&mut alice, &mut bob], 250);
    let age = alice
        .manager
        .peer_tx_age_secs(0, net.instant())
        .expect("alice should have sent at least one keepalive");
    assert!(
        age.nanos < 200_000_000,
        "alice last_tx should be recent (<200ms), got {}ns",
        age.nanos
    );
    assert!(bob.user.try_recv_raw().is_none());
}

#[test]
fn stale_marks_peer_after_reject_after_of_silence() {
    let mut net = Network::new(&[PORT_A, PORT_B]);
    let (mut alice, mut bob) = make_pair(&net, timings(3_600_000, 3_600_000, 150));
    run(&mut net, &mut [&mut alice, &mut bob], 5);
    assert!(alice.manager.is_ready(), "alice never became ready");
    assert!(!alice.manager.is_peer_stale(0));

    run(&mut net, &mut [&mut alice], 400);
    assert!(
        alice.manager.is_peer_stale(0),
        "alice should have marked bob stale after 400ms of silence"
    );
    assert!(!alice.manager.is_peer_stale(1));
}

#[test]
fn rekey_completes_transparently_and_resets_handshake_age() {
    let mut net = Network::new(&[PORT_A, PORT_B]);
    let (mut alice, mut bob) = make_pair(&net, timings(50, 300, 60_000));
    let nodes = &mut [&mut alice, &mut bob];
    run(&mut net, nodes, 5);
    assert!(nodes[0].manager.is_ready());
    assert!(nodes[1].manager.is_ready());

    run(&mut net, nodes, 1500);
    for node in nodes.iter() {
        let age = node.manager.peer_handshake_age_secs(0, net.instant()).unwrap();
        assert!(age.nanos < 400_000_000);
    }
    send_and_recv(&mut net, nodes, 0, 1, (IP_A, IP_B), "after-rekey A→B #0");
    send_and_recv(&mut net, nodes, 1, 0, (IP_B, IP_A), "after-rekey B→A #0");
}

#[test]
fn lost_inits_are_sent_again() {
    let mut net = Network::new(&[PORT_A, PORT_B]);
    let (mut alice, mut bob) = make_pair(&net, ManagerTimings::default());
    run(&mut net, &mut [&mut alice], 1);
    let first = net.receive(local(PORT_B)).unwrap();
    assert_eq!(first.1.len(), 148);
    run(&mut net, &mut [&mut alice], 1999);
    assert!(net.receive(local(PORT_B)).is_none());
    run(&mut net, &mut [&mut alice], 1);
    let second = net.receive(local(PORT_B)).unwrap();
    assert_eq!(first.1, second.1);
    net.send(local(PORT_A), local(PORT_B), second.1);
    run(&mut net, &mut [&mut bob, &mut alice], 3);
    assert!(alice.manager.is_ready());
    assert!(bob.manager.is_ready());
}

#[test]
fn stale_peers_are_not_listened_to() {
    let mut net = Network::new(&[PORT_A, PORT_B]);
    let (mut alice, mut bob) = make_pair(&net, timings(3_600_000, 3_600_000, 150));
    run(&mut net, &mut [&mut alice, &mut bob], 5);
    run(&mut net, &mut [&mut alice], 400);
    assert!(alice.manager.is_peer_stale(0));
    bob.user.send_raw(make_ip_packet(IP_B, IP_A, b"late")).unwrap();
    run(&mut net, &mut [&mut bob, &mut alice], 50);
    assert!(alice.user.try_recv_raw().is_none());
    assert!(alice.manager.is_peer_stale(0));
}

#[test]
fn packets_for_others_are_dropped() {
    let mut net = Network::new(&[PORT_A, PORT_B]);
    let (mut alice, mut bob) = make_pair(&net, timings(3_600_000, 3_600_000, 60_000));
    run(&mut net, &mut [&mut alice, &mut bob], 50);
    let before = net.sent;
    alice.user.send_raw(make_ip_packet(IP_A, [9, 9, 9, 9], b"x")).unwrap();
    alice.user.send_raw(vec![]).unwrap();
    alice.user.send_raw(vec![0x60; 40]).unwrap();
    run(&mut net, &mut [&mut alice, &mut bob], 10);
    assert_eq!(net.sent, before);
    let stranger = local(9999);
    net.send(stranger, local(PORT_A), vec![4u8; 64]);
    net.send(stranger, local(PORT_A), vec![]);
    net.send(stranger, local(PORT_A), vec![5u8; 64]);
    net.send(local(PORT_B), local(PORT_A), vec![0x77; 64]);
    assert!(alice.step(&mut net).is_ok());
    assert_eq!(alice.manager.peer_tx_age_secs(7, net.instant()).is_none(), true);
}

#[test]
fn malformed_packets_are_reported() {
    let mut net = Network::new(&[PORT_A, PORT_B]);
    let (mut alice, mut bob) = make_pair(&net, ManagerTimings::default());
    run(&mut net, &mut [&mut alice, &mut bob], 5);
    for (kind, words) in [
        (1u8, "invalid config: init message too short"),
        (2, "invalid config: response message too short"),
        (4, "invalid config: transport packet too short"),
    ] {
        net.send(local(PORT_B), local(PORT_A), vec![kind; 10]);
        let e = alice.step(&mut net).unwrap_err();
        assert_eq!(e.message(), words);
    }
}

#[test]
fn relays_refuse_unknown_destinations() {
    let mut net = Network::new(&[PORT_A, PORT_B]);
    let (mut alice, _bob) = make_pair(&net, ManagerTimings::default());
    let keys = Keypair::generate();
    let cfg = make_peer_cfg(*keys.public(), 3, false, PORT_C, IP_C);
    assert!(alice.manager.add_peer(cfg, net.instant(), net.clock()).unwrap());
    let again = make_peer_cfg(*keys.public(), 4, true, PORT_C, IP_C);
    assert!(!alice.manager.add_peer(again, net.instant(), net.clock()).unwrap());
    assert_eq!(alice.manager.peer_count(), 2);
    net.send(local(PORT_C), local(PORT_A), wrap_relay(keys.public(), &[7, 7, 7, 7], b"z"));
    assert_eq!(
        alice.step(&mut net).unwrap_err().message(),
        "invalid config: relay dest 7.7.7.7 not a known peer"
    );
    net.send(local(PORT_C), local(PORT_A), wrap_relay(keys.public(), &IP_A, b"z"));
    assert_eq!(
        alice.step(&mut net).unwrap_err().message(),
        "invalid config: relay inner is not a recognized message type"
    );
    let sent = net.sent;
    net.send(local(PORT_C), local(PORT_A), wrap_relay(&[1u8; 32], &[7, 7, 7, 7], b"z"));
    alice.step(&mut net).unwrap();
    assert_eq!(net.sent, sent + 2);
}

#[test]
fn relays_prefer_the_address_they_learned() {
    let mut net = Network::new(&[PORT_A, PORT_B, PORT_C, 5000]);
    let (mut alice, _bob) = make_pair(&net, ManagerTimings::default());
    let b = Keypair::generate();
    let c = Keypair::generate();
    for (keys, id, port, ip) in [(&b, 3, 6000, [9, 9, 9, 1]), (&c, 4, PORT_C, IP_C)] {
        let cfg = make_peer_cfg(*keys.public(), id, false, port, ip);
        assert!(alice.manager.add_peer(cfg, net.instant(), net.clock()).unwrap());
    }
    net.send(local(5000), local(PORT_A), wrap_relay(b.public(), &IP_C, b"there"));
    alice.step(&mut net).unwrap();
    let (_, there) = net.receive(local(PORT_C)).unwrap();
    assert_eq!(there, wrap_relay(b.public(), &IP_C, b"there"));
    net.send(local(PORT_C), local(PORT_A), wrap_relay(c.public(), &[9, 9, 9, 1], b"back"));
    alice.step(&mut net).unwrap();
    let (_, back) = net.receive(local(5000)).unwrap();
    assert_eq!(back, wrap_relay(c.public(), &[9, 9, 9, 1], b"back"));
}

#[test]
fn lost_rekeys_are_tried_again() {
    let mut net = Network::new(&[PORT_A, PORT_B]);
    let (mut alice, mut bob) = make_pair(&net, timings(3_600_000, 300, 3_600_000));
    run(&mut net, &mut [&mut alice, &mut bob], 25);
    while net.receive(local(PORT_B)).is_some() {}
    run(&mut net, &mut [&mut alice], 300);
    let (_, first) = net.receive(local(PORT_B)).unwrap();
    assert_eq!(first[0], 1);
    run(&mut net, &mut [&mut alice], 1990);
    assert!(net.receive(local(PORT_B)).is_none());
    run(&mut net, &mut [&mut alice], 30);
    let (_, second) = net.receive(local(PORT_B)).unwrap();
    assert_eq!(first, second);
    net.send(local(PORT_A), local(PORT_B), second);
    run(&mut net, &mut [&mut bob, &mut alice], 3);
    let age = alice.manager.peer_handshake_age_secs(0, net.instant()).unwrap();
    assert!(age.nanos <= 3_000_000);
}

fn session() -> (Transport, Transport) {
    let a = Keypair::generate();
    let b = Keypair::generate();
    let now = Tai64N::from_unix(1_700_000_000, 0);
    let mut ai = Initiator::new(&a, b.public(), PSK, 1, now).unwrap();
    let mut br = Responder::new(&b, PSK, 2, now).unwrap();
    let response = br.consume_init(&ai.write_init().unwrap()).unwrap();
    (ai.consume_response(&response).unwrap(), br.into_transport().unwrap())
}

#[test]
fn relay_frames_carry_their_packet() {
    let (mut t, mut u) = session();
    let mut frame = [0u8; 64];
    let n = t.encrypt(b"hi", 2, &mut frame).unwrap();
    let wrapped = wrap_relay(&[8u8; 32], &IP_B, &frame[..n]);
    assert_eq!(RELAY_HEADER_SIZE, 37);
    assert_eq!(wrapped[0], 5);
    assert_eq!(&wrapped[1..33], &[8u8; 32]);
    assert_eq!(&wrapped[33..37], &IP_B);
    let mut out = [0u8; 64];
    assert_eq!(u.decrypt(&wrapped[37..], &mut out).unwrap(), 2);
    assert_eq!(&out[..2], b"hi");
    let direct = send_maybe_relay(local(1), None, &IP_B, &[8u8; 32], b"in");
    assert_eq!(direct.to, local(1));
    assert_eq!(direct.packet, b"in");
    let relayed = send_maybe_relay(local(1), Some(local(2)), &IP_B, &[8u8; 32], b"in");
    assert_eq!(relayed.to, local(2));
    assert_eq!(relayed.packet, wrap_relay(&[8u8; 32], &IP_B, b"in"));
}

#[test]
fn loopback_devices_are_connected() {
    let (kernel, user) = LoopbackDevice::new("lo");
    assert_eq!(kernel.name(), "lo");
    assert_eq!(user.name(), "lo-user");
    user.send_raw(vec![1, 2, 3]).unwrap();
    user.send_raw(vec![4; 10]).unwrap();
    let mut buf = [9u8; 4];
    assert_eq!(kernel.try_read(&mut buf).unwrap(), Some(3));
    assert_eq!(buf, [1, 2, 3, 9]);
    assert!(matches!(
        kernel.try_read(&mut buf),
        Err(Error::BufferTooSmall { needed: 10, actual: 4 })
    ));
    assert_eq!(kernel.try_read(&mut buf).unwrap(), None);
    assert_eq!(kernel.write(&[7, 7]).unwrap(), 2);
    assert_eq!(user.try_recv_raw().unwrap(), vec![7, 7]);
    assert!(user.try_recv_raw().is_none());
    drop(kernel);
    assert!(matches!(user.send_raw(vec![1]), Err(Error::NotReady)));
    assert_eq!(fill(&[1], &mut buf).unwrap(), 1);
    let mut room = [9u8; 3];
    assert_eq!(receive(None, &mut room).unwrap(), None);
    assert_eq!(room, [9, 9, 9]);
    assert_eq!(receive(Some(vec![]), &mut room).unwrap(), Some(0));
    assert_eq!(receive(Some(vec![5, 6]), &mut room).unwrap(), Some(2));
    assert_eq!(room, [5, 6, 9]);
    assert!(matches!(
        receive(Some(vec![1; 4]), &mut room),
        Err(Error::BufferTooSmall { needed: 4, actual: 3 })
    ));
    assert_eq!(room, [5, 6, 9]);
    assert_eq!(
        Error::BufferTooSmall { needed: 2, actual: 1 }.message(),
        "buffer too small: need 2 bytes, have 1"
    );
}

#[test]
fn default_timings() {
    let t = ManagerTimings::default();
    assert_eq!(t.keepalive.nanos, 10_000_000_000);
    assert_eq!(t.rekey_after.nanos, 120_000_000_000);
    assert_eq!(t.reject_after.nanos, 180_000_000_000);
    assert_eq!(t.maintenance_tick.nanos, 500_000_000);
}

#[test]
fn nodes_that_only_a_relay_can_reach_get_a_session() {
    let a_kp = Keypair::generate();
    let b_kp = Keypair::generate();
    let r_kp = Keypair::generate();
    let nowhere = 1;
    let cfgs_a = vec![
        relayed_cfg(*b_kp.public(), 1, true, nowhere, IP_B, PORT_C),
        make_peer_cfg(*r_kp.public(), 2, true, PORT_C, IP_C),
    ];
    let cfgs_b = vec![
        relayed_cfg(*a_kp.public(), 1, false, nowhere, IP_A, PORT_C),
        make_peer_cfg(*r_kp.public(), 2, false, PORT_C, IP_C),
    ];
    let cfgs_r = vec![
        make_peer_cfg(*a_kp.public(), 1, false, nowhere, IP_A),
        make_peer_cfg(*b_kp.public(), 2, true, PORT_B, IP_B),
    ];
    let mut net = Network::new(&[PORT_A, PORT_B, PORT_C]);
    let t = ManagerTimings::default();
    let mut a = Node::new(&net, a_kp, cfgs_a, PORT_A, IP_A, t);
    let mut b = Node::new(&net, b_kp, cfgs_b, PORT_B, IP_B, t);
    let mut r = Node::new(&net, r_kp, cfgs_r, PORT_C, IP_C, t);
    let nodes = &mut [&mut a, &mut b, &mut r];
    run(&mut net, nodes, 10);
    assert_eq!(nodes[0].manager.ready_peer_count(), 1);
    assert_eq!(nodes[1].manager.ready_peer_count(), 2);
    send_and_recv(&mut net, nodes, 0, 1, (IP_A, IP_B), "through the relay");
    send_and_recv(&mut net, nodes, 1, 0, (IP_B, IP_A), "and back");
}

#[test]
fn a_stray_response_is_dropped() {
    let mut net = Network::new(&[PORT_A, PORT_B]);
    let (mut alice, mut bob) = make_pair(&net, ManagerTimings::default());
    let nodes = &mut [&mut alice, &mut bob];
    run(&mut net, nodes, 5);
    net.send(local(PORT_B), local(PORT_A), vec![2u8; 92]);
    net.send(local(PORT_A), local(PORT_B), vec![2u8; 92]);
    assert!(nodes[0].step(&mut net).is_ok());
    assert!(nodes[1].step(&mut net).is_ok());
    assert_eq!(nodes[0].manager.ready_peer_count(), 1);
    assert_eq!(nodes[1].manager.ready_peer_count(), 1);
    send_and_recv(&mut net, nodes, 0, 1, (IP_A, IP_B), "still here");
    send_and_recv(&mut net, nodes, 1, 0, (IP_B, IP_A), "here too");
}

#[test]
fn stale_peers_are_not_listened_to_through_a_relay() {
    let mut net = Network::new(&[PORT_A, PORT_B]);
    let a_kp = Keypair::generate();
    let b_kp = Keypair::generate();
    let t = timings(3_600_000, 3_600_000, 150);
    let a_cfgs = vec![make_peer_cfg(*b_kp.public(), 1, true, PORT_B, IP_B)];
    let b_cfgs = vec![make_peer_cfg(*a_kp.public(), 2, false, PORT_A, IP_A)];
    let b_pub = *b_kp.public();
    let mut alice = Node::new(&net, a_kp, a_cfgs, PORT_A, IP_A, t);
    let mut bob = Node::new(&net, b_kp, b_cfgs, PORT_B, IP_B, t);
    run(&mut net, &mut [&mut alice, &mut bob], 5);
    bob.user.send_raw(make_ip_packet(IP_B, IP_A, b"one")).unwrap();
    run(&mut net, &mut [&mut bob], 1);
    let (_, frame) = net.receive(local(PORT_A)).unwrap();
    bob.user.send_raw(make_ip_packet(IP_B, IP_A, b"two")).unwrap();
    run(&mut net, &mut [&mut bob], 1);
    let (_, late) = net.receive(local(PORT_A)).unwrap();
    net.send(local(PORT_B), local(PORT_A), wrap_relay(&b_pub, &IP_A, &frame));
    run(&mut net, &mut [&mut alice], 1);
    assert_eq!(&alice.user.try_recv_raw().unwrap()[20..], b"one");
    run(&mut net, &mut [&mut alice], 400);
    assert!(alice.manager.is_peer_stale(0));
    net.send(local(PORT_B), local(PORT_A), wrap_relay(&b_pub, &IP_A, &late));
    assert!(alice.step(&mut net).is_ok());
    assert!(alice.user.try_recv_raw().is_none());
}

#[test]
fn a_silent_peer_becomes_stale_while_a_rekey_is_unanswered() {
    let mut net = Network::new(&[PORT_A, PORT_B]);
    let (mut alice, mut bob) = make_pair(&net, timings(50, 300, 800));
    run(&mut net, &mut [&mut alice, &mut bob], 5);
    run(&mut net, &mut [&mut alice], 500);
    assert!(!alice.manager.is_peer_stale(0));
    run(&mut net, &mut [&mut alice], 400);
    assert!(alice.manager.is_peer_stale(0));
    run(&mut net, &mut [&mut bob, &mut alice], 5);
    assert!(!alice.manager.is_peer_stale(0), "the answer to the rekey ends it");
    send_and_recv(&mut net, &mut [&mut alice, &mut bob], 0, 1, (IP_A, IP_B), "back");
}

#[test]
fn a_rekey_ends_staleness_at_the_side_that_answers() {
    let mut net = Network::new(&[PORT_A, PORT_B]);
    let (mut alice, mut bob) = make_pair(&net, timings(3_600_000, 300, 200));
    run(&mut net, &mut [&mut alice, &mut bob], 5);
    run(&mut net, &mut [&mut bob], 310);
    assert!(bob.manager.is_peer_stale(0));
    net.send(local(PORT_B), local(PORT_A), vec![0x77; 40]);
    run(&mut net, &mut [&mut alice], 30);
    run(&mut net, &mut [&mut bob, &mut alice], 5);
    assert!(!bob.manager.is_peer_stale(0));
}

#[test]
fn handshake_packets_count_as_sent() {
    let mut net = Network::new(&[PORT_A, PORT_B]);
    let (mut alice, mut bob) = make_pair(&net, timings(3_600_000, 300, 3_600_000));
    assert!(alice.manager.peer_tx_age_secs(0, net.instant()).is_none());
    alice.step(&mut net).unwrap();
    assert_eq!(alice.manager.peer_tx_age_secs(0, net.instant()).unwrap().nanos, 0);
    bob.step(&mut net).unwrap();
    assert_eq!(bob.manager.peer_tx_age_secs(0, net.instant()).unwrap().nanos, 0);
    alice.step(&mut net).unwrap();
    net.pass_millis(299);
    alice.step(&mut net).unwrap();
    assert_eq!(alice.manager.peer_tx_age_secs(0, net.instant()).unwrap().nanos, 299_000_000);
    net.pass_millis(30);
    alice.step(&mut net).unwrap();
    assert_eq!(alice.manager.peer_tx_age_secs(0, net.instant()).unwrap().nanos, 0);
    bob.step(&mut net).unwrap();
    assert_eq!(bob.manager.peer_tx_age_secs(0, net.instant()).unwrap().nanos, 0);
}

#[test]
fn waiting_for_all_peers_comes_to_an_end() {
    let mut net = Network::new(&[PORT_A, PORT_B]);
    let (mut alice, mut bob) = make_pair(&net, ManagerTimings::default());
    assert_eq!(alice.manager.wait(3), Wait::Step { left: 2 });
    assert_eq!(alice.manager.wait(0), Wait::TimedOut);
    run(&mut net, &mut [&mut alice, &mut bob], 5);
    assert_eq!(alice.manager.wait(3), Wait::Ready);
    assert_eq!(alice.manager.wait(0), Wait::TimedOut);
}

#[test]
fn the_side_that_waits_sends_no_init() {
    let mut net = Network::new(&[PORT_A, PORT_B]);
    let (mut alice, mut bob) = make_pair(&net, timings(3_600_000, 300, 3_600_000));
    run(&mut net, &mut [&mut bob], 5_000);
    assert_eq!(net.sent, 0);
    run(&mut net, &mut [&mut alice, &mut bob], 5);
    while net.receive(local(PORT_A)).is_some() {}
    let before = net.sent;
    run(&mut net, &mut [&mut bob], 1_000);
    assert_eq!(net.sent, before);
}

#[test]
fn a_response_to_a_node_that_waits_ends_the_wait() {
    let mut net = Network::new(&[PORT_A, PORT_B]);
    let (mut alice, mut bob) = make_pair(&net, ManagerTimings::default());
    net.send(local(PORT_A), local(PORT_B), vec![2u8; 92]);
    assert!(bob.step(&mut net).is_ok());
    run(&mut net, &mut [&mut alice, &mut bob], 10);
    assert_eq!(bob.manager.ready_peer_count(), 0);
    assert_eq!(alice.manager.ready_peer_count(), 0);
}

#[test]
fn a_refused_init_does_no_harm() {
    let mut net = Network::new(&[PORT_A, PORT_B]);
    let (mut alice, mut bob) = make_pair(&net, timings(3_600_000, 300, 3_600_000));
    net.send(local(PORT_A), local(PORT_B), vec![1u8; 148]);
    assert!(bob.step(&mut net).is_ok());
    assert_eq!(net.sent, 1);
    run(&mut net, &mut [&mut alice, &mut bob], 5);
    assert!(bob.manager.is_ready());
    net.send(local(PORT_A), local(PORT_B), vec![1u8; 148]);
    assert!(bob.step(&mut net).is_ok());
    let nodes = &mut [&mut alice, &mut bob];
    send_and_recv(&mut net, nodes, 0, 1, (IP_A, IP_B), "same session");
    run(&mut net, nodes, 400);
    let age = nodes[1].manager.peer_handshake_age_secs(0, net.instant()).unwrap();
    assert!(age.nanos < 300_000_000);
}
