//! What holds of two nodes, and of a relay between them, taken together.

use crate::bytes;
use crate::crypto::handshake;
use crate::crypto::timestamp::Tai64N;
use crate::crypto::transport::{Transport, MESSAGE_TYPE_TRANSPORT};
use crate::net::Endpoint;
use crate::time::Instant;
use crate::tunnel::error::Error;
use crate::tunnel::manager;
use crate::tunnel::manager::{Followup, Reaction, Then, TunnelManager, DEVICE_MTU};
use crate::tunnel::packet;
use crate::tunnel::packet::Outgoing;
use crate::tunnel::session;
use crate::tunnel::session::{Action, PeerSession, PeerState};
use vstd::prelude::*;

verus! {

/// Whether node `a` knows node `b` as its peer `i`, and `b` knows `a` as its peer
/// `j`: by public key, with the same pre-shared key.
pub open spec fn acquainted(a: TunnelManager, i: int, b: TunnelManager, j: int) -> bool {
    &&& a.wf() && b.wf()
    &&& a.keys().matched() && b.keys().matched()
    &&& 0 <= i < a.peers().len()
    &&& 0 <= j < b.peers().len()
    &&& a.peers()[i].config.peer_pub@ == b.keys().public_key()
    &&& b.peers()[j].config.peer_pub@ == a.keys().public_key()
    &&& a.peers()[i].config.psk@ == b.peers()[j].config.psk@
}

/// Whether the session of `a` with its peer `i` leads to that of `b` with its peer
/// `j`: what `a` sends next is what `b` expects.
pub open spec fn leads(a: TunnelManager, i: int, b: TunnelManager, j: int) -> bool {
    &&& 0 <= i < a.peers().len() && a.peers()[i].ready()
    &&& 0 <= j < b.peers().len() && b.peers()[j].ready()
    &&& a.peers()[i].state->transport.in_step_with(b.peers()[j].state->transport)
}

/// Whether a source is known to be that of peer `j`.
pub open spec fn comes_from(m: TunnelManager, source: Endpoint, j: int) -> bool {
    m.endpoints().contains_key(source) && m.endpoints()[source] == j
}

/// Whether a packet of the node `from` counts for peer `j` when it comes in a relay
/// envelope, and is addressed to this node by `ip`.
pub open spec fn relayed_from(m: TunnelManager, from: Seq<u8>, ip: Seq<u8>, j: int) -> bool {
    &&& 0 <= j < m.peers().len()
    &&& m.peers()[j].config.peer_pub@ == from
    &&& m.pubkeys()[m.peers()[j].config.peer_pub] == j
    &&& m.config().local_ip@ == ip
}

/// A packet of the device at one node comes out of the device at the other, and
/// the session stays in step.
pub proof fn law_packet_is_delivered(
    a: TunnelManager,
    i: usize,
    pkt: Seq<u8>,
    a2: TunnelManager,
    out: Outgoing,
    b: TunnelManager,
    j: int,
    source: Endpoint,
    now: Instant,
    clock: Tai64N,
    b2: TunnelManager,
    r: Result<Reaction, Error>,
)
    requires
        b.wf(),
        leads(a, i as int, b, j),
        a.peers()[i as int].config.via_relay is None,
        !b.peers()[j].stale,
        comes_from(b, source, j),
        pkt.len() <= DEVICE_MTU,
        a.tun_packet_handled(pkt, a2, Ok(Some((i, out)))),
        b.incoming_handled(source, out.packet@, now, clock, b2, r),
    ensures
        r matches Ok(Reaction::Deliver { data }) && data@ == pkt,
        leads(a2, i as int, b2, j),
{
    let t = a.peers()[i as int].state->transport;
    let frame = t.next_frame(a.peers()[i as int].state->peer_sender_id, pkt);
    assert(frame[0] == MESSAGE_TYPE_TRANSPORT);
    let mid = choose|mid: TunnelManager|
        mid.peer_becomes(
            b,
            j,
            PeerSession { last_rx_at: Some(now), ..b.peers()[j] },
        ) && #[trigger] mid.direct_handled(j, source, frame, now, clock, b2, r);
    let v = mid.peers()[j].state->transport;
    assert(t.in_step_with(v));
    assert(v.refusal(frame, DEVICE_MTU as nat) is None);
}

/// A keepalive is taken in without a word, and the session stays in step.
pub proof fn law_keepalive_is_silent(
    a: TunnelManager,
    i: int,
    a2: TunnelManager,
    out: Outgoing,
    b: TunnelManager,
    j: int,
    source: Endpoint,
    now: Instant,
    clock: Tai64N,
    b2: TunnelManager,
    r: Result<Reaction, Error>,
)
    requires
        b.wf(),
        leads(a, i, b, j),
        a.peers()[i].config.via_relay is None,
        !b.peers()[j].stale,
        comes_from(b, source, j),
        a.performed(i, Action::SendKeepalive, a2, Some((out, Followup::KeepaliveSent))),
        b.incoming_handled(source, out.packet@, now, clock, b2, r),
    ensures
        r matches Ok(Reaction::Nothing),
        leads(a2, i, b2, j),
        b2.peers()[j].last_rx_at == Some(now),
{
    let t = a.peers()[i].state->transport;
    let frame = t.next_frame(a.peers()[i].state->peer_sender_id, Seq::empty());
    assert(frame[0] == MESSAGE_TYPE_TRANSPORT);
    let mid = choose|mid: TunnelManager|
        mid.peer_becomes(
            b,
            j,
            PeerSession { last_rx_at: Some(now), ..b.peers()[j] },
        ) && #[trigger] mid.direct_handled(j, source, frame, now, clock, b2, r);
    let v = mid.peers()[j].state->transport;
    assert(t.in_step_with(v));
    assert(v.refusal(frame, DEVICE_MTU as nat) is None);
}

/// The first peer with a mesh address is the one that is found by it.
pub proof fn lemma_peer_with_ip(m: TunnelManager, k: int, ip: Seq<u8>)
    requires
        m.first_with_ip(k, ip),
    ensures
        m.peer_with_ip(ip) == Some(k),
{
    let c = choose|c: int| m.first_with_ip(c, ip);
    assert(m.first_with_ip(c, ip));
    if c < k {
        assert(m.peers()[c].config.peer_ip@ != ip);
    } else if k < c {
        assert(m.peers()[k].config.peer_ip@ != ip);
    }
}

/// Where a relay sends what is for its peer `k`: to the address that it has learned
/// for the peer, or else to the one that it was told.
pub open spec fn forwards_to(m: TunnelManager, k: int) -> Endpoint {
    let c = m.peers()[k].config;
    if m.learned().contains_key(c.peer_pub) {
        m.learned()[c.peer_pub]
    } else {
        c.peer_endpoint
    }
}

/// A relay passes an envelope on as it came, and learns where the sender can be
/// reached if it did not know.
pub proof fn law_relay_forwards(
    m: TunnelManager,
    from: [u8; 32],
    dest: Seq<u8>,
    inner: Seq<u8>,
    k: int,
    source: Endpoint,
    now: Instant,
    clock: Tai64N,
    m2: TunnelManager,
    r: Result<Reaction, Error>,
)
    requires
        m.wf(),
        m.pubkeys().contains_key(from),
        dest.len() == 4,
        dest != m.config().local_ip@,
        m.first_with_ip(k, dest),
        m.incoming_handled(source, packet::relayed(from@, dest, inner), now, clock, m2, r),
    ensures
        r matches Ok(Reaction::Send { out, then_do: Then::Nothing }) && out.packet@
            == packet::relayed(from@, dest, inner) && out.to == forwards_to(m2, k),
        !m.endpoints().contains_key(source) ==> m2.learned().contains_key(from)
            && m2.learned()[from] == source,
{
    let pkt = packet::relayed(from@, dest, inner);
    packet::law_relay_round_trip(from@, dest, inner);
    manager::lemma_key_of(from);
    let i = m.pubkeys()[from] as int;
    let mid = choose|mid: TunnelManager|
        m.heard_by_relay(i, from, source, now, mid) && #[trigger] mid.relay_handled(
            source,
            pkt,
            now,
            clock,
            m2,
            r,
        );
    assert(mid.first_with_ip(k, dest)) by {
        assert forall|j: int| 0 <= j < k implies (#[trigger] mid.peers()[j]).config.peer_ip@
            != dest by {
            assert(m.peers()[j].config.peer_ip@ != dest);
        }
    }
    lemma_peer_with_ip(mid, k, dest);
}

/// An envelope of a known node from a source that is no peer's teaches where that
/// node can be reached, whomever the envelope is for.
pub proof fn law_envelope_teaches(
    m: TunnelManager,
    from: [u8; 32],
    dest: Seq<u8>,
    inner: Seq<u8>,
    source: Endpoint,
    now: Instant,
    clock: Tai64N,
    m2: TunnelManager,
    r: Result<Reaction, Error>,
)
    requires
        m.wf(),
        m.pubkeys().contains_key(from),
        !m.endpoints().contains_key(source),
        dest.len() == 4,
        m.incoming_handled(source, packet::relayed(from@, dest, inner), now, clock, m2, r),
    ensures
        m2.learned() == m.learned().insert(from, source),
{
    let pkt = packet::relayed(from@, dest, inner);
    packet::law_relay_round_trip(from@, dest, inner);
    manager::lemma_key_of(from);
    let i = m.pubkeys()[from] as int;
    let mid = choose|mid: TunnelManager|
        m.heard_by_relay(i, from, source, now, mid) && #[trigger] mid.relay_handled(
            source,
            pkt,
            now,
            clock,
            m2,
            r,
        );
    assert(m2.learned() == mid.learned());
}

/// Once a node that a relay did not know the address of has sent it an envelope,
/// the relay sends what is for that node where the envelope came from.
pub proof fn law_relay_reaches_back(
    m: TunnelManager,
    node: [u8; 32],
    dest: Seq<u8>,
    inner: Seq<u8>,
    source: Endpoint,
    now: Instant,
    clock: Tai64N,
    m2: TunnelManager,
    r: Result<Reaction, Error>,
    peer: [u8; 32],
    node_ip: Seq<u8>,
    answer: Seq<u8>,
    k: int,
    peer_source: Endpoint,
    later: Instant,
    later_clock: Tai64N,
    m3: TunnelManager,
    r3: Result<Reaction, Error>,
)
    requires
        m.wf() && m2.wf(),
        m.pubkeys().contains_key(node),
        !m.endpoints().contains_key(source),
        dest.len() == 4,
        m.incoming_handled(source, packet::relayed(node@, dest, inner), now, clock, m2, r),
        peer != node,
        m2.pubkeys().contains_key(peer),
        node_ip.len() == 4 && node_ip != m2.config().local_ip@,
        m2.first_with_ip(k, node_ip),
        m2.peers()[k].config.peer_pub == node,
        m2.incoming_handled(
            peer_source,
            packet::relayed(peer@, node_ip, answer),
            later,
            later_clock,
            m3,
            r3,
        ),
    ensures
        r3 matches Ok(Reaction::Send { out, then_do: Then::Nothing }) && out.packet@
            == packet::relayed(peer@, node_ip, answer) && out.to == source,
{
    law_envelope_teaches(m, node, dest, inner, source, now, clock, m2, r);
    law_relay_forwards(
        m2,
        peer,
        node_ip,
        answer,
        k,
        peer_source,
        later,
        later_clock,
        m3,
        r3,
    );
    packet::law_relay_round_trip(peer@, node_ip, answer);
    manager::lemma_key_of(peer);
    let pkt = packet::relayed(peer@, node_ip, answer);
    let i = m2.pubkeys()[peer] as int;
    let mid = choose|mid: TunnelManager|
        m2.heard_by_relay(i, peer, peer_source, later, mid) && #[trigger] mid.relay_handled(
            peer_source,
            pkt,
            later,
            later_clock,
            m3,
            r3,
        );
    assert(m3.peers()[k].config == m2.peers()[k].config);
}

/// A packet of the device at one node that goes through a relay comes out of the
/// device at the other, and the session stays in step.
pub proof fn law_relayed_packet_is_delivered(
    a: TunnelManager,
    i: usize,
    pkt: Seq<u8>,
    a2: TunnelManager,
    out: Outgoing,
    b: TunnelManager,
    j: int,
    source: Endpoint,
    now: Instant,
    clock: Tai64N,
    b2: TunnelManager,
    r: Result<Reaction, Error>,
)
    requires
        b.wf(),
        leads(a, i as int, b, j),
        a.peers()[i as int].config.via_relay is Some,
        !b.peers()[j].stale,
        relayed_from(b, a.keys().public_key(), a.peers()[i as int].config.peer_ip@, j),
        pkt.len() <= DEVICE_MTU,
        a.tun_packet_handled(pkt, a2, Ok(Some((i, out)))),
        b.incoming_handled(source, out.packet@, now, clock, b2, r),
    ensures
        r matches Ok(Reaction::Deliver { data }) && data@ == pkt,
        leads(a2, i as int, b2, j),
{
    let peer = a.peers()[i as int];
    let t = peer.state->transport;
    let frame = t.next_frame(peer.state->peer_sender_id, pkt);
    let from = b.peers()[j].config.peer_pub;
    assert(frame[0] == MESSAGE_TYPE_TRANSPORT);
    packet::law_relay_round_trip(from@, peer.config.peer_ip@, frame);
    manager::lemma_key_of(from);
    let wire = packet::relayed(from@, peer.config.peer_ip@, frame);
    let mid = choose|mid: TunnelManager|
        b.heard_by_relay(j, from, source, now, mid) && #[trigger] mid.relay_handled(
            source,
            wire,
            now,
            clock,
            b2,
            r,
        );
    let v = mid.peers()[j].state->transport;
    assert(t.in_step_with(v));
    assert(v.refusal(frame, DEVICE_MTU as nat) is None);
}

/// Whether a node waits for the first INIT of its peer `j`.
pub open spec fn waits(m: TunnelManager, j: int) -> bool {
    &&& m.peers()[j].state matches PeerState::HandshakingAsResponder(r)
    &&& r.party() == session::fresh_responding(m.keys(), m.peers()[j].config)
}

/// Whether a node awaits the answer of its peer `i` to an INIT, for the first
/// session or for the next.
pub open spec fn awaits_answer(m: TunnelManager, i: int, ini: handshake::Initiator, init: Seq<u8>) -> bool {
    let peer = m.peers()[i];
    &&& session::awaits(ini, m.keys(), peer.config, init)
    &&& match peer.state {
        PeerState::HandshakingAsInitiator(x) => x == ini,
        PeerState::Ready { rehandshake: Some(rs), .. } => rs.initiator == ini,
        _ => false,
    }
}

/// The INIT that a node sends when its timer says so is one whose answer it then
/// awaits.
pub proof fn law_sent_init_is_awaited(
    a: TunnelManager,
    i: int,
    now: Instant,
    a2: TunnelManager,
    out: Outgoing,
)
    requires
        a.wf() && a2.wf(),
        0 <= i < a.peers().len(),
        a.init_polled(i, now, a2, Ok(Some(out))),
    ensures
        a2.peers()[i].state is HandshakingAsInitiator,
        a2.peers()[i].cached_init is Some,
        awaits_answer(
            a2,
            i,
            a2.peers()[i].state->HandshakingAsInitiator_0,
            a2.peers()[i].cached_init->0@,
        ),
        a2.peers()[i].config.via_relay is None ==> out.packet@ == a2.peers()[i].cached_init->0@,
{
    assert(a2.peers()[i].wf(a2.keys()));
}

/// A node that waits for the first INIT of a peer answers one that reaches it in
/// time, and a node with a session answers one that opens the next.
pub proof fn law_init_is_answered(
    a: TunnelManager,
    i: int,
    ini: handshake::Initiator,
    init: Seq<u8>,
    b: TunnelManager,
    j: int,
    source: Endpoint,
    now: Instant,
    clock: Tai64N,
    b2: TunnelManager,
    r: Result<Reaction, Error>,
)
    requires
        acquainted(a, i, b, j),
        awaits_answer(a, i, ini, init),
        waits(b, j) || b.peers()[j].ready(),
        comes_from(b, source, j),
        handshake::within_window(clock.secs(), ini.time().secs()),
        b.incoming_handled(source, init, now, clock, b2, r),
    ensures
        r matches Ok(Reaction::Send { out, then_do }) && out.to == source && !(then_do is Nothing),
{
    let i0 = session::fresh_initiating(a.keys(), a.peers()[i].config);
    let r0 = session::fresh_responding(b.keys(), b.peers()[j].config);
    let cfg = a.peers()[i].config;
    handshake::law_init_is_readable(
        i0,
        cfg.local_sender_id,
        ini.time(),
        cfg.peer_pub@,
        ini.party(),
        init,
        r0,
        clock.secs(),
    );
    let mid = choose|mid: TunnelManager|
        mid.peer_becomes(
            b,
            j,
            PeerSession { last_rx_at: Some(now), ..b.peers()[j] },
        ) && #[trigger] mid.direct_handled(j, source, init, now, clock, b2, r);
    assert(mid.init_handled(j, source, init, clock, b2, r));
}

/// Whether a node refuses an INIT of its peer `j`: as the responder that waits for
/// it, or, where there is a session, as a fresh one.
pub open spec fn refuses_init(m: TunnelManager, j: int, clock: Tai64N, init: Seq<u8>) -> bool {
    let peer = m.peers()[j];
    match peer.state {
        PeerState::HandshakingAsResponder(w) => handshake::init_refusal(
            w.party(),
            clock.secs(),
            w.own_public(),
            init,
        ) is Some,
        PeerState::Ready { .. } => handshake::init_refusal(
            session::fresh_responding(m.keys(), peer.config),
            clock.secs(),
            m.keys().public_key(),
            init,
        ) is Some,
        _ => false,
    }
}

/// An INIT that is refused does no harm: nothing is sent, a session stays as it was,
/// and a node that waits goes on waiting. A valid INIT that comes later is answered
/// to its source, and leads to a session.
pub proof fn law_refused_init_does_no_harm(
    a: TunnelManager,
    i: int,
    ini: handshake::Initiator,
    init: Seq<u8>,
    b: TunnelManager,
    j: int,
    bad_source: Endpoint,
    bad: Seq<u8>,
    bad_now: Instant,
    bad_clock: Tai64N,
    b1: TunnelManager,
    r1: Result<Reaction, Error>,
    source: Endpoint,
    now: Instant,
    clock: Tai64N,
    b2: TunnelManager,
    r2: Result<Reaction, Error>,
    sent_at: Instant,
    b3: TunnelManager,
)
    requires
        acquainted(a, i, b, j),
        b1.wf(),
        bad.len() >= handshake::INIT_SIZE,
        bad[0] == handshake::MESSAGE_TYPE_INIT,
        refuses_init(b, j, bad_clock, bad),
        comes_from(b, bad_source, j),
        b.incoming_handled(bad_source, bad, bad_now, bad_clock, b1, r1),
        awaits_answer(a, i, ini, init),
        comes_from(b1, source, j),
        handshake::within_window(clock.secs(), ini.time().secs()),
        b1.incoming_handled(source, init, now, clock, b2, r2),
        r2 matches Ok(Reaction::Send { then_do, .. }) ==> b2.finished(then_do, sent_at, b3),
    ensures
        r1 matches Ok(Reaction::Nothing),
        b.peers()[j].ready() ==> b1.peers()[j].state == b.peers()[j].state,
        b.peers()[j].state is HandshakingAsResponder ==> waits(b1, j),
        r2 matches Ok(Reaction::Send { out, .. }) && out.to == source,
        b3.peers()[j].ready(),
{
    let mid = choose|mid: TunnelManager|
        mid.peer_becomes(
            b,
            j,
            PeerSession { last_rx_at: Some(bad_now), ..b.peers()[j] },
        ) && #[trigger] mid.direct_handled(j, bad_source, bad, bad_now, bad_clock, b1, r1);
    assert(mid.init_handled(j, bad_source, bad, bad_clock, b1, r1));
    assert(acquainted(a, i, b1, j));
    law_init_is_answered(a, i, ini, init, b1, j, source, now, clock, b2, r2);
    let mid2 = choose|mid2: TunnelManager|
        mid2.peer_becomes(
            b1,
            j,
            PeerSession { last_rx_at: Some(now), ..b1.peers()[j] },
        ) && #[trigger] mid2.direct_handled(j, source, init, now, clock, b2, r2);
    assert(init[0] == handshake::MESSAGE_TYPE_INIT) by {
        let cfg = a.peers()[i].config;
        handshake::law_init_is_readable(
            session::fresh_initiating(a.keys(), cfg),
            cfg.local_sender_id,
            ini.time(),
            cfg.peer_pub@,
            ini.party(),
            init,
            session::fresh_responding(b1.keys(), b1.peers()[j].config),
            clock.secs(),
        );
    }
    assert(mid2.init_handled(j, source, init, clock, b2, r2));
}

/// A handshake between two nodes gives both a session, in step in both directions:
/// `a` awaits the answer to its INIT, `b` answers it and goes on once the answer is
/// on its way, and `a` takes the answer in. This holds of the first session and of
/// every one that takes its place; one that does ends that a peer is stale.
pub proof fn law_handshake_opens_session(
    a: TunnelManager,
    i: int,
    ini: handshake::Initiator,
    init: Seq<u8>,
    b: TunnelManager,
    j: int,
    source: Endpoint,
    now: Instant,
    clock: Tai64N,
    b2: TunnelManager,
    out: Outgoing,
    then_do: Then,
    sent_at: Instant,
    b3: TunnelManager,
    answer_source: Endpoint,
    later: Instant,
    later_clock: Tai64N,
    a2: TunnelManager,
    r: Result<Reaction, Error>,
)
    requires
        acquainted(a, i, b, j),
        awaits_answer(a, i, ini, init),
        waits(b, j) || b.peers()[j].ready(),
        comes_from(b, source, j),
        handshake::within_window(clock.secs(), ini.time().secs()),
        b.incoming_handled(source, init, now, clock, b2, Ok(Reaction::Send { out, then_do })),
        b2.finished(then_do, sent_at, b3),
        comes_from(a, answer_source, i),
        a.incoming_handled(answer_source, out.packet@, later, later_clock, a2, r),
    ensures
        r matches Ok(Reaction::Nothing),
        leads(a2, i, b3, j),
        leads(b3, j, a2, i),
        a2.peers()[i].last_handshake_at == Some(later),
        b3.peers()[j].last_handshake_at == Some(sent_at),
        a.peers()[i].ready() ==> !a2.peers()[i].stale,
        b.peers()[j].ready() ==> !b3.peers()[j].stale,
        a2.peers()[i].state->peer_sender_id == b.peers()[j].config.local_sender_id,
        b3.peers()[j].state->peer_sender_id == a.peers()[i].config.local_sender_id,
{
    let cfg = a.peers()[i].config;
    let i0 = session::fresh_initiating(a.keys(), cfg);
    let r0 = session::fresh_responding(b.keys(), b.peers()[j].config);
    let id = cfg.local_sender_id;
    let r_id = b.peers()[j].config.local_sender_id;
    handshake::law_init_is_readable(
        i0,
        id,
        ini.time(),
        cfg.peer_pub@,
        ini.party(),
        init,
        r0,
        clock.secs(),
    );
    bytes::lemma_le32_round_trip(id);
    bytes::lemma_le32_round_trip(r_id);
    let rb = Ok::<Reaction, Error>(Reaction::Send { out, then_do });
    let mid = choose|mid: TunnelManager|
        mid.peer_becomes(
            b,
            j,
            PeerSession { last_rx_at: Some(now), ..b.peers()[j] },
        ) && #[trigger] mid.direct_handled(j, source, init, now, clock, b2, rb);
    assert(mid.init_handled(j, source, init, clock, b2, rb));
    let tb = b3.peers()[j].state->transport;
    let q = if b.peers()[j].ready() {
        choose|q: crate::crypto::noise::NoiseParty|
            handshake::response_written(r0, r_id, init, q, out.packet@)
                && #[trigger] handshake::session_derived(q, r_id, tb)
    } else {
        b2.peers()[j].state->HandshakingAsResponder_0.party()
    };
    assert(handshake::response_written(r0, r_id, init, q, out.packet@));
    assert(handshake::session_derived(q, r_id, tb));
    handshake::law_response_is_readable(
        i0,
        id,
        ini.time(),
        cfg.peer_pub@,
        ini.party(),
        init,
        r0,
        clock.secs(),
        r_id,
        q,
        out.packet@,
    );
    handshake::law_sessions_match(
        i0,
        id,
        ini.time(),
        cfg.peer_pub@,
        ini.party(),
        init,
        r0,
        clock.secs(),
        r_id,
        q,
        out.packet@,
        tb,
    );
    let amid = choose|amid: TunnelManager|
        amid.peer_becomes(
            a,
            i,
            PeerSession { last_rx_at: Some(later), ..a.peers()[i] },
        ) && #[trigger] amid.direct_handled(
            i,
            answer_source,
            out.packet@,
            later,
            later_clock,
            a2,
            r,
        );
    assert(ini.response_refusal(out.packet@) is None);
}

/// A first handshake whose messages go through a relay, in envelopes, gives both
/// nodes a session, in step in both directions.
pub proof fn law_relayed_handshake_opens_session(
    a: TunnelManager,
    i: int,
    ini: handshake::Initiator,
    init: Seq<u8>,
    b: TunnelManager,
    j: int,
    source: Endpoint,
    now: Instant,
    clock: Tai64N,
    b2: TunnelManager,
    rb: Result<Reaction, Error>,
    sent_at: Instant,
    b3: TunnelManager,
    answer_source: Endpoint,
    later: Instant,
    later_clock: Tai64N,
    a2: TunnelManager,
    r: Result<Reaction, Error>,
)
    requires
        acquainted(a, i, b, j),
        awaits_answer(a, i, ini, init),
        waits(b, j),
        relayed_from(b, a.keys().public_key(), a.peers()[i].config.peer_ip@, j),
        relayed_from(a, b.keys().public_key(), b.peers()[j].config.peer_ip@, i),
        handshake::within_window(clock.secs(), ini.time().secs()),
        b.incoming_handled(
            source,
            packet::relayed(a.keys().public_key(), a.peers()[i].config.peer_ip@, init),
            now,
            clock,
            b2,
            rb,
        ),
        rb matches Ok(Reaction::Send { out, then_do }) ==> {
            &&& b2.finished(then_do, sent_at, b3)
            &&& a.incoming_handled(answer_source, out.packet@, later, later_clock, a2, r)
        },
    ensures
        rb matches Ok(Reaction::Send { out, .. }) && out.to == source,
        r matches Ok(Reaction::Nothing),
        leads(a2, i, b3, j),
        leads(b3, j, a2, i),
{
    let cfg = a.peers()[i].config;
    let b_cfg = b.peers()[j].config;
    let i0 = session::fresh_initiating(a.keys(), cfg);
    let r0 = session::fresh_responding(b.keys(), b_cfg);
    let id = cfg.local_sender_id;
    let r_id = b_cfg.local_sender_id;
    handshake::law_init_is_readable(
        i0,
        id,
        ini.time(),
        cfg.peer_pub@,
        ini.party(),
        init,
        r0,
        clock.secs(),
    );
    packet::law_relay_round_trip(b_cfg.peer_pub@, cfg.peer_ip@, init);
    manager::lemma_key_of(b_cfg.peer_pub);
    let wire = packet::relayed(b_cfg.peer_pub@, cfg.peer_ip@, init);
    let mid = choose|mid: TunnelManager|
        b.heard_by_relay(j, b_cfg.peer_pub, source, now, mid) && #[trigger] mid.relay_handled(
            source,
            wire,
            now,
            clock,
            b2,
            rb,
        );
    assert(mid.relayed_init_handled(j, source, init, clock, b2, rb));
    let out = rb->Ok_0->out;
    let response = packet::relay_inner(out.packet@);
    let tb = b3.peers()[j].state->transport;
    let q = b2.peers()[j].state->HandshakingAsResponder_0.party();
    handshake::law_response_is_readable(
        i0,
        id,
        ini.time(),
        cfg.peer_pub@,
        ini.party(),
        init,
        r0,
        clock.secs(),
        r_id,
        q,
        response,
    );
    handshake::law_sessions_match(
        i0,
        id,
        ini.time(),
        cfg.peer_pub@,
        ini.party(),
        init,
        r0,
        clock.secs(),
        r_id,
        q,
        response,
        tb,
    );
    packet::law_relay_round_trip(cfg.peer_pub@, b_cfg.peer_ip@, response);
    manager::lemma_key_of(cfg.peer_pub);
    let back = packet::relayed(cfg.peer_pub@, b_cfg.peer_ip@, response);
    assert(out.packet@ == back);
    let amid = choose|amid: TunnelManager|
        a.heard_by_relay(i, cfg.peer_pub, answer_source, later, amid)
            && #[trigger] amid.relay_handled(
            answer_source,
            back,
            later,
            later_clock,
            a2,
            r,
        );
    assert(ini.response_refusal(response) is None);
    assert(response.len() > 0);
}

/// Data of a stale peer is dropped, and leaves the session as it was.
pub proof fn law_stale_peer_is_not_heard(
    m: TunnelManager,
    j: int,
    source: Endpoint,
    pkt: Seq<u8>,
    now: Instant,
    clock: Tai64N,
    m2: TunnelManager,
    r: Result<Reaction, Error>,
)
    requires
        m.wf(),
        0 <= j < m.peers().len(),
        m.peers()[j].stale,
        comes_from(m, source, j),
        pkt.len() >= 32,
        pkt[0] == MESSAGE_TYPE_TRANSPORT,
        m.incoming_handled(source, pkt, now, clock, m2, r),
    ensures
        r matches Ok(Reaction::Nothing),
        m2.peers()[j] == (PeerSession { last_rx_at: Some(now), ..m.peers()[j] }),
{
}

/// Data of a stale peer that comes in an envelope is dropped too.
pub proof fn law_stale_peer_is_not_heard_through_relay(
    m: TunnelManager,
    j: int,
    inner: Seq<u8>,
    source: Endpoint,
    now: Instant,
    clock: Tai64N,
    m2: TunnelManager,
    r: Result<Reaction, Error>,
)
    requires
        m.wf(),
        0 <= j < m.peers().len(),
        m.peers()[j].stale,
        relayed_from(m, m.peers()[j].config.peer_pub@, m.config().local_ip@, j),
        inner.len() > 0,
        inner[0] == MESSAGE_TYPE_TRANSPORT,
        m.incoming_handled(
            source,
            packet::relayed(m.peers()[j].config.peer_pub@, m.config().local_ip@, inner),
            now,
            clock,
            m2,
            r,
        ),
    ensures
        r matches Ok(Reaction::Nothing),
        m2.peers()[j] == (PeerSession { last_rx_at: Some(now), ..m.peers()[j] }),
{
    let from = m.peers()[j].config.peer_pub;
    packet::law_relay_round_trip(from@, m.config().local_ip@, inner);
    manager::lemma_key_of(from);
    let wire = packet::relayed(from@, m.config().local_ip@, inner);
    let mid = choose|mid: TunnelManager|
        m.heard_by_relay(j, from, source, now, mid) && #[trigger] mid.relay_handled(
            source,
            wire,
            now,
            clock,
            m2,
            r,
        );
    assert(mid.relayed_transport_handled(j, inner, m2, r));
}

/// A peer with a session that was silent for too long is marked stale when the
/// timers are looked at, whether a rekey is under way or not.
pub proof fn law_silent_peer_becomes_stale(
    s: PeerSession,
    timings: session::ManagerTimings,
    now: Instant,
)
    requires
        s.ready(),
        !s.stale,
        s.silent_for(now, timings.reject_after),
    ensures
        s.due(timings, now) == seq![session::Due::MarkStale],
{
}

/// A RESPONSE changes no session that waits for none.
pub proof fn law_stray_response_is_dropped(
    m: TunnelManager,
    j: int,
    source: Endpoint,
    pkt: Seq<u8>,
    now: Instant,
    clock: Tai64N,
    m2: TunnelManager,
    r: Result<Reaction, Error>,
)
    requires
        m.wf(),
        0 <= j < m.peers().len(),
        m.peers()[j].ready(),
        m.peers()[j].state->rehandshake is None,
        comes_from(m, source, j),
        pkt.len() >= handshake::RESPONSE_SIZE,
        pkt[0] == handshake::MESSAGE_TYPE_RESPONSE,
        m.incoming_handled(source, pkt, now, clock, m2, r),
    ensures
        r matches Ok(Reaction::Nothing),
        m2.peers() == m.peers().update(
            j,
            PeerSession { last_rx_at: Some(now), ..m.peers()[j] },
        ),
{
}

/// An INIT goes out only to a peer towards which we are the side that opens: the
/// first one, and those of a rekey.
pub proof fn law_only_the_opening_side_sends_init(
    m: TunnelManager,
    i: int,
    now: Instant,
    m2: TunnelManager,
    r: Result<Option<Outgoing>, Error>,
    action: Action,
    m3: TunnelManager,
    sent: Option<(Outgoing, Followup)>,
)
    requires
        m.wf(),
        0 <= i < m.peers().len(),
        !m.peers()[i].config.is_initiator,
        m.init_polled(i, now, m2, r),
        m.may_perform(i, action),
        m.performed(i, action, m3, sent),
    ensures
        r matches Ok(None),
        sent matches Some((_, f)) ==> f is KeepaliveSent,
{
    assert(m.peers()[i].wf(m.keys()));
}

/// A first INIT is handed out for sending only when it is due, and it is the INIT
/// that was written before, if there is one.
pub proof fn law_first_init_goes_out_when_due(
    m: TunnelManager,
    i: int,
    now: Instant,
    m2: TunnelManager,
    out: Outgoing,
)
    requires
        m.wf(),
        0 <= i < m.peers().len(),
        m.init_polled(i, now, m2, Ok(Some(out))),
    ensures
        m.peers()[i].config.is_initiator,
        m.peers()[i].next_init_at matches Some(t) && now.nanos >= t.nanos,
        m2.peers()[i].next_init_at == m.peers()[i].next_init_at,
        m2.peers()[i].cached_init is Some,
        m.peers()[i].cached_init is Some ==> m2.peers()[i].cached_init
            == m.peers()[i].cached_init,
        out.carries(
            m2.peers()[i].cached_init->0@,
            m.peers()[i].config.peer_endpoint,
            m.peers()[i].config.via_relay,
            m.peers()[i].config.peer_ip@,
            m.keys().public_key(),
        ),
{
    assert(m.peers()[i].wf(m.keys()));
}

/// A session that takes the place of an older one at the node that answers ends
/// that the peer is stale.
pub proof fn law_new_session_ends_staleness(
    m: TunnelManager,
    peer: usize,
    transport: Transport,
    peer_sender_id: u32,
    now: Instant,
    m2: TunnelManager,
)
    requires
        peer < m.peers().len(),
        m.peers()[peer as int].ready(),
        m.finished(Then::Rekey { peer, transport, peer_sender_id }, now, m2),
    ensures
        m2.peers()[peer as int].ready(),
        !m2.peers()[peer as int].stale,
        m2.peers()[peer as int].state->transport == transport,
{
}

} // verus!
