//! What a node owes every packet and every timer, move by move.

use crate::bytes;
use crate::crypto::transport::Transport;
use crate::net::Endpoint;
use crate::time::Instant;
use crate::tunnel::laws;
use crate::tunnel::manager;
use crate::tunnel::manager::{Command, Followup, Outcome, Progress, Reaction, Then, TunnelManager};
use crate::tunnel::packet;
use crate::tunnel::packet::Outgoing;
use crate::tunnel::runs;
use crate::tunnel::runs::Move;
use crate::tunnel::session;
use crate::tunnel::session::{Action, Due, PeerConfig, PeerSession, PeerState};
use vstd::prelude::*;

verus! {

/// Whether a packet is on its way to peer `i` with `inner`: as it is, to the peer's
/// endpoint, where the peer has no relay; and otherwise to the relay, behind the
/// byte five, the node's key and the peer's mesh address.
pub open spec fn goes_out(m: TunnelManager, i: int, out: Outgoing, inner: Seq<u8>) -> bool {
    let c = m.peers()[i].config;
    match c.via_relay {
        None => out.to == c.peer_endpoint && out.packet@ == inner,
        Some(relay) => {
            &&& out.to == relay
            &&& out.packet@.len() == 37 + inner.len()
            &&& out.packet@[0] == 5
            &&& out.packet@.subrange(1, 33) == m.keys().public_key()
            &&& out.packet@.subrange(33, 37) == c.peer_ip@
            &&& out.packet@.skip(37) == inner
        },
    }
}

proof fn lemma_goes_out(m: TunnelManager, i: int, out: Outgoing, inner: Seq<u8>)
    requires
        out.carries(
            inner,
            m.peers()[i].config.peer_endpoint,
            m.peers()[i].config.via_relay,
            m.peers()[i].config.peer_ip@,
            m.keys().public_key(),
        ),
    ensures
        goes_out(m, i, out, inner),
{
    crate::crypto::keys::law_key_lengths(m.keys());
    packet::law_relay_round_trip(m.keys().public_key(), m.peers()[i].config.peer_ip@, inner);
}

/// Whether a frame is data for the end `t` talks to: it begins with the byte four
/// and names the receiver, and every end that expects the next message of `t`
/// decrypts it to `data`.
pub open spec fn is_data(t: Transport, receiver: u32, frame: Seq<u8>, data: Seq<u8>) -> bool {
    &&& frame.len() >= 16
    &&& frame[0] == 4 && frame[1] == 0 && frame[2] == 0 && frame[3] == 0
    &&& frame.subrange(4, 8) == bytes::le32(receiver)
    &&& forall|other: Transport| #[trigger]
        t.in_step_with(other) ==> other.refusal(frame, 1500) is None && other.plaintext(frame)
            == data
}

/// Whether peer `i` is the first with the mesh address for which an IPv4 packet is
/// meant.
pub open spec fn is_meant_for(m: TunnelManager, pkt: Seq<u8>, i: int) -> bool {
    &&& pkt.len() >= 20
    &&& 64 <= pkt[0] < 80
    &&& 0 <= i < m.peers().len()
    &&& m.peers()[i].config.peer_ip@ == pkt.subrange(16, 20)
    &&& forall|j: int|
        0 <= j < i ==> (#[trigger] m.peers()[j]).config.peer_ip@ != pkt.subrange(16, 20)
}

/// Whether a move takes in a packet of the device.
pub open spec fn takes_device_packet(v: Move, pkt: Seq<u8>) -> bool {
    &&& v.made()
    &&& v.progress is Reading
    &&& v.outcome matches Outcome::Read { data: Some(d) } && d@ == pkt
}

/// Whether a move takes in a packet that arrived.
pub open spec fn takes_packet(v: Move, source: Endpoint, pkt: Seq<u8>) -> bool {
    &&& v.made()
    &&& v.progress is Receiving
    &&& v.outcome matches Outcome::Received { packet: Some((s, p)) } && s == source && p@ == pkt
}

/// Whether two sessions differ in nothing but what their transport has sealed and
/// opened.
pub open spec fn same_but_transport(s: PeerSession, t: PeerSession) -> bool {
    &&& s.config == t.config
    &&& s.next_init_at == t.next_init_at
    &&& s.cached_init == t.cached_init
    &&& s.last_rx_at == t.last_rx_at
    &&& s.last_tx_at == t.last_tx_at
    &&& s.last_handshake_at == t.last_handshake_at
    &&& s.stale == t.stale
    &&& s.ready() && t.ready()
    &&& s.state->peer_sender_id == t.state->peer_sender_id
    &&& s.state->rehandshake == t.state->rehandshake
}

/// Handling a packet of the device that is meant for a peer with a session, and is
/// no longer than the device allows, gives a frame to that peer which the peer reads
/// as the packet. Only the session with the peer changes, and of it only the
/// transport.
pub proof fn law_handled_packet_is_sent(
    m: TunnelManager,
    pkt: Seq<u8>,
    i: int,
    m2: TunnelManager,
    r: Result<Option<(usize, Outgoing)>, crate::tunnel::error::Error>,
)
    requires
        m.tun_packet_handled(pkt, m2, r),
        is_meant_for(m, pkt, i),
        m.peers()[i].ready(),
        pkt.len() <= 1500,
    ensures
        r matches Ok(Some((p, out))) && p == i && exists|frame: Seq<u8>| #[trigger]
            goes_out(m, i, out, frame) && is_data(
                m.peers()[i].state->transport,
                m.peers()[i].state->peer_sender_id,
                frame,
                pkt,
            ),
        m2.peers().len() == m.peers().len(),
        forall|j: int| 0 <= j < m.peers().len() && j != i ==> #[trigger] m2.peers()[j] == m.peers()[j],
        same_but_transport(m.peers()[i], m2.peers()[i]),
{
    let ip = pkt.subrange(16, 20);
    assert(m.first_with_ip(i, ip));
    laws::lemma_peer_with_ip(m, i, ip);
    assert(pkt[0] / 16 == 4);
    assert(m.destination(pkt) == Some(i));
    let peer = m.peers()[i];
    let t = peer.state->transport;
    let frame = t.next_frame(peer.state->peer_sender_id, pkt);
    let out = (r->Ok_0->0).1;
    lemma_goes_out(m, i, out, frame);
    lemma_is_data(t, peer.state->peer_sender_id, pkt);
}

proof fn lemma_is_data(t: Transport, receiver: u32, data: Seq<u8>)
    requires
        t.is_read_as(t.next_frame(receiver, data), data),
        data.len() <= 1500,
    ensures
        is_data(t, receiver, t.next_frame(receiver, data), data),
{
    let frame = t.next_frame(receiver, data);
    assert(frame.subrange(4, 8) =~= bytes::le32(receiver));
    assert forall|other: Transport| #[trigger] t.in_step_with(other) implies other.refusal(
        frame,
        1500,
    ) is None && other.plaintext(frame) == data by {}
}

/// A packet of the device that is meant for a peer with a session goes out to that
/// peer, in a frame which the peer reads as the packet, unless it is longer than the
/// device allows.
pub proof fn law_device_packet_goes_out(v: Move, pkt: Seq<u8>, i: int)
    requires
        takes_device_packet(v, pkt),
        is_meant_for(v.before, pkt, i),
        v.before.peers()[i].ready(),
        pkt.len() <= 1500,
    ensures
        v.r matches Ok((Progress::DataSent { peer, at }, Command::Send { out })) && peer == i && at
            == v.progress->Reading_at && exists|frame: Seq<u8>| #[trigger]
            goes_out(v.before, i, out, frame) && is_data(
                v.before.peers()[i].state->transport,
                v.before.peers()[i].state->peer_sender_id,
                frame,
                pkt,
            ),
        v.after.peers().len() == v.before.peers().len(),
        forall|j: int|
            0 <= j < v.before.peers().len() && j != i ==> #[trigger] v.after.peers()[j]
                == v.before.peers()[j],
        same_but_transport(v.before.peers()[i], v.after.peers()[i]),
{
    reveal(Move::made);
    let m = v.before;
    let ip = pkt.subrange(16, 20);
    assert(m.first_with_ip(i, ip));
    laws::lemma_peer_with_ip(m, i, ip);
    assert(pkt[0] / 16 == 4);
    assert(m.destination(pkt) == Some(i));
    match v.r {
        Ok((Progress::DataSent { peer, at }, Command::Send { out })) => {
            law_handled_packet_is_sent(m, pkt, i, v.after, Ok(Some((peer, out))));
        },
        Ok(_) => {
            let at = v.progress->Reading_at;
            let mid = choose|mid: TunnelManager|
                m.tun_packet_handled(pkt, mid, Ok(None)) && #[trigger] mid.turned_to_timers(
                    at,
                    v.clock,
                    v.after,
                    v.r,
                );
            assert(m.tun_packet_handled(pkt, mid, Ok(None)));
        },
        Err(e) => {
            assert(m.tun_packet_handled(pkt, v.after, Err(e)));
        },
    }
}

/// A packet of the device goes out to a peer only where it is meant for that peer
/// and there is a session with it.
pub proof fn law_only_meant_packets_go_out(v: Move, pkt: Seq<u8>, out: Outgoing)
    requires
        takes_device_packet(v, pkt),
        v.r matches Ok((_, Command::Send { out: o })) && o == out,
    ensures
        v.r matches Ok((Progress::DataSent { peer, .. }, _)) && is_meant_for(
            v.before,
            pkt,
            peer as int,
        ) && v.before.peers()[peer as int].ready(),
{
    reveal(Move::made);
    let m = v.before;
    let ip = pkt.subrange(16, 20);
    let i = choose|i: int| m.first_with_ip(i, ip);
    match v.r {
        Ok((Progress::DataSent { peer, at }, Command::Send { out: o })) => {
            assert(m.destination(pkt) is Some);
            assert(m.first_with_ip(i, ip));
        },
        _ => {},
    }
}

/// A packet of the device that is no IPv4 packet, is meant for nobody, or for a peer
/// without a session changes no session; the node turns to its timers.
pub proof fn law_other_device_packets_are_dropped(v: Move, pkt: Seq<u8>)
    requires
        takes_device_packet(v, pkt),
        forall|i: int| #[trigger]
            is_meant_for(v.before, pkt, i) ==> !v.before.peers()[i].ready(),
    ensures
        v.r matches Ok((Progress::Maintaining { .. }, Command::Proceed)),
        v.after.peers() == v.before.peers(),
{
    reveal(Move::made);
    let m = v.before;
    let ip = pkt.subrange(16, 20);
    if m.destination(pkt) is Some {
        let i = choose|i: int| m.first_with_ip(i, ip);
        assert(m.first_with_ip(i, ip));
        assert(is_meant_for(m, pkt, i));
    }
}

/// How a node reacts in a move that takes in a packet that arrived.
pub open spec fn reaction_of(v: Move) -> Result<Reaction, crate::tunnel::error::Error> {
    match v.r {
        Ok((Progress::Answering { then_do }, Command::Send { out })) => Ok(
            Reaction::Send { out, then_do },
        ),
        Ok((_, Command::Deliver { data })) => Ok(Reaction::Deliver { data }),
        Ok(_) => Ok(Reaction::Nothing),
        Err(e) => Err(e),
    }
}

proof fn lemma_reaction(v: Move, source: Endpoint, pkt: Seq<u8>)
    requires
        takes_packet(v, source, pkt),
    ensures
        v.before.wf() && v.after.wf(),
        v.before.incoming_handled(source, pkt, v.now, v.clock, v.after, reaction_of(v)),
{
    reveal(Move::made);
}

/// What a packet calls for is asked of the surroundings: an answer is handed out for
/// sending, data for the device, and where it calls for nothing the next packet is
/// asked for.
pub proof fn law_reaction_is_carried_out(
    v: Move,
    source: Endpoint,
    pkt: Seq<u8>,
)
    requires
        takes_packet(v, source, pkt),
    ensures
        match reaction_of(v) {
            Ok(Reaction::Nothing) => v.r matches Ok((Progress::Receiving, Command::Receive)),
            Ok(Reaction::Send { out, then_do }) => v.r == Ok::<
                (Progress, Command),
                crate::tunnel::error::Error,
            >((Progress::Answering { then_do }, Command::Send { out })),
            Ok(Reaction::Deliver { data }) => v.r == Ok::<
                (Progress, Command),
                crate::tunnel::error::Error,
            >((Progress::Delivering, Command::Deliver { data })),
            Err(e) => v.r == Err::<(Progress, Command), crate::tunnel::error::Error>(e),
        },
{
    reveal(Move::made);
}

/// Whether a packet comes from peer `j`: in an envelope that names the peer's key, or
/// without one from the peer's endpoint.
pub open spec fn is_from(m: TunnelManager, source: Endpoint, pkt: Seq<u8>, j: int) -> bool {
    &&& pkt.len() > 0
    &&& 0 <= j < m.peers().len()
    &&& if pkt[0] == 5 {
        &&& pkt.len() >= 37
        &&& m.peers()[j].config.peer_pub@ == pkt.subrange(1, 33)
        &&& m.pubkeys()[m.peers()[j].config.peer_pub] == j
    } else {
        laws::comes_from(m, source, j)
    }
}

/// A peer is heard whenever a packet comes from it, whatever the packet holds, and
/// no other session changes.
pub proof fn law_packet_is_heard(v: Move, source: Endpoint, pkt: Seq<u8>, j: int)
    requires
        takes_packet(v, source, pkt),
        is_from(v.before, source, pkt, j),
    ensures
        v.after.peers().len() == v.before.peers().len(),
        v.after.peers()[j].last_rx_at == Some(v.now),
        forall|k: int|
            0 <= k < v.before.peers().len() && k != j ==> #[trigger] v.after.peers()[k]
                == v.before.peers()[k],
{
    lemma_reaction(v, source, pkt);
    let m = v.before;
    let r = reaction_of(v);
    if pkt[0] == 5 {
        let key = m.peers()[j].config.peer_pub;
        manager::lemma_key_of(key);
        assert(m.pubkeys().contains_key(key));
        let mid = choose|mid: TunnelManager|
            m.heard_by_relay(j, key, source, v.now, mid) && #[trigger] mid.relay_handled(
                source,
                pkt,
                v.now,
                v.clock,
                v.after,
                r,
            );
        lemma_relay_keeps_rx(mid, j, source, pkt, v.now, v.clock, v.after, r);
    } else {
        let mid = choose|mid: TunnelManager|
            mid.peer_becomes(
                m,
                j,
                PeerSession { last_rx_at: Some(v.now), ..m.peers()[j] },
            ) && #[trigger] mid.direct_handled(j, source, pkt, v.now, v.clock, v.after, r);
        lemma_direct_keeps_rx(mid, j, source, pkt, v.now, v.clock, v.after, r);
    }
}

/// Whether of all sessions at most that with peer `j` changed, and when the peer was
/// last heard did not.
spec fn keeps_rx(m: TunnelManager, j: int, m2: TunnelManager) -> bool {
    &&& m2.peers().len() == m.peers().len()
    &&& m2.peers()[j].last_rx_at == m.peers()[j].last_rx_at
    &&& forall|k: int|
        0 <= k < m.peers().len() && k != j ==> #[trigger] m2.peers()[k] == m.peers()[k]
}

proof fn lemma_relay_keeps_rx(
    m: TunnelManager,
    j: int,
    source: Endpoint,
    pkt: Seq<u8>,
    now: Instant,
    clock: crate::crypto::timestamp::Tai64N,
    m2: TunnelManager,
    r: Result<Reaction, crate::tunnel::error::Error>,
)
    requires
        0 <= j < m.peers().len(),
        m.pubkeys().contains_key(manager::key_of(packet::relay_sender(pkt))),
        m.pubkeys()[manager::key_of(packet::relay_sender(pkt))] == j,
        m.relay_handled(source, pkt, now, clock, m2, r),
    ensures
        keeps_rx(m, j, m2),
{
}

proof fn lemma_direct_keeps_rx(
    m: TunnelManager,
    j: int,
    source: Endpoint,
    pkt: Seq<u8>,
    now: Instant,
    clock: crate::crypto::timestamp::Tai64N,
    m2: TunnelManager,
    r: Result<Reaction, crate::tunnel::error::Error>,
)
    requires
        0 <= j < m.peers().len(),
        m.direct_handled(j, source, pkt, now, clock, m2, r),
    ensures
        keeps_rx(m, j, m2),
{
}

proof fn lemma_sent_to(v: Move, pkt: Seq<u8>, i: int)
    requires
        takes_device_packet(v, pkt),
        v.r matches Ok((Progress::DataSent { peer, .. }, Command::Send { .. })) && peer == i,
    ensures
        v.before.tun_packet_handled(
            pkt,
            v.after,
            Ok(Some((i as usize, (v.r->Ok_0).1->Send_out))),
        ),
{
    reveal(Move::made);
}

/// A packet that one node takes from its device comes out of the device of the
/// other, whether it goes straight or through a relay, as long as the other counts
/// it for the right peer and that peer is not stale there. Afterwards the next one
/// does too.
pub proof fn law_packet_crosses(
    v: Move,
    w: Move,
    pkt: Seq<u8>,
    i: int,
    j: int,
    source: Endpoint,
    wire: Seq<u8>,
)
    requires
        takes_device_packet(v, pkt),
        is_meant_for(v.before, pkt, i),
        pkt.len() <= 1500,
        laws::leads(v.before, i, w.before, j),
        v.r matches Ok((_, Command::Send { out })) ==> wire == out.packet@,
        takes_packet(w, source, wire),
        match v.before.peers()[i].config.via_relay {
            None => laws::comes_from(w.before, source, j),
            Some(_) => laws::relayed_from(
                w.before,
                v.before.keys().public_key(),
                v.before.peers()[i].config.peer_ip@,
                j,
            ),
        },
        !w.before.peers()[j].stale,
    ensures
        w.r matches Ok((Progress::Delivering, Command::Deliver { data })) && data@ == pkt,
        laws::leads(v.after, i, w.after, j),
        w.after.peers()[j].last_rx_at == Some(w.now),
{
    law_device_packet_goes_out(v, pkt, i);
    lemma_sent_to(v, pkt, i);
    let out = (v.r->Ok_0).1->Send_out;
    let r = reaction_of(w);
    lemma_reaction(w, source, wire);
    law_reaction_is_carried_out(w, source, wire);
    if v.before.peers()[i].config.via_relay is None {
        laws::law_packet_is_delivered(
            v.before,
            i as usize,
            pkt,
            v.after,
            out,
            w.before,
            j,
            source,
            w.now,
            w.clock,
            w.after,
            r,
        );
    } else {
        laws::law_relayed_packet_is_delivered(
            v.before,
            i as usize,
            pkt,
            v.after,
            out,
            w.before,
            j,
            source,
            w.now,
            w.clock,
            w.after,
            r,
        );
    }
    law_packet_is_heard(w, source, wire, j);
}

/// Whether a moment lies more than a span after another.
pub open spec fn is_past(now: Instant, then_at: Instant, span: crate::time::Duration) -> bool {
    now.nanos > then_at.nanos + span.nanos
}

/// Whether an endpoint is an address to which packets can be sent.
pub open spec fn is_somewhere(e: Endpoint) -> bool {
    match e {
        Endpoint::V4 { ip, .. } => ip != 0,
        Endpoint::V6 { ip6, .. } => ip6 != 0,
    }
}

/// Whether a session is alive at a moment: established, not stale, and heard of
/// within the time after which a peer is given up, if ever.
pub open spec fn is_alive(s: PeerSession, timings: session::ManagerTimings, now: Instant) -> bool {
    &&& s.ready()
    &&& !s.stale
    &&& s.last_rx_at matches Some(t) ==> !is_past(now, t, timings.reject_after)
}

/// Whether a keepalive is owed: the session is alive, no rekey is under way, and
/// nothing was ever sent or the last packet was sent too long ago. Which side opened
/// the handshake does not matter.
pub open spec fn owes_keepalive(
    s: PeerSession,
    timings: session::ManagerTimings,
    now: Instant,
) -> bool {
    &&& is_alive(s, timings, now)
    &&& s.state->rehandshake is None
    &&& s.last_tx_at matches Some(t) ==> is_past(now, t, timings.keepalive)
}

/// Whether a rekey is owed: the session is alive, no rekey is under way, we are the
/// side that opens, the last handshake is too old, and the peer has an address.
pub open spec fn owes_rekey(s: PeerSession, timings: session::ManagerTimings, now: Instant) -> bool {
    &&& is_alive(s, timings, now)
    &&& s.state->rehandshake is None
    &&& s.config.is_initiator
    &&& s.last_handshake_at matches Some(t) && is_past(now, t, timings.rekey_after)
    &&& is_somewhere(s.config.peer_endpoint)
}

/// Whether the INIT of a rekey is owed once more: the session is alive, a rekey is
/// under way, and the moment for sending its INIT again has come.
pub open spec fn owes_retry(s: PeerSession, timings: session::ManagerTimings, now: Instant) -> bool {
    &&& is_alive(s, timings, now)
    &&& s.state->rehandshake matches Some(rs) && now.nanos >= rs.next_retry_at.nanos
}

/// Whether a peer is to be given up: there is a session that is not stale yet, and
/// the last packet of the peer is too long ago.
pub open spec fn is_lost(s: PeerSession, timings: session::ManagerTimings, now: Instant) -> bool {
    &&& s.ready()
    &&& !s.stale
    &&& s.last_rx_at matches Some(t) && is_past(now, t, timings.reject_after)
}

/// The timers of a session call for exactly what is owed, and for nothing twice.
pub proof fn law_what_is_due(s: PeerSession, timings: session::ManagerTimings, now: Instant)
    ensures
        s.due(timings, now).contains(Due::SendKeepalive) <==> owes_keepalive(s, timings, now),
        s.due(timings, now).contains(Due::StartRekey) <==> owes_rekey(s, timings, now),
        s.due(timings, now).contains(Due::RetryRekey) <==> owes_retry(s, timings, now),
        s.due(timings, now).contains(Due::MarkStale) <==> is_lost(s, timings, now),
        s.due(timings, now).no_duplicates(),
{
    let due = s.due(timings, now);
    let k = Due::SendKeepalive;
    let n = Due::StartRekey;
    if owes_keepalive(s, timings, now) {
        assert(due[0] == k);
    }
    if owes_rekey(s, timings, now) {
        assert(due[due.len() - 1] == n);
    }
    if owes_retry(s, timings, now) {
        assert(due[0] == Due::RetryRekey);
    }
    if is_lost(s, timings, now) {
        assert(due[0] == Due::MarkStale);
    }
}

/// Of an established session that is not stale, not silent for too long and has no
/// rekey under way, a keepalive is due exactly where nothing was ever sent or the
/// last packet was sent more than the keepalive time ago.
pub proof fn law_when_keepalives_are_due(
    s: PeerSession,
    timings: session::ManagerTimings,
    now: Instant,
)
    requires
        s.state matches PeerState::Ready { rehandshake: None, .. },
        !s.stale,
        s.last_rx_at matches Some(t) ==> now.nanos <= t.nanos + timings.reject_after.nanos,
    ensures
        s.due(timings, now).contains(Due::SendKeepalive) <==> match s.last_tx_at {
            None => true,
            Some(t) => now.nanos > t.nanos + timings.keepalive.nanos,
        },
{
    law_what_is_due(s, timings, now);
}

/// Whether a move looks at the timers at a moment.
pub open spec fn turns_to_timers(v: Move, at: Instant, actions: Seq<(usize, Action)>) -> bool {
    &&& v.made()
    &&& !(v.progress is Maintaining) && !(v.progress is ActionSent)
    &&& v.r matches Ok((Progress::Maintaining { at: a, actions: list }, _)) && a == at && list@
        == actions
}

proof fn lemma_timers(v: Move, at: Instant, actions: Seq<(usize, Action)>) -> (mid: TunnelManager)
    requires
        turns_to_timers(v, at, actions),
    ensures
        mid.timers_checked(at, v.clock, v.after, actions),
        mid.config() == v.before.config(),
        mid.last_maintenance() == v.before.last_maintenance(),
        mid.peers() == v.after.peers(),
{
    reveal(Move::made);
    let mid = match (v.progress, v.outcome) {
        (Progress::Initiating { .. }, _) => v.before,
        (Progress::Reading { .. }, Outcome::Read { data: Some(pkt) }) => choose|
            mid: TunnelManager,
        |
            v.before.tun_packet_handled(pkt@, mid, Ok(None)) && #[trigger] mid.turned_to_timers(
                at,
                v.clock,
                v.after,
                v.r,
            ),
        (Progress::DataSent { peer, .. }, _) => choose|mid: TunnelManager|
            mid.peer_becomes(
                v.before,
                peer as int,
                PeerSession { last_tx_at: Some(v.now), ..v.before.peers()[peer as int] },
            ) && #[trigger] mid.turned_to_timers(at, v.clock, v.after, v.r),
        _ => v.before,
    };
    assert(mid.turned_to_timers(at, v.clock, v.after, v.r));
    mid
}

/// Whether one of the actions for peer `i` is of the kind that a timer calls for.
pub open spec fn calls_for(actions: Seq<(usize, Action)>, i: int, d: Due) -> bool {
    exists|x: int|
        0 <= x < actions.len() && (#[trigger] actions[x]).0 == i && match d {
            Due::MarkStale => actions[x].1 is MarkStale,
            Due::SendKeepalive => actions[x].1 is SendKeepalive,
            Due::StartRekey => actions[x].1 is StartRekey,
            Due::RetryRekey => actions[x].1 is RetryRekey,
        }
}

proof fn lemma_called_for(v: Move, at: Instant, actions: Seq<(usize, Action)>, i: int, d: Due)
    requires
        turns_to_timers(v, at, actions),
        0 <= i < v.after.peers().len() <= usize::MAX,
        at.nanos >= v.before.last_maintenance().nanos
            + v.before.config().timings.maintenance_tick.nanos,
    ensures
        calls_for(actions, i, d) <==> v.after.peers()[i].due(
            v.before.config().timings,
            at,
        ).contains(d),
{
    let mid = lemma_timers(v, at, actions);
    let timings = mid.config().timings;
    let peers = mid.peers();
    let due = manager::all_due(peers, peers.len(), timings, at);
    runs::lemma_all_due(peers, peers.len(), timings, at);
    if peers[i].due(timings, at).contains(d) {
        assert(due.contains((i as usize, d)));
        let x = choose|x: int| 0 <= x < due.len() && due[x] == (i as usize, d);
        assert(actions[x].0 == due[x].0);
        assert(peers[i].answers(actions[x].1, due[x].1, mid.keys(), v.clock));
    }
    if calls_for(actions, i, d) {
        let x = choose|x: int|
            0 <= x < actions.len() && (#[trigger] actions[x]).0 == i && match d {
                Due::MarkStale => actions[x].1 is MarkStale,
                Due::SendKeepalive => actions[x].1 is SendKeepalive,
                Due::StartRekey => actions[x].1 is StartRekey,
                Due::RetryRekey => actions[x].1 is RetryRekey,
            };
        assert(peers[i].answers(actions[x].1, due[x].1, mid.keys(), v.clock));
        assert(due[x].1 == d);
        assert(peers[due[x].0 as int].due(timings, at).contains(due[x].1));
    }
}

/// Once a tick has passed since the timers were last looked at, they call for every
/// peer for exactly what is owed to it: a keepalive, a rekey, its INIT once more, or
/// giving the peer up.
pub proof fn law_timers_call_for_what_is_owed(
    v: Move,
    at: Instant,
    actions: Seq<(usize, Action)>,
    i: int,
)
    requires
        turns_to_timers(v, at, actions),
        0 <= i < v.after.peers().len() <= usize::MAX,
        at.nanos >= v.before.last_maintenance().nanos
            + v.before.config().timings.maintenance_tick.nanos,
    ensures
        ({
            let s = v.after.peers()[i];
            let timings = v.before.config().timings;
            &&& calls_for(actions, i, Due::SendKeepalive) <==> owes_keepalive(s, timings, at)
            &&& calls_for(actions, i, Due::StartRekey) <==> owes_rekey(s, timings, at)
            &&& calls_for(actions, i, Due::RetryRekey) <==> owes_retry(s, timings, at)
            &&& calls_for(actions, i, Due::MarkStale) <==> is_lost(s, timings, at)
        }),
        v.after.last_maintenance() == at,
{
    let timings = v.before.config().timings;
    let mid = lemma_timers(v, at, actions);
    law_what_is_due(v.after.peers()[i], timings, at);
    lemma_called_for(v, at, actions, i, Due::SendKeepalive);
    lemma_called_for(v, at, actions, i, Due::StartRekey);
    lemma_called_for(v, at, actions, i, Due::RetryRekey);
    lemma_called_for(v, at, actions, i, Due::MarkStale);
}

/// Before a tick has passed since the timers were last looked at, they call for
/// nothing, and when they were looked at stays.
pub proof fn law_timers_wait_for_the_tick(v: Move, at: Instant, actions: Seq<(usize, Action)>)
    requires
        turns_to_timers(v, at, actions),
        v.before.config().timings.maintenance_tick.nanos > 0,
        at.nanos < v.before.last_maintenance().nanos
            + v.before.config().timings.maintenance_tick.nanos,
    ensures
        actions.len() == 0,
        v.after.last_maintenance() == v.before.last_maintenance(),
{
    let mid = lemma_timers(v, at, actions);
}

/// The actions that the timers call for stand in the order of the peers, and of one
/// peer there are at most two: a keepalive and then a rekey.
pub proof fn law_actions_are_in_order(
    v: Move,
    at: Instant,
    actions: Seq<(usize, Action)>,
    x: int,
    y: int,
)
    requires
        turns_to_timers(v, at, actions),
        v.after.peers().len() <= usize::MAX,
        0 <= x < y < actions.len(),
    ensures
        actions[x].0 < actions[y].0 || (actions[x].0 == actions[y].0 && actions[x].1
            is SendKeepalive && actions[y].1 is StartRekey),
{
    let mid = lemma_timers(v, at, actions);
    let peers = mid.peers();
    let timings = mid.config().timings;
    lemma_due_order(peers, peers.len(), timings, at, x, y);
    let due = manager::all_due(peers, peers.len(), timings, at);
    assert(peers[actions[x].0 as int].answers(actions[x].1, due[x].1, mid.keys(), v.clock));
    assert(peers[actions[y].0 as int].answers(actions[y].1, due[y].1, mid.keys(), v.clock));
}

proof fn lemma_due_order(
    peers: Seq<PeerSession>,
    n: nat,
    timings: session::ManagerTimings,
    now: Instant,
    x: int,
    y: int,
)
    requires
        n <= peers.len() <= usize::MAX,
        0 <= x < y < manager::all_due(peers, n, timings, now).len(),
    ensures
        ({
            let due = manager::all_due(peers, n, timings, now);
            due[x].0 < due[y].0 || (due[x].0 == due[y].0 && due[x].1 is SendKeepalive && due[y].1
                is StartRekey)
        }),
    decreases n,
{
    if n > 0 {
        let m = (n - 1) as nat;
        let front = manager::all_due(peers, m, timings, now);
        let mine = peers[m as int].due(timings, now);
        let back = mine.map_values(|d: Due| (m as usize, d));
        let due = manager::all_due(peers, n, timings, now);
        assert(due == front + back);
        runs::lemma_all_due(peers, m, timings, now);
        if y < front.len() {
            lemma_due_order(peers, m, timings, now, x, y);
        } else if x < front.len() {
            assert(due[x] == front[x]);
            assert(due[y] == back[y - front.len()]);
        } else {
            assert(due[x] == back[x - front.len()]);
            assert(due[y] == back[y - front.len()]);
        }
    }
}

/// Whether a move performs an action for a peer.
pub open spec fn performs(v: Move, i: int, action: Action) -> bool {
    &&& v.made()
    &&& v.progress matches Progress::Maintaining { actions, .. } && actions@.len() > 0
        && actions@[0].0 == i && actions@[0].1 == action
}

/// Whether a move hands out a packet of an action for peer `i` that carries `inner`,
/// and goes on with `follow` once it is sent.
pub open spec fn hands_out(v: Move, i: int, inner: Seq<u8>, follow: Followup) -> bool {
    &&& v.r matches Ok((Progress::ActionSent { peer, follow: f, at, .. }, Command::Send { out }))
        && peer == i && f == follow && at == v.progress->Maintaining_at && goes_out(
        v.before,
        i,
        out,
        inner,
    )
}

/// A keepalive that is called for goes out to a peer with a session, as an empty
/// frame; nothing of the session changes but the transport.
pub proof fn law_keepalive_goes_out(v: Move, i: int)
    requires
        performs(v, i, Action::SendKeepalive),
        v.before.peers()[i].ready(),
    ensures
        exists|frame: Seq<u8>|
            #[trigger] hands_out(v, i, frame, Followup::KeepaliveSent) && is_data(
                v.before.peers()[i].state->transport,
                v.before.peers()[i].state->peer_sender_id,
                frame,
                Seq::empty(),
            ),
        same_but_transport(v.before.peers()[i], v.after.peers()[i]),
{
    reveal(Move::made);
    let peer = v.before.peers()[i];
    let t = peer.state->transport;
    let frame = t.next_frame(peer.state->peer_sender_id, Seq::empty());
    let out = (v.r->Ok_0).1->Send_out;
    lemma_goes_out(v.before, i, out, frame);
    lemma_is_data(t, peer.state->peer_sender_id, Seq::empty());
    assert(hands_out(v, i, frame, Followup::KeepaliveSent));
}

/// A keepalive that one node sends is heard by the other, straight or through a
/// relay, and nothing comes of it but that; the sessions stay in step.
pub proof fn law_keepalive_is_heard(
    v: Move,
    w: Move,
    i: int,
    j: int,
    source: Endpoint,
    wire: Seq<u8>,
)
    requires
        performs(v, i, Action::SendKeepalive),
        laws::leads(v.before, i, w.before, j),
        v.r matches Ok((_, Command::Send { out })) ==> wire == out.packet@,
        takes_packet(w, source, wire),
        match v.before.peers()[i].config.via_relay {
            None => laws::comes_from(w.before, source, j),
            Some(_) => laws::relayed_from(
                w.before,
                v.before.keys().public_key(),
                v.before.peers()[i].config.peer_ip@,
                j,
            ),
        },
        !w.before.peers()[j].stale,
    ensures
        w.r matches Ok((Progress::Receiving, Command::Receive)),
        w.after.peers()[j].last_rx_at == Some(w.now),
        laws::leads(v.after, i, w.after, j),
{
    law_keepalive_goes_out(v, i);
    lemma_reaction(w, source, wire);
    law_reaction_is_carried_out(w, source, wire);
    let out = (v.r->Ok_0).1->Send_out;
    let r = reaction_of(w);
    let a = v.before;
    let b = w.before;
    assert(a.performed(
        i,
        Action::SendKeepalive,
        v.after,
        Some((out, Followup::KeepaliveSent)),
    )) by {
        reveal(Move::made);
    }
    let peer = a.peers()[i];
    let t = peer.state->transport;
    let frame = t.next_frame(peer.state->peer_sender_id, Seq::empty());
    lemma_is_data(t, peer.state->peer_sender_id, Seq::empty());
    lemma_goes_out(a, i, out, frame);
    if peer.config.via_relay is None {
        laws::law_keepalive_is_silent(
            a,
            i,
            v.after,
            out,
            b,
            j,
            source,
            w.now,
            w.clock,
            w.after,
            r,
        );
    } else {
        let from = b.peers()[j].config.peer_pub;
        packet::law_relay_round_trip(from@, peer.config.peer_ip@, frame);
        manager::lemma_key_of(from);
        let mid = choose|mid: TunnelManager|
            b.heard_by_relay(j, from, source, w.now, mid) && #[trigger] mid.relay_handled(
                source,
                wire,
                w.now,
                w.clock,
                w.after,
                r,
            );
        let u = mid.peers()[j].state->transport;
        assert(t.in_step_with(u));
        assert(u.refusal(frame, 1500) is None);
    }
    law_packet_is_heard(w, source, wire, j);
}

/// Giving a peer up marks it stale; nothing is sent and nothing else changes.
pub proof fn law_lost_peer_is_marked(v: Move, i: int)
    requires
        performs(v, i, Action::MarkStale),
        0 <= i < v.before.peers().len(),
    ensures
        v.r matches Ok((Progress::Maintaining { .. }, Command::Proceed)),
        v.after.peers() == v.before.peers().update(
            i,
            PeerSession { stale: true, ..v.before.peers()[i] },
        ),
{
    reveal(Move::made);
}

/// The INIT of a rekey goes out as it was written, and it goes out again as the one
/// that is awaited; no session changes by it.
pub proof fn law_rekey_init_goes_out(v: Move, i: int, action: Action)
    requires
        performs(v, i, action),
        action is StartRekey || action is RetryRekey,
        action is RetryRekey ==> v.before.peers()[i].ready()
            && v.before.peers()[i].state->rehandshake is Some,
    ensures
        match action {
            Action::StartRekey { initiator, init_msg } => v.r matches Ok((
                Progress::ActionSent {
                    peer,
                    follow: Followup::RekeyOpened { initiator: j, init_msg: m },
                    ..
                },
                Command::Send { out },
            )) && peer == i && j == initiator && m@ == init_msg@ && goes_out(
                v.before,
                i,
                out,
                init_msg@,
            ),
            _ => hands_out(
                v,
                i,
                v.before.peers()[i].state->rehandshake->0.init_msg@,
                Followup::RekeyRetried,
            ),
        },
        v.after.peers() == v.before.peers(),
{
    reveal(Move::made);
    let out = (v.r->Ok_0).1->Send_out;
    match action {
        Action::StartRekey { initiator, init_msg } => lemma_goes_out(v.before, i, out, init_msg@),
        _ => lemma_goes_out(
            v.before,
            i,
            out,
            v.before.peers()[i].state->rehandshake->0.init_msg@,
        ),
    }
}

/// Once the packet of an action is on its way, it counts as the last one that was
/// sent. A rekey whose INIT it was is then under way, and the INIT is sent again two
/// seconds later.
pub proof fn law_sent_action_is_noted(v: Move, i: int, follow: Followup, at: Instant)
    requires
        v.made(),
        v.progress matches Progress::ActionSent { peer, follow: f, at: a, .. } && peer == i && f
            == follow && a == at,
        v.before.peers()[i].ready(),
        follow is RekeyRetried ==> v.before.peers()[i].state->rehandshake is Some,
    ensures
        v.r matches Ok((Progress::Maintaining { .. }, Command::Proceed)),
        v.after.peers().len() == v.before.peers().len(),
        forall|j: int|
            0 <= j < v.before.peers().len() && j != i ==> #[trigger] v.after.peers()[j]
                == v.before.peers()[j],
        ({
            let s = v.before.peers()[i];
            let t = v.after.peers()[i];
            &&& t.last_tx_at == Some(at)
            &&& t.config == s.config && t.stale == s.stale
            &&& t.last_rx_at == s.last_rx_at && t.last_handshake_at == s.last_handshake_at
            &&& t.ready() && t.state->transport == s.state->transport
            &&& t.state->peer_sender_id == s.state->peer_sender_id
            &&& match follow {
                Followup::KeepaliveSent => t.state->rehandshake == s.state->rehandshake,
                Followup::RekeyOpened { initiator, init_msg } => {
                    &&& t.state->rehandshake matches Some(rs)
                    &&& rs.initiator == initiator
                    &&& rs.init_msg == init_msg
                    &&& rs.next_retry_at.nanos == at.nanos + 2_000_000_000
                },
                Followup::RekeyRetried => {
                    &&& t.state->rehandshake matches Some(rs)
                    &&& rs.initiator == s.state->rehandshake->0.initiator
                    &&& rs.init_msg == s.state->rehandshake->0.init_msg
                    &&& rs.next_retry_at.nanos == at.nanos + 2_000_000_000
                },
            }
        }),
{
    reveal(Move::made);
}

/// A step is over only once every action was performed.
pub proof fn law_step_ends_after_its_actions(v: Move)
    requires
        v.made(),
    ensures
        (v.r matches Ok((_, Command::Finished))) <==> (v.progress matches Progress::Maintaining {
            actions,
            ..
        } && actions@.len() == 0),
        v.progress matches Progress::Maintaining { actions, .. } ==> (actions@.len() > 0 ==> (
        match v.r {
            Ok((Progress::Maintaining { actions: rest, .. }, _)) => rest@ == actions@.skip(1),
            Ok((Progress::ActionSent { actions: rest, .. }, _)) => rest@ == actions@.skip(1),
            _ => false,
        })),
{
    reveal(Move::made);
}

/// Once data for a peer is on its way, it counts as the last packet that was sent to
/// the peer, at the moment that it was; no other session changes.
pub proof fn law_sent_data_is_noted(v: Move, i: int)
    requires
        v.made(),
        v.progress matches Progress::DataSent { peer, .. } && peer == i,
    ensures
        v.after.peers() == v.before.peers().update(
            i,
            PeerSession { last_tx_at: Some(v.now), ..v.before.peers()[i] },
        ),
        v.r matches Ok((Progress::Maintaining { at, .. }, Command::Proceed)) && at
            == v.progress->DataSent_at,
{
    reveal(Move::made);
}

/// A node that opens the handshake with a peer hands out an INIT for it whenever one
/// is due: the one that it wrote before, or else one that it writes. When none is
/// due, or it does not open, nothing goes out to the peer.
pub proof fn law_first_init_is_handed_out(v: Move, i: int, at: Instant)
    requires
        v.made(),
        v.progress matches Progress::Initiating { peer, at: a } && peer == i && a == at,
        i < v.before.peers().len(),
    ensures
        ({
            let s = v.before.peers()[i];
            let t = v.after.peers()[i];
            if s.state is HandshakingAsInitiator && (s.next_init_at matches Some(d) && d.nanos
                <= at.nanos) {
                &&& v.r matches Ok((Progress::InitSent { peer, at: a }, Command::Send { out }))
                    && peer == i && a == at && t.cached_init is Some && goes_out(
                    v.before,
                    i,
                    out,
                    t.cached_init->0@,
                )
                &&& s.cached_init is Some ==> t == s
                &&& t.state is HandshakingAsInitiator
                &&& t.next_init_at == s.next_init_at
            } else {
                &&& v.r matches Ok((Progress::Initiating { peer, at: a }, Command::Proceed))
                    && peer == i + 1 && a == at
                &&& t.state == s.state
            }
        }),
        v.after.peers().len() == v.before.peers().len(),
        forall|j: int|
            0 <= j < v.before.peers().len() && j != i ==> #[trigger] v.after.peers()[j]
                == v.before.peers()[j],
{
    reveal(Move::made);
    let s = v.before.peers()[i];
    let t = v.after.peers()[i];
    if s.state is HandshakingAsInitiator && (s.next_init_at matches Some(d) && d.nanos
        <= at.nanos) {
        assert(t.cached_init is Some);
        let out = (v.r->Ok_0).1->Send_out;
        lemma_goes_out(v.before, i, out, t.cached_init->0@);
    }
}

/// Once an INIT is on its way, it counts as the last packet that was sent to the
/// peer, and the next one is due two seconds later.
pub proof fn law_sent_init_is_noted(v: Move, i: int, at: Instant)
    requires
        v.made(),
        v.progress matches Progress::InitSent { peer, at: a } && peer == i && a == at,
    ensures
        v.r matches Ok((Progress::Initiating { peer, at: a }, Command::Proceed)) && peer == i + 1
            && a == at,
        v.after.peers().len() == v.before.peers().len(),
        v.after.peers()[i].last_tx_at == Some(at),
        v.after.peers()[i].next_init_at matches Some(t) && t.nanos == at.nanos + 2_000_000_000,
        v.after.peers()[i].state == v.before.peers()[i].state,
        v.after.peers()[i].cached_init == v.before.peers()[i].cached_init,
        forall|j: int|
            0 <= j < v.before.peers().len() && j != i ==> #[trigger] v.after.peers()[j]
                == v.before.peers()[j],
{
    reveal(Move::made);
}

/// The device is read in every step in which there is a session, once all INITs were
/// looked at; without a session the node turns to its timers at once.
pub proof fn law_when_the_device_is_read(v: Move, at: Instant)
    requires
        v.made(),
        v.progress matches Progress::Initiating { peer, at: a } && peer
            == v.before.peers().len() && a == at,
    ensures
        v.after.peers() == v.before.peers(),
        if exists|i: int| 0 <= i < v.before.peers().len() && (#[trigger] v.before.peers()[i]).ready() {
            v.r matches Ok((Progress::Reading { at: a }, Command::ReadDevice)) && a == at
        } else {
            v.r matches Ok((Progress::Maintaining { at: a, .. }, Command::Proceed)) && a == at
        },
{
    reveal(Move::made);
}

/// Every packet that has arrived is taken in before anything else is done: a step
/// begins with asking for one, asks for another after each, and goes on once there
/// is none.
pub proof fn law_packets_come_first(v: Move)
    requires
        v.made(),
    ensures
        v.progress is Begin || v.progress is Delivering || v.progress is Answering ==> v.r matches Ok(
            (Progress::Receiving, Command::Receive),
        ),
        v.progress is Receiving && !(v.outcome matches Outcome::Received { packet: Some(_) }) ==> (
        v.r matches Ok((Progress::Initiating { peer, at }, Command::Proceed)) && peer == 0 && at
            == v.now),
{
    reveal(Move::made);
}

/// A packet without an envelope from a source that is no peer's is ignored, unless
/// it begins with the byte one and has the length of an INIT. So is an envelope of a
/// node that is not known, one that is cut short, and an empty packet.
pub proof fn law_strangers_are_ignored(v: Move, source: Endpoint, pkt: Seq<u8>, from: [u8; 32])
    requires
        takes_packet(v, source, pkt),
        pkt.len() >= 37 ==> from@ == pkt.subrange(1, 33),
        pkt.len() == 0 || (pkt[0] != 5 && !v.before.endpoints().contains_key(source) && (pkt[0] != 1
            || pkt.len() < 148)) || (pkt[0] == 5 && (pkt.len() < 37 || forall|j: int|
            0 <= j < v.before.peers().len() ==> (#[trigger] v.before.peers()[j]).config.peer_pub@
                != pkt.subrange(1, 33))),
    ensures
        v.r matches Ok((Progress::Receiving, Command::Receive)),
        v.after.unchanged(v.before),
{
    lemma_reaction(v, source, pkt);
    law_reaction_is_carried_out(v, source, pkt);
    if pkt.len() >= 37 && pkt[0] == 5 {
        manager::lemma_key_of(from);
        if v.before.pubkeys().contains_key(from) {
            let j = v.before.pubkeys()[from] as int;
            assert(v.before.peers()[j].config.peer_pub == from);
        }
    }
}

/// The message that a packet holds: what follows the envelope, where it has one.
pub open spec fn message_of(pkt: Seq<u8>) -> Seq<u8> {
    if pkt.len() > 0 && pkt[0] == 5 {
        pkt.skip(37)
    } else {
        pkt
    }
}

/// Data goes to the device only where it came from a peer with a session that is not
/// stale, in an envelope for this node or without one, and it is what the session
/// opens to. It is never empty.
pub proof fn law_only_opened_data_is_delivered(
    v: Move,
    source: Endpoint,
    pkt: Seq<u8>,
    from: [u8; 32],
    data: Vec<u8>,
)
    requires
        takes_packet(v, source, pkt),
        pkt.len() >= 37 && pkt[0] == 5 ==> from@ == pkt.subrange(1, 33),
        v.r matches Ok((_, Command::Deliver { data: d })) && d == data,
    ensures
        pkt[0] == 5 ==> pkt.subrange(33, 37) == v.before.config().local_ip@,
        message_of(pkt)[0] == 4,
        data@.len() > 0,
        exists|j: int| #[trigger]
            is_from(v.before, source, pkt, j) && {
                let s = v.before.peers()[j];
                &&& s.ready() && !s.stale
                &&& s.state->transport.refusal(message_of(pkt), 1500) is None
                &&& data@ == s.state->transport.plaintext(message_of(pkt))
            },
{
    lemma_reaction(v, source, pkt);
    law_reaction_is_carried_out(v, source, pkt);
    let m = v.before;
    let r = reaction_of(v);
    if pkt[0] == 5 {
        manager::lemma_key_of(from);
        let j = m.pubkeys()[from] as int;
        assert(m.pubkeys().contains_key(from));
        let mid = choose|mid: TunnelManager|
            m.heard_by_relay(j, from, source, v.now, mid) && #[trigger] mid.relay_handled(
                source,
                pkt,
                v.now,
                v.clock,
                v.after,
                r,
            );
        assert(mid.relayed_transport_handled(j, message_of(pkt), v.after, r));
        assert(is_from(m, source, pkt, j));
    } else {
        let j = m.endpoints()[source] as int;
        if m.endpoints().contains_key(source) {
            let mid = choose|mid: TunnelManager|
                mid.peer_becomes(
                    m,
                    j,
                    PeerSession { last_rx_at: Some(v.now), ..m.peers()[j] },
                ) && #[trigger] mid.direct_handled(j, source, pkt, v.now, v.clock, v.after, r);
            assert(mid.direct_handled(j, source, pkt, v.now, v.clock, v.after, r));
            assert(is_from(m, source, pkt, j));
        }
    }
}

/// Data that the session does not open, and data from a peer without a session, is
/// dropped: nothing is sent or delivered, and the session is as it was but for when
/// the peer was last heard.
pub proof fn law_unreadable_data_is_dropped(v: Move, source: Endpoint, pkt: Seq<u8>, j: int)
    requires
        takes_packet(v, source, pkt),
        laws::comes_from(v.before, source, j),
        pkt.len() >= 32,
        pkt[0] == 4,
        v.before.peers()[j].state matches PeerState::Ready { transport, .. } ==> transport.refusal(
            pkt,
            1500,
        ) is Some,
    ensures
        v.r matches Ok((Progress::Receiving, Command::Receive)),
        v.after.peers()[j].last_rx_at == Some(v.now),
        v.before.peers()[j].ready() ==> {
            &&& v.after.peers()[j].ready()
            &&& v.after.peers()[j].state->transport.session()
                == v.before.peers()[j].state->transport.session()
            &&& v.after.peers()[j].state->rehandshake == v.before.peers()[j].state->rehandshake
        },
        !v.before.peers()[j].ready() ==> v.after.peers()[j].state == v.before.peers()[j].state,
        v.after.peers()[j].stale == v.before.peers()[j].stale,
{
    lemma_reaction(v, source, pkt);
    law_reaction_is_carried_out(v, source, pkt);
    let m = v.before;
    let r = reaction_of(v);
    let mid = choose|mid: TunnelManager|
        mid.peer_becomes(
            m,
            j,
            PeerSession { last_rx_at: Some(v.now), ..m.peers()[j] },
        ) && #[trigger] mid.direct_handled(j, source, pkt, v.now, v.clock, v.after, r);
    assert(mid.direct_handled(j, source, pkt, v.now, v.clock, v.after, r));
}

/// Once the answer to a first INIT is on its way, the node has a session with the
/// peer under the identifier that the peer gave, with no rekey under way, and the
/// handshake, the last packet sent and the last one heard are of that moment.
pub proof fn law_answer_opens_session(v: Move, i: int, peer_sender_id: u32)
    requires
        v.made(),
        v.progress matches Progress::Answering {
            then_do: Then::Establish { peer, peer_sender_id: id },
        } && peer == i && id == peer_sender_id,
    ensures
        v.after.peers().len() == v.before.peers().len(),
        forall|j: int|
            0 <= j < v.before.peers().len() && j != i ==> #[trigger] v.after.peers()[j]
                == v.before.peers()[j],
        ({
            let s = v.before.peers()[i];
            let t = v.after.peers()[i];
            &&& t.ready()
            &&& t.state->peer_sender_id == peer_sender_id
            &&& t.state->rehandshake is None
            &&& t.state->transport.counter() == 0
            &&& t.state->transport.id() == s.config.local_sender_id
            &&& t.last_handshake_at == Some(v.now)
            &&& t.last_tx_at == Some(v.now)
            &&& t.last_rx_at == Some(v.now)
            &&& t.config == s.config
            &&& t.stale == s.stale
        }),
{
    reveal(Move::made);
    assert(v.before.peers()[i].wf(v.before.keys()));
}

/// Once the answer to the INIT of a rekey is on its way, the new session stands in
/// the place of the old one, and the peer is not stale any more. A rekey that we
/// opened ourselves stays under way.
pub proof fn law_answer_replaces_session(
    v: Move,
    i: int,
    transport: Transport,
    peer_sender_id: u32,
)
    requires
        v.made(),
        v.progress matches Progress::Answering {
            then_do: Then::Rekey { peer, transport: t, peer_sender_id: id },
        } && peer == i && t == transport && id == peer_sender_id,
    ensures
        v.after.peers().len() == v.before.peers().len(),
        forall|j: int|
            0 <= j < v.before.peers().len() && j != i ==> #[trigger] v.after.peers()[j]
                == v.before.peers()[j],
        ({
            let s = v.before.peers()[i];
            let t = v.after.peers()[i];
            &&& t.ready()
            &&& t.state->transport == transport
            &&& t.state->peer_sender_id == peer_sender_id
            &&& t.state->rehandshake == s.state->rehandshake
            &&& t.last_handshake_at == Some(v.now)
            &&& t.last_tx_at == Some(v.now)
            &&& t.last_rx_at == s.last_rx_at
            &&& t.config == s.config
            &&& !t.stale
        }),
{
    reveal(Move::made);
}

/// The initiator that waits for a RESPONSE of a peer, for the first session or for
/// the next.
pub open spec fn waiting_initiator(s: PeerSession) -> Option<crate::crypto::handshake::Initiator> {
    match s.state {
        PeerState::HandshakingAsInitiator(ini) => Some(ini),
        PeerState::Ready { rehandshake: Some(rs), .. } => Some(rs.initiator),
        _ => None,
    }
}

/// Whether a packet is a message of peer `j` that begins with a byte and has at
/// least a length.
pub open spec fn brings(
    v: Move,
    source: Endpoint,
    pkt: Seq<u8>,
    j: int,
    kind: u8,
    len: int,
) -> bool {
    &&& takes_packet(v, source, pkt)
    &&& is_from(v.before, source, pkt, j)
    &&& pkt[0] == 5 ==> pkt.subrange(33, 37) == v.before.config().local_ip@
    &&& message_of(pkt).len() >= len
    &&& message_of(pkt)[0] == kind
}

proof fn lemma_response(v: Move, source: Endpoint, pkt: Seq<u8>, j: int) -> (mid: TunnelManager)
    requires
        brings(v, source, pkt, j, 2, 92),
    ensures
        mid.peers() == v.before.peers().update(
            j,
            PeerSession { last_rx_at: Some(v.now), ..v.before.peers()[j] },
        ),
        match reaction_of(v) {
            Ok(x) => x is Nothing && mid.response_handled(
                j,
                message_of(pkt),
                v.now,
                v.after,
                Ok(()),
            ),
            Err(e) => mid.response_handled(j, message_of(pkt), v.now, v.after, Err(e)),
        },
{
    lemma_reaction(v, source, pkt);
    let m = v.before;
    let r = reaction_of(v);
    if pkt[0] == 5 {
        let key = m.peers()[j].config.peer_pub;
        manager::lemma_key_of(key);
        assert(m.pubkeys().contains_key(key));
        let mid = choose|mid: TunnelManager|
            m.heard_by_relay(j, key, source, v.now, mid) && #[trigger] mid.relay_handled(
                source,
                pkt,
                v.now,
                v.clock,
                v.after,
                r,
            );
        assert(mid.relay_handled(source, pkt, v.now, v.clock, v.after, r));
        mid
    } else {
        let mid = choose|mid: TunnelManager|
            mid.peer_becomes(
                m,
                j,
                PeerSession { last_rx_at: Some(v.now), ..m.peers()[j] },
            ) && #[trigger] mid.direct_handled(j, source, pkt, v.now, v.clock, v.after, r);
        assert(mid.direct_handled(j, source, pkt, v.now, v.clock, v.after, r));
        mid
    }
}

/// A RESPONSE that the waiting initiator accepts opens a session, or puts a new one in
/// the place of the old: under the identifier that the peer gave, with no rekey under
/// way, and with the handshake of that moment. A peer whose session is replaced is not
/// stale any more.
pub proof fn law_response_opens_session(v: Move, source: Endpoint, pkt: Seq<u8>, j: int)
    requires
        brings(v, source, pkt, j, 2, 92),
        waiting_initiator(v.before.peers()[j]) matches Some(ini) && ini.response_refusal(
            message_of(pkt),
        ) is None,
    ensures
        v.r matches Ok((Progress::Receiving, Command::Receive)),
        ({
            let s = v.before.peers()[j];
            let t = v.after.peers()[j];
            &&& t.ready()
            &&& t.state->peer_sender_id == bytes::from_le32(message_of(pkt).subrange(4, 8))
            &&& t.state->rehandshake is None
            &&& t.state->transport.counter() == 0
            &&& t.last_handshake_at == Some(v.now)
            &&& t.last_rx_at == Some(v.now)
            &&& t.last_tx_at == s.last_tx_at
            &&& t.config == s.config
            &&& t.stale == (s.stale && !s.ready())
        }),
{
    let mid = lemma_response(v, source, pkt, j);
    law_reaction_is_carried_out(v, source, pkt);
}

/// A RESPONSE that the waiting initiator refuses is an error. It ends a first
/// handshake, and a rekey, whose session goes on.
pub proof fn law_refused_response_ends_handshake(v: Move, source: Endpoint, pkt: Seq<u8>, j: int)
    requires
        brings(v, source, pkt, j, 2, 92),
        waiting_initiator(v.before.peers()[j]) matches Some(ini) && ini.response_refusal(
            message_of(pkt),
        ) is Some,
    ensures
        v.r is Err,
        ({
            let s = v.before.peers()[j];
            let t = v.after.peers()[j];
            &&& !s.ready() ==> t.state is Init
            &&& s.ready() ==> {
                &&& t.ready()
                &&& t.state->transport == s.state->transport
                &&& t.state->peer_sender_id == s.state->peer_sender_id
                &&& t.state->rehandshake is None
            }
            &&& t.last_handshake_at == s.last_handshake_at
            &&& t.stale == s.stale
        }),
{
    let mid = lemma_response(v, source, pkt, j);
    law_reaction_is_carried_out(v, source, pkt);
}

/// Whether a packet is a RESPONSE of this node to an INIT of peer `j`: 92 bytes that
/// begin with the byte two and name the two sides, in an envelope where the INIT came
/// in one.
pub open spec fn is_response(m: TunnelManager, j: int, out: Seq<u8>, init: Seq<u8>) -> bool {
    let msg = message_of(out);
    &&& msg.len() == 92
    &&& msg[0] == 2
    &&& msg.subrange(4, 8) == bytes::le32(m.peers()[j].config.local_sender_id)
    &&& msg.subrange(8, 12) == message_of(init).subrange(4, 8)
    &&& init[0] == 5 ==> {
        &&& out.len() == 129
        &&& out[0] == 5
        &&& out.subrange(1, 33) == m.keys().public_key()
        &&& out.subrange(33, 37) == m.peers()[j].config.peer_ip@
    }
}

/// A node that waits for the first INIT of a peer answers the one that it accepts with
/// a RESPONSE, to where it came from, and opens the session once that is sent.
pub proof fn law_first_init_gets_its_response(v: Move, source: Endpoint, pkt: Seq<u8>, j: int)
    requires
        brings(v, source, pkt, j, 1, 148),
        v.before.peers()[j].state matches PeerState::HandshakingAsResponder(w)
            && crate::crypto::handshake::init_refusal(
            w.party(),
            v.clock.secs(),
            w.own_public(),
            message_of(pkt),
        ) is None,
    ensures
        v.r matches Ok((
            Progress::Answering { then_do: Then::Establish { peer, peer_sender_id } },
            Command::Send { out },
        )) && peer == j && peer_sender_id == bytes::from_le32(message_of(pkt).subrange(4, 8))
            && out.to == source && is_response(v.before, j, out.packet@, pkt),
        v.after.peers()[j].state is HandshakingAsResponder,
{
    lemma_reaction(v, source, pkt);
    law_reaction_is_carried_out(v, source, pkt);
    let m = v.before;
    let r = reaction_of(v);
    let init = message_of(pkt);
    assert(m.peers()[j].wf(m.keys()));
    let waiting = m.peers()[j].state->HandshakingAsResponder_0;
    let mid = if pkt[0] == 5 {
        let key = m.peers()[j].config.peer_pub;
        manager::lemma_key_of(key);
        assert(m.pubkeys().contains_key(key));
        let mid = choose|mid: TunnelManager|
            m.heard_by_relay(j, key, source, v.now, mid) && #[trigger] mid.relay_handled(
                source,
                pkt,
                v.now,
                v.clock,
                v.after,
                r,
            );
        assert(mid.relayed_init_handled(j, source, init, v.clock, v.after, r));
        mid
    } else {
        let mid = choose|mid: TunnelManager|
            mid.peer_becomes(
                m,
                j,
                PeerSession { last_rx_at: Some(v.now), ..m.peers()[j] },
            ) && #[trigger] mid.direct_handled(j, source, pkt, v.now, v.clock, v.after, r);
        assert(mid.init_handled(j, source, init, v.clock, v.after, r));
        mid
    };
    assert(mid.init_answered(j, source, init, pkt[0] == 5, v.clock, v.after, r));
    let out = (v.r->Ok_0).1->Send_out;
    let now_waiting = v.after.peers()[j].state->HandshakingAsResponder_0;
    let response = if pkt[0] == 5 {
        packet::relay_inner(out.packet@)
    } else {
        out.packet@
    };
    crate::crypto::laws::law_response_layout(
        waiting.party(),
        waiting.id(),
        init,
        now_waiting.party(),
        response,
    );
    if pkt[0] == 5 {
        crate::crypto::keys::law_key_lengths(m.keys());
        packet::law_relay_round_trip(
            m.keys().public_key(),
            m.peers()[j].config.peer_ip@,
            response,
        );
    }
    assert(message_of(out.packet@) == response);
}

/// A node with a session answers an INIT of the peer that it accepts, and that came
/// without an envelope, with a RESPONSE to where it came from; the session stays until
/// that is sent, and the new one is then to take its place.
pub proof fn law_rekey_init_gets_its_response(v: Move, source: Endpoint, pkt: Seq<u8>, j: int)
    requires
        brings(v, source, pkt, j, 1, 148),
        pkt[0] != 5,
        v.before.peers()[j].ready(),
        crate::crypto::handshake::init_refusal(
            session::fresh_responding(v.before.keys(), v.before.peers()[j].config),
            v.clock.secs(),
            v.before.keys().public_key(),
            pkt,
        ) is None,
    ensures
        v.r matches Ok((
            Progress::Answering { then_do: Then::Rekey { peer, peer_sender_id, .. } },
            Command::Send { out },
        )) && peer == j && peer_sender_id == bytes::from_le32(pkt.subrange(4, 8)) && out.to
            == source && is_response(v.before, j, out.packet@, pkt),
        v.after.peers()[j].state == v.before.peers()[j].state,
{
    lemma_reaction(v, source, pkt);
    law_reaction_is_carried_out(v, source, pkt);
    let m = v.before;
    let r = reaction_of(v);
    let mid = choose|mid: TunnelManager|
        mid.peer_becomes(
            m,
            j,
            PeerSession { last_rx_at: Some(v.now), ..m.peers()[j] },
        ) && #[trigger] mid.direct_handled(j, source, pkt, v.now, v.clock, v.after, r);
    assert(mid.rekey_answered(j, source, pkt, v.clock, v.after, r));
    let out = (v.r->Ok_0).1->Send_out;
    let transport = (v.r->Ok_0).0->Answering_then_do->Rekey_transport;
    let fresh = session::fresh_responding(m.keys(), m.peers()[j].config);
    let id = m.peers()[j].config.local_sender_id;
    let q = choose|q: crate::crypto::noise::NoiseParty|
        crate::crypto::handshake::response_written(fresh, id, pkt, q, out.packet@)
            && #[trigger] crate::crypto::handshake::session_derived(q, id, transport);
    crate::crypto::laws::law_response_layout(fresh, id, pkt, q, out.packet@);
}

/// An INIT from a source that is no peer's, which ends in the code for a peer's key,
/// moves that peer to the source: packets from there count for it, and those to it go
/// there.
pub proof fn law_init_moves_its_peer(v: Move, source: Endpoint, pkt: Seq<u8>, j: int)
    requires
        takes_packet(v, source, pkt),
        !v.before.endpoints().contains_key(source),
        pkt.len() >= 148,
        pkt[0] == 1,
        0 <= j < v.before.peers().len() <= usize::MAX,
        crate::crypto::laws::ends_in_code(pkt, 132, v.before.peers()[j].config.peer_pub@),
        forall|k: int|
            0 <= k < j ==> !crate::crypto::laws::ends_in_code(
                pkt,
                132,
                (#[trigger] v.before.peers()[k]).config.peer_pub@,
            ),
    ensures
        v.after.peers()[j].config.peer_endpoint == source,
        v.after.peers()[j].last_rx_at == Some(v.now),
        v.after.peers().len() == v.before.peers().len(),
        forall|k: int|
            0 <= k < v.before.peers().len() && k != j ==> #[trigger] v.after.peers()[k]
                == v.before.peers()[k],
        v.before.peers()[j].config.peer_endpoint != source ==> laws::comes_from(
            v.after,
            source,
            j,
        ),
{
    lemma_reaction(v, source, pkt);
    let m = v.before;
    let r = reaction_of(v);
    assert(m.first_with_code(j, pkt));
    let c = choose|c: int| m.first_with_code(c, pkt);
    assert(m.first_with_code(c, pkt));
    assert(c == j) by {
        if c < j {
            assert(!crate::crypto::laws::ends_in_code(pkt, 132, m.peers()[c].config.peer_pub@));
        } else if j < c {
            assert(!crate::crypto::handshake::code_is_valid(
                pkt,
                148,
                m.peers()[j].config.peer_pub@,
            ));
        }
    }
    assert(m.peer_with_code(pkt) == Some(j));
    let mid = choose|mid: TunnelManager|
        m.moved(j, source, v.now, mid) && #[trigger] mid.init_handled(
            j,
            source,
            pkt,
            v.clock,
            v.after,
            r,
        );
    assert(mid.init_handled(j, source, pkt, v.clock, v.after, r));
}

/// A node starts out with a session to be opened for every peer that it is told of: as
/// the side that opens, with an INIT due at once, where it is told to be that, and
/// waiting for the peer otherwise. Nothing was sent, heard or agreed yet, and no peer
/// is stale.
pub proof fn law_node_starts_out(
    m: TunnelManager,
    config: session::ManagerConfig,
    cfgs: Seq<PeerConfig>,
    now: Instant,
    clock: crate::crypto::timestamp::Tai64N,
    i: int,
)
    requires
        m.opened(config, cfgs, now, clock),
        0 <= i < cfgs.len(),
    ensures
        m.config() == config,
        m.peers().len() == cfgs.len(),
        m.last_maintenance() == now,
        ({
            let s = m.peers()[i];
            &&& s.config == cfgs[i]
            &&& s.state is HandshakingAsInitiator <==> cfgs[i].is_initiator
            &&& s.state is HandshakingAsResponder <==> !cfgs[i].is_initiator
            &&& s.next_init_at == if cfgs[i].is_initiator {
                Some(now)
            } else {
                None
            }
            &&& s.cached_init is None
            &&& s.last_rx_at is None && s.last_tx_at is None && s.last_handshake_at is None
            &&& !s.stale
        }),
        (forall|k: int|
            0 <= k < cfgs.len() && k != i ==> (#[trigger] cfgs[k]).peer_endpoint
                != cfgs[i].peer_endpoint) && m.wf() ==> laws::comes_from(
            m,
            cfgs[i].peer_endpoint,
            i,
        ),
        (forall|k: int|
            0 <= k < cfgs.len() && k != i ==> (#[trigger] cfgs[k]).peer_pub != cfgs[i].peer_pub)
            && m.wf() ==> m.pubkeys().contains_key(cfgs[i].peer_pub)
            && m.pubkeys()[cfgs[i].peer_pub] == i,
        m.learned() == Map::<[u8; 32], Endpoint>::empty(),
{
    assert(m.peers()[i].starts(cfgs[i], config.local_keypair, now, clock));
    assert(cfgs[i].peer_endpoint == cfgs[i].peer_endpoint);
    let e = cfgs[i].peer_endpoint;
    if m.wf() {
        let k = m.endpoints()[e] as int;
        assert(m.endpoints().contains_key(e));
        assert(m.peers()[k].starts(cfgs[k], config.local_keypair, now, clock));
        assert(m.peers()[k].config.peer_endpoint == e);
        assert(cfgs[k].peer_endpoint == e);
        let p = cfgs[i].peer_pub;
        let q = m.pubkeys()[p] as int;
        assert(m.pubkeys().contains_key(p));
        assert(m.peers()[q].starts(cfgs[q], config.local_keypair, now, clock));
        assert(m.peers()[q].config.peer_pub == p);
        assert(cfgs[q].peer_pub == p);
    }
}

/// As many sessions count as established as there are established ones.
pub proof fn law_ready_peers_are_counted(peers: Seq<PeerSession>)
    ensures
        manager::count_ready(peers) == peers.filter(|s: PeerSession| s.state is Ready).len(),
    decreases peers.len(),
{
    reveal(Seq::filter);
    if peers.len() > 0 {
        law_ready_peers_are_counted(peers.drop_last());
    }
}

/// A node is ready exactly where it has a peer and every peer has a session; it then
/// counts as many ready peers as it has.
pub proof fn law_when_a_node_is_ready(m: TunnelManager)
    ensures
        m.all_ready() <==> m.peers().len() > 0 && forall|i: int|
            0 <= i < m.peers().len() ==> (#[trigger] m.peers()[i]).state is Ready,
        m.all_ready() <==> m.peers().len() > 0 && manager::count_ready(m.peers())
            == m.peers().len(),
{
    lemma_count(m.peers());
}

proof fn lemma_count(peers: Seq<PeerSession>)
    ensures
        manager::count_ready(peers) <= peers.len(),
        manager::count_ready(peers) == peers.len() <==> forall|i: int|
            0 <= i < peers.len() ==> (#[trigger] peers[i]).ready(),
    decreases peers.len(),
{
    if peers.len() > 0 {
        let front = peers.drop_last();
        lemma_count(front);
        if manager::count_ready(peers) == peers.len() {
            assert forall|i: int| 0 <= i < peers.len() implies (#[trigger] peers[i]).ready() by {
                if i < front.len() {
                    assert(front[i].ready());
                }
            }
        }
        if forall|i: int| 0 <= i < peers.len() ==> (#[trigger] peers[i]).ready() {
            assert forall|i: int| 0 <= i < front.len() implies (#[trigger] front[i]).ready() by {
                assert(peers[i].ready());
            }
            assert(peers[peers.len() - 1].ready());
        }
    }
}

/// The age of what was last sent to a peer is the time since then, and there is none
/// where nothing was ever sent.
pub proof fn law_age_of_last_packet(m: TunnelManager, i: int, now: Instant)
    requires
        0 <= i < m.peers().len(),
    ensures
        match m.peers()[i].last_tx_at {
            None => m.tx_age(i, now) is None,
            Some(t) => m.tx_age(i, now) == Some(
                if now.nanos >= t.nanos {
                    (now.nanos - t.nanos) as nat
                } else {
                    0
                },
            ),
        },
{
}

/// Whether nothing changed but that peer `j` was heard.
pub open spec fn only_heard(v: Move, j: int) -> bool {
    &&& v.after.peers() == v.before.peers().update(
        j,
        PeerSession { last_rx_at: Some(v.now), ..v.before.peers()[j] },
    )
    &&& v.after.endpoints() == v.before.endpoints()
    &&& v.after.pubkeys() == v.before.pubkeys()
}

proof fn lemma_direct(v: Move, source: Endpoint, pkt: Seq<u8>, j: int) -> (mid: TunnelManager)
    requires
        takes_packet(v, source, pkt),
        laws::comes_from(v.before, source, j),
        pkt.len() > 0,
        pkt[0] != 5,
    ensures
        0 <= j < v.before.peers().len(),
        mid.peer_becomes(
            v.before,
            j,
            PeerSession { last_rx_at: Some(v.now), ..v.before.peers()[j] },
        ),
        mid.direct_handled(j, source, pkt, v.now, v.clock, v.after, reaction_of(v)),
{
    lemma_reaction(v, source, pkt);
    let m = v.before;
    let mid = choose|mid: TunnelManager|
        mid.peer_becomes(
            m,
            j,
            PeerSession { last_rx_at: Some(v.now), ..m.peers()[j] },
        ) && #[trigger] mid.direct_handled(
            j,
            source,
            pkt,
            v.now,
            v.clock,
            v.after,
            reaction_of(v),
        );
    assert(mid.direct_handled(j, source, pkt, v.now, v.clock, v.after, reaction_of(v)));
    mid
}

proof fn lemma_enveloped(v: Move, source: Endpoint, pkt: Seq<u8>, j: int) -> (mid: TunnelManager)
    requires
        takes_packet(v, source, pkt),
        is_from(v.before, source, pkt, j),
        pkt[0] == 5,
    ensures
        v.before.heard_by_relay(j, v.before.peers()[j].config.peer_pub, source, v.now, mid),
        mid.relay_handled(source, pkt, v.now, v.clock, v.after, reaction_of(v)),
        manager::key_of(packet::relay_sender(pkt)) == v.before.peers()[j].config.peer_pub,
        mid.pubkeys().contains_key(v.before.peers()[j].config.peer_pub),
{
    lemma_reaction(v, source, pkt);
    let m = v.before;
    let key = m.peers()[j].config.peer_pub;
    manager::lemma_key_of(key);
    assert(m.pubkeys().contains_key(key));
    let mid = choose|mid: TunnelManager|
        m.heard_by_relay(j, key, source, v.now, mid) && #[trigger] mid.relay_handled(
            source,
            pkt,
            v.now,
            v.clock,
            v.after,
            reaction_of(v),
        );
    assert(mid.relay_handled(source, pkt, v.now, v.clock, v.after, reaction_of(v)));
    mid
}

/// A packet from a peer that is cut short is an error: an INIT, a RESPONSE or data that
/// has not its least length. Nothing comes of it but that the peer was heard.
pub proof fn law_short_packets_are_errors(v: Move, source: Endpoint, pkt: Seq<u8>, j: int)
    requires
        takes_packet(v, source, pkt),
        laws::comes_from(v.before, source, j),
        pkt.len() > 0,
        (pkt[0] == 1 && pkt.len() < 148) || (pkt[0] == 2 && pkt.len() < 92) || (pkt[0] == 4
            && pkt.len() < 32),
    ensures
        v.r is Err,
        only_heard(v, j),
{
    let mid = lemma_direct(v, source, pkt, j);
    law_reaction_is_carried_out(v, source, pkt);
}

/// A packet from a peer that begins with another byte than those of an INIT, a
/// RESPONSE, data and an envelope is ignored.
pub proof fn law_other_packets_are_ignored(v: Move, source: Endpoint, pkt: Seq<u8>, j: int)
    requires
        takes_packet(v, source, pkt),
        laws::comes_from(v.before, source, j),
        pkt.len() > 0,
        pkt[0] != 1 && pkt[0] != 2 && pkt[0] != 4 && pkt[0] != 5,
    ensures
        v.r matches Ok((Progress::Receiving, Command::Receive)),
        only_heard(v, j),
{
    let mid = lemma_direct(v, source, pkt, j);
    law_reaction_is_carried_out(v, source, pkt);
}

/// An INIT from a peer is ignored by a node that opens the handshake itself or has given
/// it up. One that comes in an envelope is ignored by a node with a session too.
pub proof fn law_inits_that_are_ignored(v: Move, source: Endpoint, pkt: Seq<u8>, j: int)
    requires
        brings(v, source, pkt, j, 1, 148),
        v.before.peers()[j].state is HandshakingAsInitiator || v.before.peers()[j].state is Init || (
        v.before.peers()[j].ready() && pkt[0] == 5),
    ensures
        v.r matches Ok((Progress::Receiving, Command::Receive)),
        only_heard(v, j),
{
    law_reaction_is_carried_out(v, source, pkt);
    if pkt[0] == 5 {
        let mid = lemma_enveloped(v, source, pkt, j);
        assert(mid.relayed_init_handled(
            j,
            source,
            message_of(pkt),
            v.clock,
            v.after,
            reaction_of(v),
        ));
    } else {
        let mid = lemma_direct(v, source, pkt, j);
    }
}

/// A RESPONSE that nobody waits for is ignored where there is a session without a rekey
/// under way, or no handshake at all; a node that waits for an INIT gives the handshake
/// up.
pub proof fn law_responses_that_nobody_waits_for(v: Move, source: Endpoint, pkt: Seq<u8>, j: int)
    requires
        brings(v, source, pkt, j, 2, 92),
        waiting_initiator(v.before.peers()[j]) is None,
    ensures
        v.r matches Ok((Progress::Receiving, Command::Receive)),
        v.before.peers()[j].state is HandshakingAsResponder ==> v.after.peers()[j].state is Init,
        !(v.before.peers()[j].state is HandshakingAsResponder) ==> v.after.peers()[j].state
            == v.before.peers()[j].state,
        v.after.peers()[j].last_handshake_at == v.before.peers()[j].last_handshake_at,
        v.after.peers()[j].stale == v.before.peers()[j].stale,
{
    let mid = lemma_response(v, source, pkt, j);
    law_reaction_is_carried_out(v, source, pkt);
}

/// An envelope of a peer that is for this node, and holds neither an INIT nor a RESPONSE
/// nor data, is an error.
pub proof fn law_envelopes_hold_messages(v: Move, source: Endpoint, pkt: Seq<u8>, j: int)
    requires
        takes_packet(v, source, pkt),
        is_from(v.before, source, pkt, j),
        pkt[0] == 5,
        pkt.subrange(33, 37) == v.before.config().local_ip@,
        pkt.len() == 37 || (pkt[37] != 1 && pkt[37] != 2 && pkt[37] != 4),
    ensures
        v.r is Err,
        only_heard(v, j),
{
    let mid = lemma_enveloped(v, source, pkt, j);
    law_reaction_is_carried_out(v, source, pkt);
    if pkt.len() > 37 {
        assert(packet::relay_inner(pkt)[0] == pkt[37]);
    }
}

/// An envelope of a peer that is for another node is passed on as it came: to where the
/// peer with that mesh address was last heard in an envelope, or else to its endpoint.
/// For a mesh address that no peer has it is an error. No session changes but that the
/// sender was heard.
pub proof fn law_envelope_is_passed_on(
    v: Move,
    source: Endpoint,
    pkt: Seq<u8>,
    j: int,
    k: int,
)
    requires
        takes_packet(v, source, pkt),
        is_from(v.before, source, pkt, j),
        pkt[0] == 5,
        pkt.subrange(33, 37) != v.before.config().local_ip@,
        0 <= k <= v.before.peers().len(),
        forall|i: int|
            0 <= i < k ==> (#[trigger] v.before.peers()[i]).config.peer_ip@ != pkt.subrange(33, 37),
        k < v.before.peers().len() ==> v.before.peers()[k].config.peer_ip@ == pkt.subrange(33, 37),
    ensures
        only_heard(v, j),
        v.after.learned() == if v.before.endpoints().contains_key(source) {
            v.before.learned()
        } else {
            v.before.learned().insert(v.before.peers()[j].config.peer_pub, source)
        },
        if k < v.before.peers().len() {
            let c = v.before.peers()[k].config;
            &&& v.r matches Ok((
                Progress::Answering { then_do: Then::Nothing },
                Command::Send { out },
            )) && out.packet@ == pkt && out.to == if v.after.learned().contains_key(c.peer_pub) {
                v.after.learned()[c.peer_pub]
            } else {
                c.peer_endpoint
            }
        } else {
            v.r is Err
        },
{
    let mid = lemma_enveloped(v, source, pkt, j);
    law_reaction_is_carried_out(v, source, pkt);
    let dest = pkt.subrange(33, 37);
    if k < v.before.peers().len() {
        assert(mid.first_with_ip(k, dest)) by {
            assert forall|i: int| 0 <= i < k implies (#[trigger] mid.peers()[i]).config.peer_ip@
                != dest by {
                assert(v.before.peers()[i].config.peer_ip@ != dest);
            }
        }
        laws::lemma_peer_with_ip(mid, k, dest);
    } else if mid.peer_with_ip(dest) is Some {
        let i = choose|i: int| mid.first_with_ip(i, dest);
        assert(mid.first_with_ip(i, dest));
        assert(v.before.peers()[i].config.peer_ip@ != dest);
    }
}

/// A peer that waits to be answered at a new address is answered there: a node that
/// waits for the first INIT of the peer sends its RESPONSE to where the INIT came from.
pub proof fn law_moved_peer_is_answered(v: Move, source: Endpoint, pkt: Seq<u8>, j: int)
    requires
        takes_packet(v, source, pkt),
        !v.before.endpoints().contains_key(source),
        pkt.len() >= 148,
        pkt[0] == 1,
        0 <= j < v.before.peers().len() <= usize::MAX,
        crate::crypto::laws::ends_in_code(pkt, 132, v.before.peers()[j].config.peer_pub@),
        forall|k: int|
            0 <= k < j ==> !crate::crypto::laws::ends_in_code(
                pkt,
                132,
                (#[trigger] v.before.peers()[k]).config.peer_pub@,
            ),
        v.before.peers()[j].state matches PeerState::HandshakingAsResponder(w)
            && crate::crypto::handshake::init_refusal(
            w.party(),
            v.clock.secs(),
            w.own_public(),
            pkt,
        ) is None,
    ensures
        v.r matches Ok((
            Progress::Answering { then_do: Then::Establish { peer, peer_sender_id } },
            Command::Send { out },
        )) && peer == j && peer_sender_id == bytes::from_le32(pkt.subrange(4, 8)) && out.to
            == source && is_response(v.before, j, out.packet@, pkt),
{
    lemma_reaction(v, source, pkt);
    law_reaction_is_carried_out(v, source, pkt);
    let m = v.before;
    let r = reaction_of(v);
    assert(m.first_with_code(j, pkt));
    let c = choose|c: int| m.first_with_code(c, pkt);
    assert(m.first_with_code(c, pkt));
    assert(c == j) by {
        if c < j {
            assert(!crate::crypto::laws::ends_in_code(pkt, 132, m.peers()[c].config.peer_pub@));
        } else if j < c {
            assert(!crate::crypto::handshake::code_is_valid(
                pkt,
                148,
                m.peers()[j].config.peer_pub@,
            ));
        }
    }
    let mid = choose|mid: TunnelManager|
        m.moved(j, source, v.now, mid) && #[trigger] mid.init_handled(
            j,
            source,
            pkt,
            v.clock,
            v.after,
            r,
        );
    assert(mid.init_answered(j, source, pkt, false, v.clock, v.after, r));
    assert(m.peers()[j].wf(m.keys()));
    let waiting = m.peers()[j].state->HandshakingAsResponder_0;
    let out = (v.r->Ok_0).1->Send_out;
    crate::crypto::laws::law_response_layout(
        waiting.party(),
        waiting.id(),
        pkt,
        v.after.peers()[j].state->HandshakingAsResponder_0.party(),
        out.packet@,
    );
}

/// The age of the last handshake with a peer is the time since it completed, and there is
/// none where none ever did. Of a peer that there is not, nothing is known.
pub proof fn law_age_of_last_handshake(m: TunnelManager, i: int, now: Instant)
    ensures
        0 <= i < m.peers().len() ==> match m.peers()[i].last_handshake_at {
            None => m.handshake_age(i, now) is None,
            Some(t) => m.handshake_age(i, now) == Some(
                if now.nanos >= t.nanos {
                    (now.nanos - t.nanos) as nat
                } else {
                    0
                },
            ),
        },
        !(0 <= i < m.peers().len()) ==> m.handshake_age(i, now) is None && m.tx_age(i, now) is None
            && !m.stale_at(i),
        0 <= i < m.peers().len() ==> m.stale_at(i) == m.peers()[i].stale,
{
}

/// Waiting for all peers ends when no step is left, or when there is a peer and every
/// peer has a session; until then each step leaves one less.
pub proof fn law_waiting_comes_to_an_end(m: TunnelManager, left: usize)
    ensures
        match m.awaited(left) {
            manager::Wait::TimedOut => left == 0,
            manager::Wait::Ready => left > 0 && m.peers().len() > 0 && forall|i: int|
                0 <= i < m.peers().len() ==> (#[trigger] m.peers()[i]).state is Ready,
            manager::Wait::Step { left: rest } => {
                &&& rest + 1 == left
                &&& m.peers().len() == 0 || exists|i: int|
                    0 <= i < m.peers().len() && !((#[trigger] m.peers()[i]).state is Ready)
            },
        },
{
}

/// Every handshake is bound to the same words and to the pre-shared key of the peer. The
/// side that opens knows the peer's key from the start; both use the node's own secret.
pub proof fn law_what_handshakes_start_from(
    keys: crate::crypto::keys::Keypair,
    cfg: PeerConfig,
)
    ensures
        ({
            let i = session::fresh_initiating(keys, cfg);
            let r = session::fresh_responding(keys, cfg);
            let words = vstd::utf8::encode_utf8("WireGuard v1 zx2c4 Jason@zx2c4.com"@);
            &&& i.prologue == words && r.prologue == words
            &&& i.psk == cfg.psk@ && r.psk == cfg.psk@
            &&& i.local_secret == keys.secret() && r.local_secret == keys.secret()
            &&& i.initiator && !r.initiator
            &&& i.remote_public == Some(cfg.peer_pub@) && r.remote_public is None
            &&& i.messages.len() == 0 && r.messages.len() == 0
        }),
{
}

/// Of the packets that are meant for a peer with a session, those of up to 1568 bytes go
/// out, and a longer one is an error that changes no session.
pub proof fn law_how_long_packets_may_be(v: Move, pkt: Seq<u8>, i: int)
    requires
        takes_device_packet(v, pkt),
        is_meant_for(v.before, pkt, i),
        v.before.peers()[i].ready(),
    ensures
        pkt.len() <= 1568 ==> (v.r matches Ok((
            Progress::DataSent { peer, .. },
            Command::Send { .. },
        )) && peer == i),
        pkt.len() > 1568 ==> v.r is Err && v.after.peers() == v.before.peers(),
{
    reveal(Move::made);
    let m = v.before;
    let ip = pkt.subrange(16, 20);
    assert(m.first_with_ip(i, ip));
    laws::lemma_peer_with_ip(m, i, ip);
    assert(pkt[0] / 16 == 4);
    assert(m.destination(pkt) == Some(i));
}

/// An INIT or a RESPONSE that comes in an envelope for this node and is cut short is an
/// error, and so is data of a peer with a session that is not stale, where it is cut short
/// or the session does not open it. The session then is as it was.
pub proof fn law_bad_messages_in_envelopes_are_errors(
    v: Move,
    source: Endpoint,
    pkt: Seq<u8>,
    j: int,
)
    requires
        takes_packet(v, source, pkt),
        is_from(v.before, source, pkt, j),
        pkt[0] == 5,
        pkt.subrange(33, 37) == v.before.config().local_ip@,
        pkt.len() > 37,
        (pkt[37] == 1 && pkt.len() < 37 + 148) || (pkt[37] == 2 && pkt.len() < 37 + 92) || (pkt[37]
            == 4 && v.before.peers()[j].ready() && !v.before.peers()[j].stale && (pkt.len() < 37
            + 32 || v.before.peers()[j].state->transport.refusal(pkt.skip(37), 1500) is Some)),
    ensures
        v.r is Err,
        v.after.peers()[j].last_rx_at == Some(v.now),
        v.before.peers()[j].ready() ==> {
            &&& same_but_transport(
                PeerSession { last_rx_at: Some(v.now), ..v.before.peers()[j] },
                v.after.peers()[j],
            )
            &&& v.after.peers()[j].state->transport.session()
                == v.before.peers()[j].state->transport.session()
        },
        !v.before.peers()[j].ready() ==> v.after.peers()[j].state == v.before.peers()[j].state,
{
    let mid = lemma_enveloped(v, source, pkt, j);
    law_reaction_is_carried_out(v, source, pkt);
    let inner = packet::relay_inner(pkt);
    assert(inner[0] == pkt[37]);
    if pkt[37] == 4 {
        assert(mid.relayed_transport_handled(j, inner, v.after, reaction_of(v)));
    }
}

} // verus!
