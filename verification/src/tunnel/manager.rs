//! The tunnel manager: what to do with every packet that arrives, what to send
//! and when.

use crate::bytes;
use crate::crypto;
use crate::crypto::handshake;
use crate::crypto::handshake::{
    Initiator, Responder, INIT_SIZE, MESSAGE_TYPE_INIT, MESSAGE_TYPE_RELAY, MESSAGE_TYPE_RESPONSE,
    RESPONSE_SIZE,
};
use crate::crypto::keys::Keypair;
use crate::crypto::timestamp::Tai64N;
use crate::crypto::transport::{Transport, MESSAGE_TYPE_TRANSPORT};
use crate::net::Endpoint;
use crate::table::Table;
use crate::time::{Duration, Instant};
use crate::tunnel::error::{invalid, Error};
use crate::tunnel::packet;
use crate::tunnel::packet::{Outgoing, RELAY_HEADER_SIZE};
use crate::tunnel::session;
use crate::tunnel::session::{
    Action, Due, ManagerConfig, ManagerTimings, PeerConfig, PeerSession, PeerState, Rehandshake,
    INIT_RETRY_NANOS,
};
use vstd::prelude::*;
use vstd::slice::slice_to_vec;

verus! {

/// The largest packet of the tunnel device.
pub const DEVICE_MTU: usize = 1500;

/// What remains to be done once a packet is on its way.
pub enum Then {
    /// Nothing.
    Nothing,
    /// Enter the session that the sent RESPONSE opens.
    Establish { peer: usize, peer_sender_id: u32 },
    /// Put a rekeyed session in the place of the old one.
    Rekey { peer: usize, transport: Transport, peer_sender_id: u32 },
}

/// What a packet that arrived leads to.
pub enum Reaction {
    /// Nothing.
    Nothing,
    /// A packet is to be sent.
    Send { out: Outgoing, then_do: Then },
    /// Data is to be handed to the tunnel device.
    Deliver { data: Vec<u8> },
}

/// What remains to be done once the packet of an action is on its way.
pub enum Followup {
    /// Note that data was sent.
    KeepaliveSent,
    /// Wait for the answer to a rekey.
    RekeyOpened { initiator: Initiator, init_msg: Vec<u8> },
    /// Wait for the answer to a rekey once more.
    RekeyRetried,
}

/// Where a step stands.
pub enum Progress {
    /// Before the first command.
    Begin,
    /// A packet was asked for.
    Receiving,
    /// The answer to a packet was handed out for sending.
    Answering { then_do: Then },
    /// Data was handed out for the device.
    Delivering,
    /// The INIT timer of a peer is to be looked at.
    Initiating { peer: usize, at: Instant },
    /// The INIT for a peer was handed out for sending.
    InitSent { peer: usize, at: Instant },
    /// A packet of the device was asked for.
    Reading { at: Instant },
    /// Data for a peer was handed out for sending.
    DataSent { peer: usize, at: Instant },
    /// Actions are to be performed.
    Maintaining { at: Instant, actions: Vec<(usize, Action)> },
    /// The packet of an action was handed out for sending.
    ActionSent { peer: usize, follow: Followup, at: Instant, actions: Vec<(usize, Action)> },
}

/// What a step asks of its surroundings.
pub enum Command {
    /// Nothing: go on.
    Proceed,
    /// Receive a packet, if one has arrived.
    Receive,
    /// Send a packet.
    Send { out: Outgoing },
    /// Write data to the device.
    Deliver { data: Vec<u8> },
    /// Read a packet of the device, if there is one.
    ReadDevice,
    /// Nothing: the step is over.
    Finished,
}

/// How a command went.
pub enum Outcome {
    /// It was carried out.
    Done,
    /// A packet was received from a source, or none had arrived.
    Received { packet: Option<(Endpoint, Vec<u8>)> },
    /// A packet was read from the device, or there was none.
    Read { data: Option<Vec<u8>> },
}

/// What to do while waiting for all peers.
#[derive(Debug, Clone, Copy, PartialEq, Eq, Structural)]
pub enum Wait {
    /// Nothing: all peers are ready.
    Ready,
    /// Give up.
    TimedOut,
    /// Make a step, and then go on with so many left.
    Step { left: usize },
}

/// How many of the sessions are established.
pub open spec fn count_ready(peers: Seq<PeerSession>) -> nat
    decreases peers.len(),
{
    if peers.len() == 0 {
        0
    } else {
        count_ready(peers.drop_last()) + if peers.last().ready() {
            1nat
        } else {
            0
        }
    }
}

/// What the timers of the first `n` peers call for, in the order of the peers.
pub open spec fn all_due(
    peers: Seq<PeerSession>,
    n: nat,
    timings: ManagerTimings,
    now: Instant,
) -> Seq<(usize, Due)>
    decreases n,
{
    if n == 0 {
        Seq::empty()
    } else {
        let i = (n - 1) as nat;
        all_due(peers, i, timings, now) + peers[i as int].due(timings, now).map_values(
            |d: Due| (i as usize, d),
        )
    }
}

/// The key with the given bytes.
pub open spec fn key_of(bytes: Seq<u8>) -> [u8; 32] {
    choose|k: [u8; 32]| k@ == bytes
}

pub proof fn lemma_key_of(k: [u8; 32])
    ensures
        key_of(k@) == k,
{
    let c = key_of(k@);
    assert(c@ == k@);
    assert(c =~= k);
}

/// The identifier of the sender of a handshake message.
pub open spec fn sender_of(pkt: Seq<u8>) -> u32 {
    bytes::from_le32(pkt.subrange(4, 8))
}

/// All peers of a node and their sessions.
pub struct TunnelManager {
    config: ManagerConfig,
    peers: Vec<PeerSession>,
    endpoint_to_peer: Table<Endpoint, usize>,
    pubkey_to_peer: Table<[u8; 32], usize>,
    learned_endpoints: Table<[u8; 32], Endpoint>,
    last_maintenance_at: Instant,
}

impl TunnelManager {
    /// What the manager knows of its own node.
    pub closed spec fn config(self) -> ManagerConfig {
        self.config
    }

    /// The sessions, one per peer.
    pub closed spec fn peers(self) -> Seq<PeerSession> {
        self.peers@
    }

    /// The peer behind each known endpoint.
    pub closed spec fn endpoints(self) -> Map<Endpoint, usize> {
        self.endpoint_to_peer@
    }

    /// The peer with each known public key.
    pub closed spec fn pubkeys(self) -> Map<[u8; 32], usize> {
        self.pubkey_to_peer@
    }

    /// The addresses from which relayed packets of a peer last came.
    pub closed spec fn learned(self) -> Map<[u8; 32], Endpoint> {
        self.learned_endpoints@
    }

    /// When the timers were last looked at.
    pub closed spec fn last_maintenance(self) -> Instant {
        self.last_maintenance_at
    }

    /// The node's static keys.
    pub open spec fn keys(self) -> Keypair {
        self.config().local_keypair
    }

    /// The tables hold every key at most once.
    pub closed spec fn tables_wf(self) -> bool {
        &&& self.endpoint_to_peer.wf()
        &&& self.pubkey_to_peer.wf()
        &&& self.learned_endpoints.wf()
    }

    /// The sessions act for this node, every known endpoint and public key belongs
    /// to the peer that it leads to, and every peer can be found by its public
    /// key.
    pub open spec fn wf(self) -> bool {
        &&& self.tables_wf()
        &&& forall|i: int|
            0 <= i < self.peers().len() ==> (#[trigger] self.peers()[i]).wf(self.keys())
        &&& forall|e: Endpoint| #[trigger]
            self.endpoints().contains_key(e) ==> self.endpoints()[e] < self.peers().len()
                && self.peers()[self.endpoints()[e] as int].config.peer_endpoint == e
        &&& forall|k: [u8; 32]| #[trigger]
            self.pubkeys().contains_key(k) ==> self.pubkeys()[k] < self.peers().len()
                && self.peers()[self.pubkeys()[k] as int].config.peer_pub == k
        &&& forall|i: int|
            0 <= i < self.peers().len() ==> self.pubkeys().contains_key(
                (#[trigger] self.peers()[i]).config.peer_pub,
            )
    }

    /// Whether only the sessions may differ.
    pub open spec fn same_but_peers(self, before: TunnelManager) -> bool {
        &&& self.config() == before.config()
        &&& self.endpoints() == before.endpoints()
        &&& self.pubkeys() == before.pubkeys()
        &&& self.learned() == before.learned()
        &&& self.last_maintenance() == before.last_maintenance()
    }

    /// Whether nothing changed but the session with peer `i`, which is now `s`.
    pub open spec fn peer_becomes(self, before: TunnelManager, i: int, s: PeerSession) -> bool {
        &&& self.same_but_peers(before)
        &&& self.peers() == before.peers().update(i, s)
    }

    /// Whether nothing changed.
    pub open spec fn unchanged(self, before: TunnelManager) -> bool {
        &&& self.same_but_peers(before)
        &&& self.peers() == before.peers()
    }

    /// What a transport packet of peer `i` leads to: it is dropped unless the peer
    /// has a session and is not stale; a packet that does not decrypt is dropped
    /// too; an empty plaintext is a keepalive, anything else goes to the device.
    pub open spec fn transport_handled(
        self,
        i: int,
        pkt: Seq<u8>,
        after: TunnelManager,
        r: Result<Option<Vec<u8>>, Error>,
    ) -> bool {
        let peer = self.peers()[i];
        if pkt.len() < 32 {
            &&& r matches Err(e) && e.is_invalid("transport packet too short"@)
            &&& after.unchanged(self)
        } else if peer.stale || !peer.ready() {
            &&& r matches Ok(None)
            &&& after.unchanged(self)
        } else {
            let t = peer.state->transport;
            let u = after.peers()[i].state->transport;
            &&& after.peer_becomes(self, i, peer.with_transport(u))
            &&& u.received(t, pkt, DEVICE_MTU as nat)
            &&& match r {
                Ok(Some(data)) => t.refusal(pkt, DEVICE_MTU as nat) is None && data@
                    == t.plaintext(pkt) && data@.len() > 0,
                Ok(None) => t.refusal(pkt, DEVICE_MTU as nat) is None ==> t.plaintext(pkt).len()
                    == 0,
                Err(_) => false,
            }
        }
    }

    fn handle_transport(&mut self, peer_idx: usize, pkt: &[u8]) -> (r: Result<
        Option<Vec<u8>>,
        Error,
    >)
        requires
            old(self).wf(),
            peer_idx < old(self).peers().len(),
        ensures
            final(self).wf(),
            old(self).transport_handled(peer_idx as int, pkt@, *final(self), r),
    {
        if pkt.len() < 32 {
            return Err(invalid("transport packet too short"));
        }
        if self.peers[peer_idx].stale || !self.peers[peer_idx].is_ready() {
            return Ok(None);
        }
        let mut data: Option<Vec<u8>> = None;
        match &mut self.peers[peer_idx].state {
            PeerState::Ready { transport, .. } => {
                let mut out = [0u8; 1500];
                match transport.decrypt(pkt, &mut out) {
                    Ok(n) => {
                        if n > 0 {
                            data = Some(slice_to_vec(&out[0..n]));
                            assert(data->0@ =~= old(self).peers@[peer_idx as int].state->transport.plaintext(pkt@));
                        }
                    },
                    Err(_) => {},
                }
            },
            _ => {},
        }
        proof {
            let u = self.peers@[peer_idx as int].state->transport;
            assert(self.peers@[peer_idx as int] == old(self).peers@[peer_idx as int].with_transport(u));
        }
        Ok(data)
    }

    /// What a RESPONSE of peer `i` leads to. It completes a rekey that is under
    /// way, which also ends that the peer is stale, or the first handshake; a
    /// refused one ends the attempt. A RESPONSE of a peer with a session that waits
    /// for none is dropped; one of a peer that is to open the handshake ends that we
    /// wait for it.
    pub open spec fn response_handled(
        self,
        i: int,
        pkt: Seq<u8>,
        now: Instant,
        after: TunnelManager,
        r: Result<(), Error>,
    ) -> bool {
        let peer = self.peers()[i];
        let sid = sender_of(pkt);
        let u = after.peers()[i].state->transport;
        let established = PeerSession {
            state: PeerState::Ready {
                transport: u,
                peer_sender_id: sid,
                rehandshake: None,
            },
            last_handshake_at: Some(now),
            ..peer
        };
        if pkt.len() < RESPONSE_SIZE {
            &&& r matches Err(e) && e.is_invalid("response message too short"@)
            &&& after.unchanged(self)
        } else {
            match peer.state {
                PeerState::Ready { transport, peer_sender_id, rehandshake: Some(rs) } => {
                    match rs.initiator.response_refusal(pkt) {
                        Some(e) => {
                            &&& r == Err::<(), Error>(Error::Crypto(e))
                            &&& after.peer_becomes(
                                self,
                                i,
                                PeerSession {
                                    state: PeerState::Ready {
                                        transport,
                                        peer_sender_id,
                                        rehandshake: None,
                                    },
                                    ..peer
                                },
                            )
                        },
                        None => {
                            &&& r is Ok
                            &&& rs.initiator.entered(pkt, u)
                            &&& after.peer_becomes(
                                self,
                                i,
                                PeerSession { stale: false, ..established },
                            )
                        },
                    }
                },
                PeerState::HandshakingAsInitiator(ini) => {
                    match ini.response_refusal(pkt) {
                        Some(e) => {
                            &&& r == Err::<(), Error>(Error::Crypto(e))
                            &&& after.peer_becomes(
                                self,
                                i,
                                PeerSession { state: PeerState::Init, ..peer },
                            )
                        },
                        None => {
                            &&& r is Ok
                            &&& ini.entered(pkt, u)
                            &&& after.peer_becomes(self, i, established)
                        },
                    }
                },
                PeerState::HandshakingAsResponder(_) => {
                    &&& r is Ok
                    &&& after.peer_becomes(self, i, PeerSession { state: PeerState::Init, ..peer })
                },
                _ => {
                    &&& r is Ok
                    &&& after.unchanged(self)
                },
            }
        }
    }

    fn handle_response(&mut self, peer_idx: usize, pkt: &[u8], now: Instant) -> (r: Result<
        (),
        Error,
    >)
        requires
            old(self).wf(),
            peer_idx < old(self).peers().len(),
        ensures
            final(self).wf(),
            old(self).response_handled(peer_idx as int, pkt@, now, *final(self), r),
    {
        if pkt.len() < RESPONSE_SIZE {
            return Err(invalid("response message too short"));
        }
        match &self.peers[peer_idx].state {
            PeerState::Ready { rehandshake: Some(_), .. } => {},
            PeerState::HandshakingAsInitiator(_) => {},
            PeerState::HandshakingAsResponder(_) => {},
            _ => return Ok(()),
        }
        let sid: u32 = bytes::u32_from_le(&pkt[4..8]);
        let mut taken = PeerState::Init;
        let peer = &mut self.peers[peer_idx];
        std::mem::swap(&mut peer.state, &mut taken);
        match taken {
            PeerState::Ready { transport, peer_sender_id, rehandshake: Some(rs) } => {
                match rs.initiator.consume_response(pkt) {
                    Ok(fresh) => {
                        peer.state = PeerState::Ready {
                            transport: fresh,
                            peer_sender_id: sid,
                            rehandshake: None,
                        };
                        peer.last_handshake_at = Some(now);
                        peer.stale = false;
                        Ok(())
                    },
                    Err(e) => {
                        peer.state = PeerState::Ready {
                            transport,
                            peer_sender_id,
                            rehandshake: None,
                        };
                        Err(Error::Crypto(e))
                    },
                }
            },
            PeerState::HandshakingAsInitiator(initiator) => {
                match initiator.consume_response(pkt) {
                    Ok(transport) => {
                        peer.state = PeerState::Ready {
                            transport,
                            peer_sender_id: sid,
                            rehandshake: None,
                        };
                        peer.last_handshake_at = Some(now);
                        Ok(())
                    },
                    Err(e) => Err(Error::Crypto(e)),
                }
            },
            _ => Ok(()),
        }
    }

    /// Whether what remains to be done after a packet can be done.
    pub open spec fn may_finish(self, then_do: Then) -> bool {
        match then_do {
            Then::Nothing => true,
            Then::Establish { peer, .. } => {
                &&& peer < self.peers().len()
                &&& self.peers()[peer as int].state matches PeerState::HandshakingAsResponder(r)
                &&& r.party().finished()
            },
            Then::Rekey { peer, transport, .. } => {
                &&& peer < self.peers().len()
                &&& self.peers()[peer as int].ready()
                &&& transport.wf()
                &&& transport.id() == self.peers()[peer as int].config.local_sender_id
            },
        }
    }

    /// What finishing does once the packet is on its way.
    pub open spec fn finished(self, then_do: Then, now: Instant, after: TunnelManager) -> bool {
        match then_do {
            Then::Nothing => after.unchanged(self),
            Then::Establish { peer, peer_sender_id } => {
                let s = self.peers()[peer as int];
                let r = s.state->HandshakingAsResponder_0;
                let u = after.peers()[peer as int].state->transport;
                &&& r.derived(u)
                &&& after.peer_becomes(
                    self,
                    peer as int,
                    PeerSession {
                        state: PeerState::Ready {
                            transport: u,
                            peer_sender_id,
                            rehandshake: None,
                        },
                        last_handshake_at: Some(now),
                        last_rx_at: Some(now),
                        last_tx_at: Some(now),
                        ..s
                    },
                )
            },
            Then::Rekey { peer, transport, peer_sender_id } => {
                let s = self.peers()[peer as int];
                after.peer_becomes(
                    self,
                    peer as int,
                    PeerSession {
                        state: PeerState::Ready {
                            transport,
                            peer_sender_id,
                            rehandshake: s.state->rehandshake,
                        },
                        last_handshake_at: Some(now),
                        last_tx_at: Some(now),
                        stale: false,
                        ..s
                    },
                )
            },
        }
    }

    fn finish(&mut self, then_do: Then, now: Instant)
        requires
            old(self).wf(),
            old(self).may_finish(then_do),
        ensures
            final(self).wf(),
            old(self).finished(then_do, now, *final(self)),
    {
        match then_do {
            Then::Nothing => {},
            Then::Establish { peer, peer_sender_id } => {
                let mut taken = PeerState::Init;
                let s = &mut self.peers[peer];
                std::mem::swap(&mut s.state, &mut taken);
                if let PeerState::HandshakingAsResponder(r) = taken {
                    if let Ok(transport) = r.into_transport() {
                        s.state = PeerState::Ready {
                            transport,
                            peer_sender_id,
                            rehandshake: None,
                        };
                        s.last_handshake_at = Some(now);
                        s.last_rx_at = Some(now);
                        s.last_tx_at = Some(now);
                    }
                }
            },
            Then::Rekey { peer, transport: fresh, peer_sender_id: sid } => {
                let s = &mut self.peers[peer];
                match &mut s.state {
                    PeerState::Ready { transport, peer_sender_id, .. } => {
                        *transport = fresh;
                        *peer_sender_id = sid;
                    },
                    _ => {},
                }
                s.last_handshake_at = Some(now);
                s.last_tx_at = Some(now);
                s.stale = false;
            },
        }
    }

    /// What an INIT of peer `i` leads to while we wait for one. A refused INIT
    /// makes us wait afresh; an accepted one is answered, in a relay envelope
    /// where `wrapped`, and the session starts once the answer is on its way.
    pub open spec fn init_answered(
        self,
        i: int,
        source: Endpoint,
        pkt: Seq<u8>,
        wrapped: bool,
        clock: Tai64N,
        after: TunnelManager,
        r: Result<Reaction, Error>,
    ) -> bool {
        let peer = self.peers()[i];
        let waiting = peer.state->HandshakingAsResponder_0;
        let now_waiting = after.peers()[i].state->HandshakingAsResponder_0;
        &&& after.peer_becomes(
            self,
            i,
            PeerSession { state: PeerState::HandshakingAsResponder(now_waiting), ..peer },
        )
        &&& if handshake::init_refusal(
            waiting.party(),
            clock.secs(),
            waiting.own_public(),
            pkt,
        ) is Some {
            &&& r matches Ok(Reaction::Nothing)
            &&& session::responder_for(now_waiting, self.keys(), peer.config)
            &&& now_waiting.party() == session::fresh_responding(self.keys(), peer.config)
            &&& now_waiting.time() == clock
        } else {
            &&& r matches Ok(Reaction::Send { out, then_do: Then::Establish { peer: p, peer_sender_id } })
            &&& p == i && peer_sender_id == sender_of(pkt)
            &&& out.to == source
            &&& now_waiting.id() == waiting.id()
            &&& now_waiting.own_public() == waiting.own_public()
            &&& now_waiting.time() == clock
            &&& ({
                let response = if wrapped {
                    packet::relay_inner(out.packet@)
                } else {
                    out.packet@
                };
                &&& wrapped ==> out.packet@ == packet::relayed(
                    self.keys().public_key(),
                    peer.config.peer_ip@,
                    response,
                )
                &&& handshake::response_written(
                    waiting.party(),
                    waiting.id(),
                    pkt,
                    now_waiting.party(),
                    response,
                )
            })
        }
    }

    /// What an INIT of peer `i` leads to while there is a session: an accepted one
    /// is answered, and the rekeyed session takes over once the answer is on its
    /// way; a refused one is ignored.
    pub open spec fn rekey_answered(
        self,
        i: int,
        source: Endpoint,
        pkt: Seq<u8>,
        clock: Tai64N,
        after: TunnelManager,
        r: Result<Reaction, Error>,
    ) -> bool {
        let peer = self.peers()[i];
        let fresh = session::fresh_responding(self.keys(), peer.config);
        let id = peer.config.local_sender_id;
        &&& after.unchanged(self)
        &&& if handshake::init_refusal(
            fresh,
            clock.secs(),
            self.keys().public_key(),
            pkt,
        ) is Some {
            r matches Ok(Reaction::Nothing)
        } else {
            &&& r matches Ok(Reaction::Send {
                out,
                then_do: Then::Rekey { peer: p, transport, peer_sender_id },
            })
            &&& p == i && peer_sender_id == sender_of(pkt)
            &&& out.to == source
            &&& exists|q: crypto::noise::NoiseParty|
                handshake::response_written(fresh, id, pkt, q, out.packet@)
                    && #[trigger] handshake::session_derived(q, id, transport)
        }
    }

    /// What an INIT of peer `i` that came directly leads to.
    pub open spec fn init_handled(
        self,
        i: int,
        source: Endpoint,
        pkt: Seq<u8>,
        clock: Tai64N,
        after: TunnelManager,
        r: Result<Reaction, Error>,
    ) -> bool {
        if pkt.len() < INIT_SIZE {
            &&& r matches Err(e) && e.is_invalid("init message too short"@)
            &&& after.unchanged(self)
        } else {
            match self.peers()[i].state {
                PeerState::Ready { .. } => self.rekey_answered(i, source, pkt, clock, after, r),
                PeerState::HandshakingAsResponder(_) => self.init_answered(
                    i,
                    source,
                    pkt,
                    false,
                    clock,
                    after,
                    r,
                ),
                _ => {
                    &&& r matches Ok(Reaction::Nothing)
                    &&& after.unchanged(self)
                },
            }
        }
    }

    /// What an INIT of peer `i` that came through a relay leads to.
    pub open spec fn relayed_init_handled(
        self,
        i: int,
        source: Endpoint,
        pkt: Seq<u8>,
        clock: Tai64N,
        after: TunnelManager,
        r: Result<Reaction, Error>,
    ) -> bool {
        if pkt.len() < INIT_SIZE {
            &&& r matches Err(e) && e.is_invalid("init message too short"@)
            &&& after.unchanged(self)
        } else if self.peers()[i].state is HandshakingAsResponder {
            self.init_answered(i, source, pkt, true, clock, after, r)
        } else {
            &&& r matches Ok(Reaction::Nothing)
            &&& after.unchanged(self)
        }
    }

    /// Whether a reaction, if there is one, can be finished.
    pub open spec fn may_react(self, r: Result<Reaction, Error>) -> bool {
        r matches Ok(Reaction::Send { then_do, .. }) ==> self.may_finish(then_do)
    }

    /// Answers an INIT for a peer that we wait for: the RESPONSE, or `None` where
    /// the INIT is refused and we wait afresh.
    fn answer_init(&mut self, peer_idx: usize, pkt: &[u8], clock: Tai64N) -> (r: Option<
        [u8; 92],
    >)
        requires
            old(self).wf(),
            peer_idx < old(self).peers().len(),
            old(self).peers()[peer_idx as int].state is HandshakingAsResponder,
        ensures
            final(self).wf(),
            ({
                let peer = old(self).peers()[peer_idx as int];
                let waiting = peer.state->HandshakingAsResponder_0;
                let s = final(self).peers()[peer_idx as int].state;
                let now_waiting = s->HandshakingAsResponder_0;
                let refusal = handshake::init_refusal(
                    waiting.party(),
                    clock.secs(),
                    waiting.own_public(),
                    pkt@,
                );
                &&& s is HandshakingAsResponder
                &&& final(self).peer_becomes(
                    *old(self),
                    peer_idx as int,
                    PeerSession { state: s, ..peer },
                )
                &&& now_waiting.time() == clock
                &&& match r {
                    Some(response) => {
                        &&& refusal is None
                        &&& now_waiting.id() == waiting.id()
                        &&& now_waiting.own_public() == waiting.own_public()
                        &&& handshake::response_written(
                            waiting.party(),
                            waiting.id(),
                            pkt@,
                            now_waiting.party(),
                            response@,
                        )
                    },
                    None => {
                        &&& refusal is Some
                        &&& session::responder_for(now_waiting, old(self).keys(), peer.config)
                        &&& now_waiting.party() == session::fresh_responding(
                            old(self).keys(),
                            peer.config,
                        )
                    },
                }
            }),
    {
        let mut answer: Option<[u8; 92]> = None;
        let peer = &mut self.peers[peer_idx];
        match &mut peer.state {
            PeerState::HandshakingAsResponder(responder) => {
                responder.set_current_time(clock);
                match responder.consume_init(pkt) {
                    Ok(response) => {
                        answer = Some(response);
                    },
                    Err(_) => {},
                }
            },
            _ => {},
        }
        if answer.is_none() {
            let fresh = Responder::new(
                &self.config.local_keypair,
                self.peers[peer_idx].config.psk,
                self.peers[peer_idx].config.local_sender_id,
                clock,
            );
            if let Ok(f) = fresh {
                self.peers[peer_idx].state = PeerState::HandshakingAsResponder(f);
            }
        }
        proof {
            let peer = old(self).peers@[peer_idx as int];
            let s = self.peers@[peer_idx as int].state;
            assert(self.peers@ =~= old(self).peers@.update(
                peer_idx as int,
                PeerSession { state: s, ..peer },
            ));
        }
        answer
    }

    fn handle_init(&mut self, peer_idx: usize, source: Endpoint, pkt: &[u8], clock: Tai64N) -> (r:
        Result<Reaction, Error>)
        requires
            old(self).wf(),
            peer_idx < old(self).peers().len(),
        ensures
            final(self).wf(),
            final(self).may_react(r),
            old(self).init_handled(peer_idx as int, source, pkt@, clock, *final(self), r),
    {
        if pkt.len() < INIT_SIZE {
            return Err(invalid("init message too short"));
        }
        let sid: u32 = bytes::u32_from_le(&pkt[4..8]);
        if self.peers[peer_idx].is_ready() {
            let psk = self.peers[peer_idx].config.psk;
            let id: u32 = self.peers[peer_idx].config.local_sender_id;
            let mut responder = match Responder::new(&self.config.local_keypair, psk, id, clock) {
                Ok(r) => r,
                Err(e) => return Err(Error::Crypto(e)),
            };
            responder.set_current_time(clock);
            let response = match responder.consume_init(pkt) {
                Ok(r) => r,
                Err(_) => return Ok(Reaction::Nothing),
            };
            let ghost q = responder.party();
            let transport = match responder.into_transport() {
                Ok(t) => t,
                Err(e) => return Err(Error::Crypto(e)),
            };
            let packet = slice_to_vec(&response);
            assert(packet@ =~= response@);
            assert(handshake::session_derived(q, id, transport));
            return Ok(
                Reaction::Send {
                    out: Outgoing { to: source, packet },
                    then_do: Then::Rekey { peer: peer_idx, transport, peer_sender_id: sid },
                },
            );
        }
        if !self.peers[peer_idx].is_waiting() {
            return Ok(Reaction::Nothing);
        }
        match self.answer_init(peer_idx, pkt, clock) {
            Some(response) => {
                let packet = slice_to_vec(&response);
                assert(packet@ =~= response@);
                Ok(
                    Reaction::Send {
                        out: Outgoing { to: source, packet },
                        then_do: Then::Establish { peer: peer_idx, peer_sender_id: sid },
                    },
                )
            },
            None => Ok(Reaction::Nothing),
        }
    }

    fn handle_init_via_relay(
        &mut self,
        peer_idx: usize,
        source: Endpoint,
        pkt: &[u8],
        clock: Tai64N,
    ) -> (r: Result<Reaction, Error>)
        requires
            old(self).wf(),
            peer_idx < old(self).peers().len(),
        ensures
            final(self).wf(),
            final(self).may_react(r),
            old(self).relayed_init_handled(peer_idx as int, source, pkt@, clock, *final(self), r),
    {
        if pkt.len() < INIT_SIZE {
            return Err(invalid("init message too short"));
        }
        if !self.peers[peer_idx].is_waiting() {
            return Ok(Reaction::Nothing);
        }
        let sid: u32 = bytes::u32_from_le(&pkt[4..8]);
        match self.answer_init(peer_idx, pkt, clock) {
            Some(response) => {
                let packet = packet::wrap_relay(
                    self.config.local_keypair.public(),
                    &self.peers[peer_idx].config.peer_ip,
                    &response,
                );
                proof {
                    packet::law_relay_round_trip(
                        self.keys().public_key(),
                        self.peers@[peer_idx as int].config.peer_ip@,
                        response@,
                    );
                }
                Ok(
                    Reaction::Send {
                        out: Outgoing { to: source, packet },
                        then_do: Then::Establish { peer: peer_idx, peer_sender_id: sid },
                    },
                )
            },
            None => Ok(Reaction::Nothing),
        }
    }

    /// Whether `i` is the first peer with a mesh address.
    pub open spec fn first_with_ip(self, i: int, ip: Seq<u8>) -> bool {
        &&& 0 <= i < self.peers().len()
        &&& self.peers()[i].config.peer_ip@ == ip
        &&& forall|j: int| 0 <= j < i ==> (#[trigger] self.peers()[j]).config.peer_ip@ != ip
    }

    /// The first peer with a mesh address.
    pub open spec fn peer_with_ip(self, ip: Seq<u8>) -> Option<int> {
        if exists|i: int| self.first_with_ip(i, ip) {
            Some(choose|i: int| self.first_with_ip(i, ip))
        } else {
            None
        }
    }

    /// Whether `i` is the first peer under whose public key the code of an INIT is
    /// valid.
    pub open spec fn first_with_code(self, i: int, pkt: Seq<u8>) -> bool {
        &&& 0 <= i < self.peers().len()
        &&& handshake::code_is_valid(pkt, INIT_SIZE as int, self.peers()[i].config.peer_pub@)
        &&& forall|j: int|
            0 <= j < i ==> !handshake::code_is_valid(
                pkt,
                INIT_SIZE as int,
                (#[trigger] self.peers()[j]).config.peer_pub@,
            )
    }

    /// The first peer under whose public key the code of an INIT is valid.
    pub open spec fn peer_with_code(self, pkt: Seq<u8>) -> Option<int> {
        if exists|i: int| self.first_with_code(i, pkt) {
            Some(choose|i: int| self.first_with_code(i, pkt))
        } else {
            None
        }
    }

    fn find_by_ip(&self, ip: &[u8]) -> (r: Option<usize>)
        requires
            self.wf(),
        ensures
            match r {
                Some(i) => self.peer_with_ip(ip@) == Some(i as int) && i < self.peers().len()
                    && self.peers()[i as int].config.peer_ip@ == ip@,
                None => self.peer_with_ip(ip@) is None,
            },
    {
        let mut i: usize = 0;
        while i < self.peers.len()
            invariant
                i <= self.peers@.len(),
                forall|j: int| 0 <= j < i ==> (#[trigger] self.peers@[j]).config.peer_ip@ != ip@,
            decreases self.peers@.len() - i,
        {
            if bytes::same_bytes(&self.peers[i].config.peer_ip, ip) {
                proof {
                    assert(self.first_with_ip(i as int, ip@));
                    let c = choose|c: int| self.first_with_ip(c, ip@);
                    assert(self.first_with_ip(c, ip@));
                    assert(c == i) by {
                        if c < i {
                            assert(self.peers()[c].config.peer_ip@ != ip@);
                        } else if i < c {
                            assert(self.peers()[i as int].config.peer_ip@ != ip@);
                        }
                    }
                }
                return Some(i);
            }
            i = i + 1;
        }
        None
    }

    /// The peer to which a packet of the device goes: the first whose mesh address
    /// is the packet's IPv4 destination.
    pub open spec fn destination(self, pkt: Seq<u8>) -> Option<int> {
        if pkt.len() < 20 || pkt[0] / 16 != 4 {
            None
        } else {
            self.peer_with_ip(pkt.subrange(16, 20))
        }
    }

    fn lookup_peer_by_dest_ip(&self, pkt: &[u8]) -> (r: Option<usize>)
        requires
            self.wf(),
        ensures
            match r {
                Some(i) => self.destination(pkt@) == Some(i as int) && i < self.peers().len(),
                None => self.destination(pkt@) is None,
            },
    {
        if pkt.len() == 0 {
            return None;
        }
        let version: u8 = pkt[0] / 16;
        if version != 4 || pkt.len() < 20 {
            return None;
        }
        self.find_by_ip(&pkt[16..20])
    }

    fn identify_initiator_by_mac1(&self, init_pkt: &[u8]) -> (r: Option<usize>)
        requires
            self.wf(),
            init_pkt@.len() >= INIT_SIZE,
        ensures
            match r {
                Some(i) => self.peer_with_code(init_pkt@) == Some(i as int) && i
                    < self.peers().len(),
                None => self.peer_with_code(init_pkt@) is None,
            },
    {
        let mut i: usize = 0;
        while i < self.peers.len()
            invariant
                i <= self.peers@.len(),
                init_pkt@.len() >= INIT_SIZE,
                forall|j: int|
                    0 <= j < i ==> !handshake::code_is_valid(
                        init_pkt@,
                        INIT_SIZE as int,
                        (#[trigger] self.peers@[j]).config.peer_pub@,
                    ),
            decreases self.peers@.len() - i,
        {
            if handshake::check_code(init_pkt, INIT_SIZE, &self.peers[i].config.peer_pub) {
                proof {
                    assert(self.first_with_code(i as int, init_pkt@));
                    let c = choose|c: int| self.first_with_code(c, init_pkt@);
                    assert(self.first_with_code(c, init_pkt@));
                    assert(c == i) by {
                        if c < i {
                            assert(!handshake::code_is_valid(
                                init_pkt@,
                                INIT_SIZE as int,
                                self.peers()[c].config.peer_pub@,
                            ));
                        } else if i < c {
                            assert(!handshake::code_is_valid(
                                init_pkt@,
                                INIT_SIZE as int,
                                self.peers()[i as int].config.peer_pub@,
                            ));
                        }
                    }
                }
                return Some(i);
            }
            i = i + 1;
        }
        None
    }

    /// What a transport packet of peer `i` that came through a relay leads to: it
    /// is dropped unless the peer has a session and is not stale. Here a packet
    /// that does not decrypt is an error.
    pub open spec fn relayed_transport_handled(
        self,
        i: int,
        inner: Seq<u8>,
        after: TunnelManager,
        r: Result<Reaction, Error>,
    ) -> bool {
        let peer = self.peers()[i];
        if peer.stale || !peer.ready() {
            &&& r matches Ok(Reaction::Nothing)
            &&& after.unchanged(self)
        } else if inner.len() < 32 {
            &&& r matches Err(e) && e.is_invalid("relay inner transport packet too short"@)
            &&& after.unchanged(self)
        } else {
            let t = peer.state->transport;
            let u = after.peers()[i].state->transport;
            &&& after.peer_becomes(self, i, peer.with_transport(u))
            &&& u.received(t, inner, DEVICE_MTU as nat)
            &&& match t.refusal(inner, DEVICE_MTU as nat) {
                Some(e) => r == Err::<Reaction, Error>(Error::Crypto(e)),
                None => if t.plaintext(inner).len() == 0 {
                    r matches Ok(Reaction::Nothing)
                } else {
                    r matches Ok(Reaction::Deliver { data }) && data@ == t.plaintext(inner)
                },
            }
        }
    }

    fn handle_relayed_transport(&mut self, peer_idx: usize, inner: &[u8]) -> (r: Result<
        Reaction,
        Error,
    >)
        requires
            old(self).wf(),
            peer_idx < old(self).peers().len(),
        ensures
            final(self).wf(),
            final(self).may_react(r),
            old(self).relayed_transport_handled(peer_idx as int, inner@, *final(self), r),
    {
        if self.peers[peer_idx].stale || !self.peers[peer_idx].is_ready() {
            return Ok(Reaction::Nothing);
        }
        if inner.len() < 32 {
            return Err(invalid("relay inner transport packet too short"));
        }
        let mut r: Result<Reaction, Error> = Ok(Reaction::Nothing);
        match &mut self.peers[peer_idx].state {
            PeerState::Ready { transport, .. } => {
                let mut out = [0u8; 1500];
                match transport.decrypt(inner, &mut out) {
                    Ok(n) => {
                        if n > 0 {
                            let data = slice_to_vec(&out[0..n]);
                            assert(data@ =~= old(
                                self,
                            ).peers@[peer_idx as int].state->transport.plaintext(inner@));
                            r = Ok(Reaction::Deliver { data });
                        }
                    },
                    Err(e) => {
                        r = Err(Error::Crypto(e));
                    },
                }
            },
            _ => {},
        }
        proof {
            let u = self.peers@[peer_idx as int].state->transport;
            assert(self.peers@[peer_idx as int] == old(
                self,
            ).peers@[peer_idx as int].with_transport(u));
        }
        r
    }

    /// What a relay envelope leads to. One that is addressed to us is unwrapped for
    /// the peer that it names as its sender; any other is passed on as it is to
    /// the peer that it is for, at the address learned for that peer if there is
    /// one.
    pub open spec fn relay_handled(
        self,
        source: Endpoint,
        pkt: Seq<u8>,
        now: Instant,
        clock: Tai64N,
        after: TunnelManager,
        r: Result<Reaction, Error>,
    ) -> bool {
        let from = key_of(packet::relay_sender(pkt));
        let dest = packet::relay_destination(pkt);
        let inner = packet::relay_inner(pkt);
        if pkt.len() < RELAY_HEADER_SIZE {
            &&& r matches Err(e) && e.is_invalid("relay packet too short"@)
            &&& after.unchanged(self)
        } else if dest == self.config().local_ip@ {
            if !self.pubkeys().contains_key(from) {
                &&& r matches Err(e) && e.is_invalid("relay from_pub not a known peer"@)
                &&& after.unchanged(self)
            } else {
                let i = self.pubkeys()[from] as int;
                if inner.len() > 0 && inner[0] == MESSAGE_TYPE_TRANSPORT {
                    self.relayed_transport_handled(i, inner, after, r)
                } else if inner.len() > 0 && inner[0] == MESSAGE_TYPE_INIT {
                    self.relayed_init_handled(i, source, inner, clock, after, r)
                } else if inner.len() > 0 && inner[0] == MESSAGE_TYPE_RESPONSE {
                    match r {
                        Ok(x) => x is Nothing && self.response_handled(i, inner, now, after, Ok(())),
                        Err(e) => self.response_handled(i, inner, now, after, Err(e)),
                    }
                } else {
                    &&& r matches Err(e) && e.is_invalid(
                        "relay inner is not a recognized message type"@,
                    )
                    &&& after.unchanged(self)
                }
            }
        } else {
            &&& after.unchanged(self)
            &&& match self.peer_with_ip(dest) {
                None => r matches Err(e) && e.is_invalid(
                    "relay dest "@ + crate::text::dotted(dest) + " not a known peer"@,
                ),
                Some(j) => {
                    let c = self.peers()[j].config;
                    &&& r matches Ok(Reaction::Send { out, then_do: Then::Nothing })
                    &&& out.packet@ == pkt
                    &&& out.to == if self.learned().contains_key(c.peer_pub) {
                        self.learned()[c.peer_pub]
                    } else {
                        c.peer_endpoint
                    }
                },
            }
        }
    }

    fn handle_relay(&mut self, source: Endpoint, pkt: &[u8], now: Instant, clock: Tai64N) -> (r:
        Result<Reaction, Error>)
        requires
            old(self).wf(),
        ensures
            final(self).wf(),
            final(self).may_react(r),
            old(self).relay_handled(source, pkt@, now, clock, *final(self), r),
    {
        if pkt.len() < RELAY_HEADER_SIZE {
            return Err(invalid("relay packet too short"));
        }
        let from_pub: [u8; 32] = bytes::take_array(pkt, 1);
        let dest_ip: [u8; 4] = bytes::take_array(pkt, 33);
        let inner = &pkt[RELAY_HEADER_SIZE..pkt.len()];
        proof {
            lemma_key_of(from_pub);
            assert(inner@ =~= packet::relay_inner(pkt@));
        }
        if bytes::same_bytes(&dest_ip, &self.config.local_ip) {
            let peer_idx: usize = match self.pubkey_to_peer.get(&from_pub) {
                Some(i) => i,
                None => return Err(invalid("relay from_pub not a known peer")),
            };
            if inner.len() > 0 && inner[0] == MESSAGE_TYPE_TRANSPORT {
                self.handle_relayed_transport(peer_idx, inner)
            } else if inner.len() > 0 && inner[0] == MESSAGE_TYPE_INIT {
                self.handle_init_via_relay(peer_idx, source, inner, clock)
            } else if inner.len() > 0 && inner[0] == MESSAGE_TYPE_RESPONSE {
                match self.handle_response(peer_idx, inner, now) {
                    Ok(_) => Ok(Reaction::Nothing),
                    Err(e) => Err(e),
                }
            } else {
                Err(invalid("relay inner is not a recognized message type"))
            }
        } else {
            let dest: usize = match self.find_by_ip(&dest_ip) {
                Some(i) => i,
                None => {
                    let reason = "relay dest ".to_string().concat(
                        crate::text::dotted_text(&dest_ip).as_str(),
                    ).concat(" not a known peer");
                    return Err(Error::InvalidConfig(reason));
                },
            };
            let to = match self.learned_endpoints.get(&self.peers[dest].config.peer_pub) {
                Some(e) => e,
                None => self.peers[dest].config.peer_endpoint,
            };
            let packet = slice_to_vec(pkt);
            assert(packet@ =~= pkt@);
            Ok(Reaction::Send { out: Outgoing { to, packet }, then_do: Then::Nothing })
        }
    }

    /// The manager after it heard of peer `i` through a relay: an unknown source is
    /// remembered as the peer's address.
    pub open spec fn heard_by_relay(
        self,
        i: int,
        key: [u8; 32],
        source: Endpoint,
        now: Instant,
        after: TunnelManager,
    ) -> bool {
        &&& after.config() == self.config()
        &&& after.endpoints() == self.endpoints()
        &&& after.pubkeys() == self.pubkeys()
        &&& after.last_maintenance() == self.last_maintenance()
        &&& after.learned() == if self.endpoints().contains_key(source) {
            self.learned()
        } else {
            self.learned().insert(key, source)
        }
        &&& after.peers() == self.peers().update(
            i,
            PeerSession { last_rx_at: Some(now), ..self.peers()[i] },
        )
    }

    /// The manager after it heard from peer `i` at an endpoint, and moved it there.
    pub open spec fn moved(
        self,
        i: int,
        source: Endpoint,
        now: Instant,
        after: TunnelManager,
    ) -> bool {
        let peer = self.peers()[i];
        &&& after.config() == self.config()
        &&& after.pubkeys() == self.pubkeys()
        &&& after.learned() == self.learned()
        &&& after.last_maintenance() == self.last_maintenance()
        &&& after.endpoints() == if peer.config.peer_endpoint == source {
            self.endpoints()
        } else {
            self.endpoints().remove(peer.config.peer_endpoint).insert(source, i as usize)
        }
        &&& after.peers() == self.peers().update(
            i,
            PeerSession {
                config: PeerConfig { peer_endpoint: source, ..peer.config },
                last_rx_at: Some(now),
                ..peer
            },
        )
    }

    fn move_peer(&mut self, peer_idx: usize, source: Endpoint, now: Instant)
        requires
            old(self).wf(),
            peer_idx < old(self).peers().len(),
        ensures
            final(self).wf(),
            old(self).moved(peer_idx as int, source, now, *final(self)),
    {
        let current = self.peers[peer_idx].config.peer_endpoint;
        if current != source {
            self.endpoint_to_peer.remove(&current);
            self.peers[peer_idx].config.peer_endpoint = source;
            self.endpoint_to_peer.insert(source, peer_idx);
        }
        self.peers[peer_idx].last_rx_at = Some(now);
        proof {
            let peer = old(self).peers@[peer_idx as int];
            assert(self.peers@ =~= old(self).peers@.update(
                peer_idx as int,
                PeerSession {
                    config: PeerConfig { peer_endpoint: source, ..peer.config },
                    last_rx_at: Some(now),
                    ..peer
                },
            ));
            assert forall|e: Endpoint| #[trigger] self.endpoints().contains_key(e) implies
                self.endpoints()[e] < self.peers().len()
                && self.peers()[self.endpoints()[e] as int].config.peer_endpoint == e by {
                if e != source {
                    assert(old(self).endpoints().contains_key(e));
                }
            }
            assert forall|k: [u8; 32]| #[trigger] self.pubkeys().contains_key(k) implies
                self.pubkeys()[k] < self.peers().len()
                && self.peers()[self.pubkeys()[k] as int].config.peer_pub == k by {
                assert(old(self).pubkeys().contains_key(k));
            }
        }
    }

    /// What a packet of the known peer `i` leads to, by its type.
    pub open spec fn direct_handled(
        self,
        i: int,
        source: Endpoint,
        pkt: Seq<u8>,
        now: Instant,
        clock: Tai64N,
        after: TunnelManager,
        r: Result<Reaction, Error>,
    ) -> bool {
        if pkt[0] == MESSAGE_TYPE_INIT {
            self.init_handled(i, source, pkt, clock, after, r)
        } else if pkt[0] == MESSAGE_TYPE_RESPONSE {
            match r {
                Ok(x) => x is Nothing && self.response_handled(i, pkt, now, after, Ok(())),
                Err(e) => self.response_handled(i, pkt, now, after, Err(e)),
            }
        } else if pkt[0] == MESSAGE_TYPE_TRANSPORT {
            match r {
                Ok(Reaction::Deliver { data }) => self.transport_handled(
                    i,
                    pkt,
                    after,
                    Ok(Some(data)),
                ),
                Ok(x) => x is Nothing && self.transport_handled(i, pkt, after, Ok(None)),
                Err(e) => self.transport_handled(i, pkt, after, Err(e)),
            }
        } else {
            &&& r matches Ok(Reaction::Nothing)
            &&& after.unchanged(self)
        }
    }

    fn handle_direct(
        &mut self,
        peer_idx: usize,
        source: Endpoint,
        pkt: &[u8],
        now: Instant,
        clock: Tai64N,
    ) -> (r: Result<Reaction, Error>)
        requires
            old(self).wf(),
            peer_idx < old(self).peers().len(),
            pkt@.len() > 0,
        ensures
            final(self).wf(),
            final(self).may_react(r),
            old(self).direct_handled(peer_idx as int, source, pkt@, now, clock, *final(self), r),
    {
        if pkt[0] == MESSAGE_TYPE_INIT {
            self.handle_init(peer_idx, source, pkt, clock)
        } else if pkt[0] == MESSAGE_TYPE_RESPONSE {
            match self.handle_response(peer_idx, pkt, now) {
                Ok(_) => Ok(Reaction::Nothing),
                Err(e) => Err(e),
            }
        } else if pkt[0] == MESSAGE_TYPE_TRANSPORT {
            match self.handle_transport(peer_idx, pkt) {
                Ok(Some(data)) => Ok(Reaction::Deliver { data }),
                Ok(None) => Ok(Reaction::Nothing),
                Err(e) => Err(e),
            }
        } else {
            Ok(Reaction::Nothing)
        }
    }

    /// What an INIT of peer `i` from an unknown source leads to: the peer is moved
    /// to that source first.
    pub open spec fn stranger_handled(
        self,
        i: int,
        source: Endpoint,
        pkt: Seq<u8>,
        now: Instant,
        clock: Tai64N,
        after: TunnelManager,
        r: Result<Reaction, Error>,
    ) -> bool {
        exists|mid: TunnelManager|
            self.moved(i, source, now, mid) && #[trigger] mid.init_handled(
                i,
                source,
                pkt,
                clock,
                after,
                r,
            )
    }

    /// What a packet that arrived leads to. Relay envelopes count for the peer that
    /// they name as their sender, other packets for the peer behind their source;
    /// from an unknown source only an INIT is looked at, and counts for the peer
    /// under whose public key its code is valid.
    pub open spec fn incoming_handled(
        self,
        source: Endpoint,
        pkt: Seq<u8>,
        now: Instant,
        clock: Tai64N,
        after: TunnelManager,
        r: Result<Reaction, Error>,
    ) -> bool {
        let key = key_of(packet::relay_sender(pkt));
        let ignored = r matches Ok(Reaction::Nothing) && after.unchanged(self);
        if pkt.len() == 0 {
            ignored
        } else if pkt[0] == MESSAGE_TYPE_RELAY {
            if pkt.len() < RELAY_HEADER_SIZE || !self.pubkeys().contains_key(key) {
                ignored
            } else {
                exists|mid: TunnelManager|
                    self.heard_by_relay(self.pubkeys()[key] as int, key, source, now, mid)
                        && #[trigger] mid.relay_handled(source, pkt, now, clock, after, r)
            }
        } else if self.endpoints().contains_key(source) {
            let i = self.endpoints()[source] as int;
            exists|mid: TunnelManager|
                mid.peer_becomes(
                    self,
                    i,
                    PeerSession { last_rx_at: Some(now), ..self.peers()[i] },
                ) && #[trigger] mid.direct_handled(i, source, pkt, now, clock, after, r)
        } else if pkt[0] == MESSAGE_TYPE_INIT && pkt.len() >= INIT_SIZE && self.peer_with_code(
            pkt,
        ) is Some {
            self.stranger_handled(self.peer_with_code(pkt)->0, source, pkt, now, clock, after, r)
        } else {
            ignored
        }
    }

    fn handle_incoming(&mut self, source: Endpoint, pkt: &[u8], now: Instant, clock: Tai64N) -> (r:
        Result<Reaction, Error>)
        requires
            old(self).wf(),
        ensures
            final(self).wf(),
            final(self).may_react(r),
            old(self).incoming_handled(source, pkt@, now, clock, *final(self), r),
    {
        if pkt.len() == 0 {
            return Ok(Reaction::Nothing);
        }
        if pkt[0] == MESSAGE_TYPE_RELAY {
            if pkt.len() < RELAY_HEADER_SIZE {
                return Ok(Reaction::Nothing);
            }
            let from_pub: [u8; 32] = bytes::take_array(pkt, 1);
            proof {
                lemma_key_of(from_pub);
            }
            let peer_idx: usize = match self.pubkey_to_peer.get(&from_pub) {
                Some(i) => i,
                None => return Ok(Reaction::Nothing),
            };
            if self.endpoint_to_peer.get(&source).is_none() {
                self.learned_endpoints.insert(from_pub, source);
            }
            self.peers[peer_idx].last_rx_at = Some(now);
            let ghost mid = *self;
            assert(old(self).heard_by_relay(peer_idx as int, from_pub, source, now, mid));
            let r = self.handle_relay(source, pkt, now, clock);
            assert(mid.relay_handled(source, pkt@, now, clock, *self, r));
            return r;
        }
        match self.endpoint_to_peer.get(&source) {
            Some(peer_idx) => {
                self.move_peer(peer_idx, source, now);
                let ghost mid = *self;
                assert(mid.peers() =~= old(self).peers().update(
                    peer_idx as int,
                    PeerSession { last_rx_at: Some(now), ..old(self).peers()[peer_idx as int] },
                ));
                assert(mid.peer_becomes(
                    *old(self),
                    peer_idx as int,
                    PeerSession { last_rx_at: Some(now), ..old(self).peers()[peer_idx as int] },
                ));
                let r = self.handle_direct(peer_idx, source, pkt, now, clock);
                assert(mid.direct_handled(
                    peer_idx as int,
                    source,
                    pkt@,
                    now,
                    clock,
                    *self,
                    r,
                ));
                r
            },
            None => {
                if pkt[0] == MESSAGE_TYPE_INIT && pkt.len() >= INIT_SIZE {
                    if let Some(peer_idx) = self.identify_initiator_by_mac1(pkt) {
                        self.move_peer(peer_idx, source, now);
                        let ghost mid = *self;
                        assert(old(self).moved(peer_idx as int, source, now, mid));
                        let r = self.handle_init(peer_idx, source, pkt, clock);
                        assert(mid.init_handled(peer_idx as int, source, pkt@, clock, *self, r));
                        assert(old(self).stranger_handled(
                            peer_idx as int,
                            source,
                            pkt@,
                            now,
                            clock,
                            *self,
                            r,
                        ));
                        return r;
                    }
                }
                Ok(Reaction::Nothing)
            },
        }
    }

    /// What looking at the INIT timer of peer `i` leads to. A due INIT is written
    /// once and then sent as often as it falls due; once no INIT is waited on any
    /// more, the timer stops.
    pub open spec fn init_polled(
        self,
        i: int,
        now: Instant,
        after: TunnelManager,
        r: Result<Option<Outgoing>, Error>,
    ) -> bool {
        let peer = self.peers()[i];
        let due = peer.next_init_at matches Some(t) && now.nanos >= t.nanos;
        if !due {
            &&& r matches Ok(None)
            &&& after.unchanged(self)
        } else {
            match peer.state {
                PeerState::HandshakingAsInitiator(ini) => {
                    let later = after.peers()[i];
                    &&& r matches Ok(Some(out))
                    &&& out.carries(
                        later.cached_init->0@,
                        peer.config.peer_endpoint,
                        peer.config.via_relay,
                        peer.config.peer_ip@,
                        self.keys().public_key(),
                    )
                    &&& if peer.cached_init is Some {
                        after.unchanged(self)
                    } else {
                        &&& later.state matches PeerState::HandshakingAsInitiator(j)
                        &&& later.cached_init is Some
                        &&& ini.wrote_init(j, later.cached_init->0@)
                        &&& after.peer_becomes(
                            self,
                            i,
                            PeerSession {
                                state: later.state,
                                cached_init: later.cached_init,
                                ..peer
                            },
                        )
                    }
                },
                _ => {
                    &&& r matches Ok(None)
                    &&& after.peer_becomes(
                        self,
                        i,
                        PeerSession { next_init_at: None, cached_init: None, ..peer },
                    )
                },
            }
        }
    }

    fn poll_init(&mut self, i: usize, now: Instant) -> (r: Result<Option<Outgoing>, Error>)
        requires
            old(self).wf(),
            i < old(self).peers().len(),
        ensures
            final(self).wf(),
            old(self).init_polled(i as int, now, *final(self), r),
    {
        let due = match self.peers[i].next_init_at {
            Some(t) => now.nanos >= t.nanos,
            None => false,
        };
        if !due {
            return Ok(None);
        }
        if !matches!(self.peers[i].state, PeerState::HandshakingAsInitiator(_)) {
            self.peers[i].next_init_at = None;
            self.peers[i].cached_init = None;
            assert(self.peers@ =~= old(self).peers@.update(
                i as int,
                PeerSession {
                    next_init_at: None,
                    cached_init: None,
                    ..old(self).peers@[i as int]
                },
            ));
            return Ok(None);
        }
        if self.peers[i].cached_init.is_none() {
            let peer = &mut self.peers[i];
            match &mut peer.state {
                PeerState::HandshakingAsInitiator(initiator) => {
                    match initiator.write_init() {
                        Ok(frame) => {
                            let cached = slice_to_vec(&frame);
                            assert(cached@ =~= frame@);
                            peer.cached_init = Some(cached);
                        },
                        Err(e) => return Err(Error::Crypto(e)),
                    }
                },
                _ => {},
            }
            proof {
                let later = self.peers@[i as int];
                assert(self.peers@ =~= old(self).peers@.update(
                    i as int,
                    PeerSession {
                        state: later.state,
                        cached_init: later.cached_init,
                        ..old(self).peers@[i as int]
                    },
                ));
            }
        }
        let peer = &self.peers[i];
        match &peer.cached_init {
            Some(m) => Ok(
                Some(
                    packet::send_maybe_relay(
                        peer.config.peer_endpoint,
                        peer.config.via_relay,
                        &peer.config.peer_ip,
                        self.config.local_keypair.public(),
                        m.as_slice(),
                    ),
                ),
            ),
            None => Ok(None),
        }
    }

    fn init_sent(&mut self, i: usize, at: Instant)
        requires
            old(self).wf(),
            i < old(self).peers().len(),
            at.nanos + INIT_RETRY_NANOS <= u64::MAX,
        ensures
            final(self).wf(),
            final(self).peer_becomes(
                *old(self),
                i as int,
                PeerSession {
                    next_init_at: Some(Instant { nanos: (at.nanos + INIT_RETRY_NANOS) as u64 }),
                    last_tx_at: Some(at),
                    ..old(self).peers()[i as int]
                },
            ),
    {
        let peer = &mut self.peers[i];
        peer.next_init_at = Some(at.plus(Duration { nanos: INIT_RETRY_NANOS }));
        peer.last_tx_at = Some(at);
    }

    /// What a packet of the device leads to: it goes, encrypted, to the peer that
    /// its destination names, if there is a session with that peer.
    pub open spec fn tun_packet_handled(
        self,
        pkt: Seq<u8>,
        after: TunnelManager,
        r: Result<Option<(usize, Outgoing)>, Error>,
    ) -> bool {
        match self.destination(pkt) {
            None => {
                &&& r matches Ok(None)
                &&& after.unchanged(self)
            },
            Some(i) => {
                let peer = self.peers()[i];
                let t = peer.state->transport;
                let u = after.peers()[i].state->transport;
                if !peer.ready() {
                    &&& r matches Ok(None)
                    &&& after.unchanged(self)
                } else if pkt.len() + 32 > 1600 {
                    &&& r == Err::<Option<(usize, Outgoing)>, Error>(
                        Error::Crypto(
                            crypto::error::Error::BufferTooSmall {
                                needed: (pkt.len() + 32) as usize,
                                actual: 1600,
                            },
                        ),
                    )
                    &&& after.unchanged(self)
                } else {
                    &&& r matches Ok(Some((p, out)))
                    &&& p == i
                    &&& out.carries(
                        t.next_frame(peer.state->peer_sender_id, pkt),
                        peer.config.peer_endpoint,
                        peer.config.via_relay,
                        peer.config.peer_ip@,
                        self.keys().public_key(),
                    )
                    &&& t.is_read_as(t.next_frame(peer.state->peer_sender_id, pkt), pkt)
                    &&& u.sent(t)
                    &&& after.peer_becomes(self, i, peer.with_transport(u))
                }
            },
        }
    }

    /// Whether every session can begin another frame.
    pub open spec fn has_counters_left(self) -> bool {
        forall|i: int|
            0 <= i < self.peers().len() ==> (#[trigger] self.peers()[i]).has_counter_left()
    }

    /// Whether every session can begin another frame.
    pub fn counters_left(&self) -> (r: bool)
        ensures
            r == self.has_counters_left(),
    {
        let mut i: usize = 0;
        while i < self.peers.len()
            invariant
                i <= self.peers@.len(),
                forall|j: int| 0 <= j < i ==> (#[trigger] self.peers@[j]).has_counter_left(),
            decreases self.peers@.len() - i,
        {
            let left = match &self.peers[i].state {
                PeerState::Ready { transport, .. } => transport.send_counter() < u64::MAX,
                _ => true,
            };
            if !left {
                assert(!self.peers()[i as int].has_counter_left());
                return false;
            }
            i = i + 1;
        }
        true
    }

    fn dispatch_tun_packet(&mut self, pkt: &[u8]) -> (r: Result<Option<(usize, Outgoing)>, Error>)
        requires
            old(self).wf(),
            old(self).has_counters_left(),
            pkt@.len() + 32 <= usize::MAX,
        ensures
            final(self).wf(),
            old(self).tun_packet_handled(pkt@, *final(self), r),
            r matches Ok(Some(sent)) ==> sent.0 < final(self).peers().len(),
    {
        let i: usize = match self.lookup_peer_by_dest_ip(pkt) {
            Some(i) => i,
            None => return Ok(None),
        };
        if !self.peers[i].is_ready() {
            return Ok(None);
        }
        assert(self.peers@[i as int].has_counter_left());
        let mut frame: Vec<u8> = Vec::new();
        let peer = &mut self.peers[i];
        match &mut peer.state {
            PeerState::Ready { transport, peer_sender_id, .. } => {
                let mut out = [0u8; 1600];
                match transport.encrypt(pkt, *peer_sender_id, &mut out) {
                    Ok(n) => {
                        frame = slice_to_vec(&out[0..n]);
                    },
                    Err(e) => {
                        assert(self.peers@ =~= old(self).peers@);
                        return Err(Error::Crypto(e));
                    },
                }
            },
            _ => {},
        }
        proof {
            let before = old(self).peers@[i as int];
            let u = self.peers@[i as int].state->transport;
            assert(frame@ =~= before.state->transport.next_frame(
                before.state->peer_sender_id,
                pkt@,
            ));
            assert(self.peers@[i as int] == before.with_transport(u));
        }
        let c = &self.peers[i].config;
        let out = packet::send_maybe_relay(
            c.peer_endpoint,
            c.via_relay,
            &c.peer_ip,
            self.config.local_keypair.public(),
            frame.as_slice(),
        );
        Ok(Some((i, out)))
    }

    fn data_sent(&mut self, i: usize, now: Instant)
        requires
            old(self).wf(),
            i < old(self).peers().len(),
        ensures
            final(self).wf(),
            final(self).peer_becomes(
                *old(self),
                i as int,
                PeerSession { last_tx_at: Some(now), ..old(self).peers()[i as int] },
            ),
    {
        self.peers[i].last_tx_at = Some(now);
    }

    /// Whether an action for peer `i` can be performed.
    pub open spec fn may_perform(self, i: int, action: Action) -> bool {
        &&& 0 <= i < self.peers().len()
        &&& action matches Action::StartRekey { initiator, init_msg }
            ==> self.peers()[i].config.is_initiator && session::awaits(
            initiator,
            self.keys(),
            self.peers()[i].config,
            init_msg@,
        )
    }

    /// What looking at all timers leads to: nothing before the tick is over, and
    /// then what each peer's timers call for, in the order of the peers.
    pub open spec fn timers_checked(
        self,
        now: Instant,
        clock: Tai64N,
        after: TunnelManager,
        r: Seq<(usize, Action)>,
    ) -> bool {
        let due = all_due(self.peers(), self.peers().len(), self.config().timings, now);
        &&& after.peers() == self.peers()
        &&& after.config() == self.config()
        &&& after.endpoints() == self.endpoints()
        &&& after.pubkeys() == self.pubkeys()
        &&& after.learned() == self.learned()
        &&& if now.since(self.last_maintenance()) < self.config().timings.maintenance_tick.nanos {
            &&& after.last_maintenance() == self.last_maintenance()
            &&& r.len() == 0
        } else {
            &&& after.last_maintenance() == now
            &&& r.len() == due.len()
            &&& forall|k: int|
                0 <= k < r.len() ==> (#[trigger] r[k]).0 == due[k].0 && r[k].0 < self.peers().len()
                    && self.peers()[r[k].0 as int].answers(r[k].1, due[k].1, self.keys(), clock)
        }
    }

    fn maintenance(&mut self, now: Instant, clock: Tai64N) -> (r: Vec<(usize, Action)>)
        requires
            old(self).wf(),
        ensures
            final(self).wf(),
            old(self).timers_checked(now, clock, *final(self), r@),
            forall|k: int|
                0 <= k < r@.len() ==> final(self).may_perform(
                    (#[trigger] r@[k]).0 as int,
                    r@[k].1,
                ),
    {
        let mut actions: Vec<(usize, Action)> = Vec::new();
        if now.duration_since(self.last_maintenance_at).nanos
            < self.config.timings.maintenance_tick.nanos {
            return actions;
        }
        self.last_maintenance_at = now;
        let ghost timings = self.config.timings;
        let mut i: usize = 0;
        while i < self.peers.len()
            invariant
                i <= self.peers@.len(),
                timings == self.config.timings,
                actions@.len() == all_due(self.peers@, i as nat, timings, now).len(),
                forall|k: int|
                    0 <= k < actions@.len() ==> ({
                        let due = all_due(self.peers@, i as nat, timings, now);
                        &&& (#[trigger] actions@[k]).0 == due[k].0
                        &&& actions@[k].0 < self.peers@.len()
                        &&& self.peers@[actions@[k].0 as int].answers(
                            actions@[k].1,
                            due[k].1,
                            self.config.local_keypair,
                            clock,
                        )
                    }),
            decreases self.peers@.len() - i,
        {
            let ghost before = actions@;
            let mut fresh = self.peers[i].due_actions(
                &self.config.timings,
                &self.config.local_keypair,
                now,
                clock,
            );
            let ghost all = fresh@;
            let ghost base = all_due(self.peers@, i as nat, timings, now);
            let ghost mine = self.peers@[i as int].due(timings, now);
            let ghost next = all_due(self.peers@, (i + 1) as nat, timings, now);
            assert(next =~= base + mine.map_values(|d: Due| (i, d)));
            while fresh.len() > 0
                invariant
                    i < self.peers@.len(),
                    before.len() == base.len(),
                    next == base + mine.map_values(|d: Due| (i, d)),
                    mine.len() == all.len(),
                    fresh@.len() <= all.len(),
                    actions@.len() + fresh@.len() == before.len() + all.len(),
                    fresh@ == all.skip(all.len() - fresh@.len()),
                    forall|k: int|
                        0 <= k < all.len() ==> self.peers@[i as int].answers(
                            #[trigger] all[k],
                            mine[k],
                            self.config.local_keypair,
                            clock,
                        ),
                    forall|k: int|
                        0 <= k < actions@.len() ==> ({
                            &&& (#[trigger] actions@[k]).0 == next[k].0
                            &&& actions@[k].0 < self.peers@.len()
                            &&& self.peers@[actions@[k].0 as int].answers(
                                actions@[k].1,
                                next[k].1,
                                self.config.local_keypair,
                                clock,
                            )
                        }),
                decreases fresh@.len(),
            {
                let a = fresh.remove(0);
                let ghost at = actions@.len() - before.len();
                assert(a == all[at]);
                assert(next[actions@.len() as int] == (i, mine[at]));
                actions.push((i, a));
                assert(fresh@ =~= all.skip(all.len() - fresh@.len()));
            }
            i = i + 1;
        }
        actions
    }

    /// What an action for peer `i` leads to.
    pub open spec fn performed(
        self,
        i: int,
        action: Action,
        after: TunnelManager,
        r: Option<(Outgoing, Followup)>,
    ) -> bool {
        let peer = self.peers()[i];
        let c = peer.config;
        match action {
            Action::MarkStale => {
                &&& r is None
                &&& after.peer_becomes(self, i, PeerSession { stale: true, ..peer })
            },
            Action::SendKeepalive => if peer.ready() {
                let t = peer.state->transport;
                let u = after.peers()[i].state->transport;
                &&& r matches Some((out, Followup::KeepaliveSent))
                &&& out.carries(
                    t.next_frame(peer.state->peer_sender_id, Seq::empty()),
                    c.peer_endpoint,
                    c.via_relay,
                    c.peer_ip@,
                    self.keys().public_key(),
                )
                &&& t.is_read_as(
                    t.next_frame(peer.state->peer_sender_id, Seq::empty()),
                    Seq::empty(),
                )
                &&& u.sent(t)
                &&& after.peer_becomes(self, i, peer.with_transport(u))
            } else {
                r is None && after.unchanged(self)
            },
            Action::StartRekey { initiator, init_msg } => {
                &&& r matches Some((out, Followup::RekeyOpened { initiator: j, init_msg: m }))
                &&& j == initiator && m@ == init_msg@
                &&& out.carries(
                    init_msg@,
                    c.peer_endpoint,
                    c.via_relay,
                    c.peer_ip@,
                    self.keys().public_key(),
                )
                &&& after.unchanged(self)
            },
            Action::RetryRekey => {
                &&& after.unchanged(self)
                &&& match peer.state {
                    PeerState::Ready { rehandshake: Some(rs), .. } => {
                        &&& r matches Some((out, Followup::RekeyRetried))
                        &&& out.carries(
                            rs.init_msg@,
                            c.peer_endpoint,
                            c.via_relay,
                            c.peer_ip@,
                            self.keys().public_key(),
                        )
                    },
                    _ => r is None,
                }
            },
        }
    }

    /// Whether what remains to be done for peer `i` can be done.
    pub open spec fn may_follow_up(self, i: int, f: Followup) -> bool {
        &&& 0 <= i < self.peers().len()
        &&& f matches Followup::RekeyOpened { initiator, init_msg }
            ==> self.peers()[i].config.is_initiator && session::awaits(
            initiator,
            self.keys(),
            self.peers()[i].config,
            init_msg@,
        )
    }

    fn perform(&mut self, i: usize, action: Action) -> (r: Result<
        Option<(Outgoing, Followup)>,
        Error,
    >)
        requires
            old(self).wf(),
            old(self).has_counters_left(),
            old(self).may_perform(i as int, action),
        ensures
            final(self).wf(),
            r is Ok,
            old(self).performed(i as int, action, *final(self), r->Ok_0),
            r->Ok_0 matches Some(s) ==> final(self).may_follow_up(i as int, s.1),
    {
        match action {
            Action::MarkStale => {
                self.peers[i].stale = true;
                Ok(None)
            },
            Action::SendKeepalive => {
                if !self.peers[i].is_ready() {
                    return Ok(None);
                }
                assert(self.peers@[i as int].has_counter_left());
                let empty: [u8; 0] = [];
                assert(empty@ =~= Seq::<u8>::empty());
                let mut frame: Vec<u8> = Vec::new();
                match &mut self.peers[i].state {
                    PeerState::Ready { transport, peer_sender_id, .. } => {
                        let mut out = [0u8; 32];
                        match transport.encrypt(&empty, *peer_sender_id, &mut out) {
                            Ok(n) => {
                                frame = slice_to_vec(&out[0..n]);
                            },
                            Err(e) => return Err(Error::Crypto(e)),
                        }
                    },
                    _ => {},
                }
                proof {
                    let before = old(self).peers@[i as int];
                    let u = self.peers@[i as int].state->transport;
                    assert(frame@ =~= before.state->transport.next_frame(
                        before.state->peer_sender_id,
                        Seq::empty(),
                    ));
                    assert(self.peers@[i as int] == before.with_transport(u));
                }
                let out = self.address(i, frame.as_slice());
                Ok(Some((out, Followup::KeepaliveSent)))
            },
            Action::StartRekey { initiator, init_msg } => {
                let out = self.address(i, init_msg.as_slice());
                Ok(Some((out, Followup::RekeyOpened { initiator, init_msg })))
            },
            Action::RetryRekey => {
                match &self.peers[i].state {
                    PeerState::Ready { rehandshake: Some(rs), .. } => {
                        let out = self.address(i, rs.init_msg.as_slice());
                        Ok(Some((out, Followup::RekeyRetried)))
                    },
                    _ => Ok(None),
                }
            },
        }
    }

    /// Addresses a packet to peer `i`.
    fn address(&self, i: usize, inner: &[u8]) -> (r: Outgoing)
        requires
            i < self.peers().len(),
        ensures
            r.carries(
                inner@,
                self.peers()[i as int].config.peer_endpoint,
                self.peers()[i as int].config.via_relay,
                self.peers()[i as int].config.peer_ip@,
                self.keys().public_key(),
            ),
    {
        let c = &self.peers[i].config;
        packet::send_maybe_relay(
            c.peer_endpoint,
            c.via_relay,
            &c.peer_ip,
            self.config.local_keypair.public(),
            inner,
        )
    }

    /// What following up an action for peer `i` does.
    pub open spec fn followed_up(
        self,
        i: int,
        f: Followup,
        at: Instant,
        after: TunnelManager,
    ) -> bool {
        let peer = self.peers()[i];
        let retry = Instant { nanos: (at.nanos + INIT_RETRY_NANOS) as u64 };
        match f {
            Followup::KeepaliveSent => after.peer_becomes(
                self,
                i,
                PeerSession { last_tx_at: Some(at), ..peer },
            ),
            Followup::RekeyOpened { initiator, init_msg } => match peer.state {
                PeerState::Ready { transport, peer_sender_id, .. } => after.peer_becomes(
                    self,
                    i,
                    PeerSession {
                        state: PeerState::Ready {
                            transport,
                            peer_sender_id,
                            rehandshake: Some(
                                Rehandshake {
                                    initiator,
                                    init_msg,
                                    started_at: at,
                                    next_retry_at: retry,
                                },
                            ),
                        },
                        last_tx_at: Some(at),
                        ..peer
                    },
                ),
                _ => after.unchanged(self),
            },
            Followup::RekeyRetried => match peer.state {
                PeerState::Ready { transport, peer_sender_id, rehandshake: Some(rs) } =>
                    after.peer_becomes(
                    self,
                    i,
                    PeerSession {
                        state: PeerState::Ready {
                            transport,
                            peer_sender_id,
                            rehandshake: Some(Rehandshake { next_retry_at: retry, ..rs }),
                        },
                        last_tx_at: Some(at),
                        ..peer
                    },
                ),
                _ => after.unchanged(self),
            },
        }
    }

    fn follow_up(&mut self, i: usize, f: Followup, at: Instant)
        requires
            old(self).wf(),
            old(self).may_follow_up(i as int, f),
            at.nanos + INIT_RETRY_NANOS <= u64::MAX,
        ensures
            final(self).wf(),
            old(self).followed_up(i as int, f, at, *final(self)),
    {
        let retry = at.plus(Duration { nanos: INIT_RETRY_NANOS });
        let peer = &mut self.peers[i];
        match f {
            Followup::KeepaliveSent => {
                peer.last_tx_at = Some(at);
            },
            Followup::RekeyOpened { initiator, init_msg } => {
                match &mut peer.state {
                    PeerState::Ready { rehandshake, .. } => {
                        *rehandshake = Some(
                            Rehandshake {
                                initiator,
                                init_msg,
                                started_at: at,
                                next_retry_at: retry,
                            },
                        );
                        peer.last_tx_at = Some(at);
                    },
                    _ => {},
                }
            },
            Followup::RekeyRetried => {
                match &mut peer.state {
                    PeerState::Ready { rehandshake: Some(rs), .. } => {
                        rs.next_retry_at = retry;
                        peer.last_tx_at = Some(at);
                    },
                    _ => {},
                }
            },
        }
        proof {
            let s = self.peers@[i as int];
            assert(self.peers@ =~= old(self).peers@.update(i as int, s));
            if s == old(self).peers@[i as int] {
                assert(self.peers@ =~= old(self).peers@);
            }
        }
    }

    /// Starts a session with every peer. A later peer takes over the endpoint and
    /// the public key of an earlier one.
    pub fn new(config: ManagerConfig, peer_cfgs: Vec<PeerConfig>, now: Instant, clock: Tai64N) -> (r:
        Result<Self, Error>)
        ensures
            r matches Ok(m) && m.wf() && m.opened(config, peer_cfgs@, now, clock),
    {
        let mut m = TunnelManager {
            config,
            peers: Vec::new(),
            endpoint_to_peer: Table::new(),
            pubkey_to_peer: Table::new(),
            learned_endpoints: Table::new(),
            last_maintenance_at: now,
        };
        let total: usize = peer_cfgs.len();
        let mut rest = peer_cfgs;
        let ghost all = peer_cfgs@;
        while rest.len() > 0
            invariant
                m.wf(),
                rest@.len() <= all.len() == total,
                rest@ == all.skip(all.len() - rest@.len()),
                m.opened(config, all.take(all.len() - rest@.len()), now, clock),
            decreases rest@.len(),
        {
            let ghost before = m;
            let ghost n = all.len() - rest@.len();
            let cfg = rest.remove(0);
            assert(cfg == all[n]);
            match m.push_peer(cfg, now, clock) {
                Ok(_) => {},
                Err(e) => return Err(e),
            }
            proof {
                before.lemma_opened(config, all.take(n), now, clock, cfg, m);
                assert(all.take(n).push(cfg) =~= all.take(n + 1));
                assert(rest@ =~= all.skip(n + 1));
            }
        }
        assert(all.take(all.len() as int) =~= all);
        Ok(m)
    }

    /// The manager as it starts out with a list of peers: every peer's session
    /// starts, and every endpoint and public key leads to the last peer that has
    /// it.
    pub open spec fn opened(
        self,
        config: ManagerConfig,
        cfgs: Seq<PeerConfig>,
        now: Instant,
        clock: Tai64N,
    ) -> bool {
        &&& self.config() == config
        &&& self.peers().len() == cfgs.len()
        &&& forall|i: int|
            0 <= i < cfgs.len() ==> (#[trigger] self.peers()[i]).starts(
                cfgs[i],
                config.local_keypair,
                now,
                clock,
            )
        &&& forall|i: int|
            0 <= i < cfgs.len() ==> self.endpoints().contains_key(
                (#[trigger] cfgs[i]).peer_endpoint,
            ) && i <= self.endpoints()[cfgs[i].peer_endpoint] && self.pubkeys().contains_key(
                cfgs[i].peer_pub,
            ) && i <= self.pubkeys()[cfgs[i].peer_pub]
        &&& self.learned() == Map::<[u8; 32], Endpoint>::empty()
        &&& self.last_maintenance() == now
    }

    proof fn lemma_opened(
        self,
        config: ManagerConfig,
        cfgs: Seq<PeerConfig>,
        now: Instant,
        clock: Tai64N,
        cfg: PeerConfig,
        after: TunnelManager,
    )
        requires
            self.opened(config, cfgs, now, clock),
            self.grew(cfg, now, clock, after),
            cfgs.len() < usize::MAX,
        ensures
            after.opened(config, cfgs.push(cfg), now, clock),
    {
        let n = cfgs.len() as int;
        let more = cfgs.push(cfg);
        assert forall|i: int| 0 <= i < more.len() implies (#[trigger] after.peers()[i]).starts(
            more[i],
            config.local_keypair,
            now,
            clock,
        ) by {
            if i < n {
                assert(after.peers()[i] == self.peers()[i]);
                assert(more[i] == cfgs[i]);
            }
        }
        assert forall|i: int| 0 <= i < more.len() implies after.endpoints().contains_key(
            (#[trigger] more[i]).peer_endpoint,
        ) && i <= after.endpoints()[more[i].peer_endpoint] && after.pubkeys().contains_key(
            more[i].peer_pub,
        ) && i <= after.pubkeys()[more[i].peer_pub] by {
            if i < n {
                assert(more[i] == cfgs[i]);
            }
        }
    }

    /// Adds a session at the end.
    fn push_peer(&mut self, cfg: PeerConfig, now: Instant, clock: Tai64N) -> (r: Result<(), Error>)
        requires
            old(self).wf(),
        ensures
            final(self).wf(),
            r is Ok,
            old(self).grew(cfg, now, clock, *final(self)),
    {
        let endpoint = cfg.peer_endpoint;
        let key = cfg.peer_pub;
        let s = match PeerSession::start(cfg, &self.config.local_keypair, now, clock) {
            Ok(s) => s,
            Err(e) => return Err(Error::Crypto(e)),
        };
        let i: usize = self.peers.len();
        self.endpoint_to_peer.insert(endpoint, i);
        self.pubkey_to_peer.insert(key, i);
        self.peers.push(s);
        proof {
            assert(self.peers() == old(self).peers().push(s));
            assert forall|e: Endpoint| #[trigger] self.endpoints().contains_key(e) implies
                self.endpoints()[e] < self.peers().len()
                && self.peers()[self.endpoints()[e] as int].config.peer_endpoint == e by {
                if e != endpoint {
                    assert(old(self).endpoints().contains_key(e));
                }
            }
            assert forall|k: [u8; 32]| #[trigger] self.pubkeys().contains_key(k) implies
                self.pubkeys()[k] < self.peers().len()
                && self.peers()[self.pubkeys()[k] as int].config.peer_pub == k by {
                if k != key {
                    assert(old(self).pubkeys().contains_key(k));
                }
            }
            assert forall|j: int| 0 <= j < self.peers().len() implies self.pubkeys().contains_key(
                (#[trigger] self.peers()[j]).config.peer_pub,
            ) by {
                if j < i {
                    assert(self.peers()[j] == old(self).peers()[j]);
                }
            }
        }
        Ok(())
    }

    /// The manager after it started a session with one more peer.
    pub open spec fn grew(
        self,
        cfg: PeerConfig,
        now: Instant,
        clock: Tai64N,
        after: TunnelManager,
    ) -> bool {
        let n = self.peers().len();
        &&& after.peers().len() == n + 1
        &&& after.peers() == self.peers().push(after.peers()[n as int])
        &&& after.peers()[n as int].starts(cfg, self.keys(), now, clock)
        &&& after.config() == self.config()
        &&& after.endpoints() == self.endpoints().insert(cfg.peer_endpoint, n as usize)
        &&& after.pubkeys() == self.pubkeys().insert(cfg.peer_pub, n as usize)
        &&& after.learned() == self.learned()
        &&& after.last_maintenance() == self.last_maintenance()
    }

    /// Starts a session with a peer that is not known yet, and says whether it did.
    pub fn add_peer(&mut self, cfg: PeerConfig, now: Instant, clock: Tai64N) -> (r: Result<
        bool,
        Error,
    >)
        requires
            old(self).wf(),
        ensures
            final(self).wf(),
            r matches Ok(added) && if added {
                &&& !old(self).pubkeys().contains_key(cfg.peer_pub)
                &&& old(self).grew(cfg, now, clock, *final(self))
            } else {
                &&& old(self).pubkeys().contains_key(cfg.peer_pub)
                &&& final(self).unchanged(*old(self))
            },
    {
        if self.pubkey_to_peer.get(&cfg.peer_pub).is_some() {
            return Ok(false);
        }
        match self.push_peer(cfg, now, clock) {
            Ok(_) => Ok(true),
            Err(e) => Err(e),
        }
    }

    /// Whether there is a session with every peer, and at least one peer.
    pub open spec fn all_ready(self) -> bool {
        &&& self.peers().len() > 0
        &&& forall|i: int| 0 <= i < self.peers().len() ==> (#[trigger] self.peers()[i]).ready()
    }

    /// What to do to get all peers ready within `left` steps.
    pub open spec fn awaited(self, left: usize) -> Wait {
        if left == 0 {
            Wait::TimedOut
        } else if self.all_ready() {
            Wait::Ready
        } else {
            Wait::Step { left: (left - 1) as usize }
        }
    }

    /// What to do to get all peers ready within `left` steps.
    pub fn wait(&self, left: usize) -> (r: Wait)
        ensures
            r == self.awaited(left),
    {
        if left == 0 {
            Wait::TimedOut
        } else if self.is_ready() {
            Wait::Ready
        } else {
            Wait::Step { left: left - 1 }
        }
    }

    /// Whether there is a session with every peer, and at least one peer.
    pub fn is_ready(&self) -> (r: bool)
        ensures
            r == self.all_ready(),
    {
        let mut i: usize = 0;
        while i < self.peers.len()
            invariant
                i <= self.peers@.len(),
                forall|j: int| 0 <= j < i ==> (#[trigger] self.peers@[j]).ready(),
            decreases self.peers@.len() - i,
        {
            if !self.peers[i].is_ready() {
                assert(!self.peers()[i as int].ready());
                return false;
            }
            i = i + 1;
        }
        self.peers.len() > 0
    }

    /// The number of peers.
    pub fn peer_count(&self) -> (r: usize)
        ensures
            r == self.peers().len(),
    {
        self.peers.len()
    }

    /// The number of peers with a session.
    pub fn ready_peer_count(&self) -> (r: usize)
        ensures
            r == count_ready(self.peers()),
    {
        let mut n: usize = 0;
        let mut i: usize = 0;
        while i < self.peers.len()
            invariant
                i <= self.peers@.len(),
                n <= i,
                n == count_ready(self.peers@.take(i as int)),
            decreases self.peers@.len() - i,
        {
            assert(self.peers@.take(i + 1).drop_last() =~= self.peers@.take(i as int));
            if self.peers[i].is_ready() {
                n = n + 1;
            }
            i = i + 1;
        }
        assert(self.peers@.take(self.peers@.len() as int) =~= self.peers@);
        n
    }

    /// Whether a peer was silent for too long; no for an unknown peer.
    pub open spec fn stale_at(self, idx: int) -> bool {
        0 <= idx < self.peers().len() && self.peers()[idx].stale
    }

    /// Whether a peer was silent for too long; no for an unknown peer.
    pub fn is_peer_stale(&self, idx: usize) -> (r: bool)
        ensures
            r == self.stale_at(idx as int),
    {
        idx < self.peers.len() && self.peers[idx].stale
    }

    /// How long ago we last sent a packet of our own to a peer, in nanoseconds, if
    /// we ever did.
    pub open spec fn tx_age(self, idx: int, now: Instant) -> Option<nat> {
        if 0 <= idx < self.peers().len() {
            match self.peers()[idx].last_tx_at {
                Some(t) => Some(now.since(t)),
                None => None,
            }
        } else {
            None
        }
    }

    /// How long ago the last handshake with a peer completed, in nanoseconds, if one
    /// ever did.
    pub open spec fn handshake_age(self, idx: int, now: Instant) -> Option<nat> {
        if 0 <= idx < self.peers().len() {
            match self.peers()[idx].last_handshake_at {
                Some(t) => Some(now.since(t)),
                None => None,
            }
        } else {
            None
        }
    }

    /// How long ago the last handshake with a peer completed, if one ever did.
    pub fn peer_handshake_age_secs(&self, idx: usize, now: Instant) -> (r: Option<Duration>)
        ensures
            match r {
                Some(d) => self.handshake_age(idx as int, now) == Some(d.nanos as nat),
                None => self.handshake_age(idx as int, now) is None,
            },
    {
        if idx < self.peers.len() {
            match self.peers[idx].last_handshake_at {
                Some(t) => Some(now.duration_since(t)),
                None => None,
            }
        } else {
            None
        }
    }

    /// How long ago the last packet went out that we sent to a peer, if we ever sent
    /// one. Handshake packets count, and so do packets in an envelope.
    pub fn peer_tx_age_secs(&self, idx: usize, now: Instant) -> (r: Option<Duration>)
        ensures
            match r {
                Some(d) => self.tx_age(idx as int, now) == Some(d.nanos as nat),
                None => self.tx_age(idx as int, now) is None,
            },
    {
        if idx < self.peers.len() {
            match self.peers[idx].last_tx_at {
                Some(t) => Some(now.duration_since(t)),
                None => None,
            }
        } else {
            None
        }
    }

    fn any_peer_ready(&self) -> (r: bool)
        ensures
            r == exists|i: int|
                0 <= i < self.peers().len() && (#[trigger] self.peers()[i]).ready(),
    {
        let mut i: usize = 0;
        while i < self.peers.len()
            invariant
                i <= self.peers@.len(),
                forall|j: int| 0 <= j < i ==> !(#[trigger] self.peers@[j]).ready(),
            decreases self.peers@.len() - i,
        {
            if self.peers[i].is_ready() {
                assert(self.peers()[i as int].ready());
                return true;
            }
            i = i + 1;
        }
        false
    }

    /// Whether an outcome is one of the command that was handed out last.
    pub open spec fn fits(progress: Progress, outcome: Outcome) -> bool {
        match progress {
            Progress::Begin => true,
            Progress::Receiving => outcome is Received,
            Progress::Reading { .. } => outcome is Read,
            _ => outcome is Done,
        }
    }

    /// Whether a step can go on.
    pub open spec fn may_proceed(self, progress: Progress) -> bool {
        match progress {
            Progress::Begin | Progress::Receiving | Progress::Delivering => true,
            Progress::Answering { then_do } => self.may_finish(then_do),
            Progress::Initiating { peer, at } => {
                &&& peer <= self.peers().len()
                &&& at.nanos + INIT_RETRY_NANOS <= u64::MAX
            },
            Progress::InitSent { peer, at } => {
                &&& peer < self.peers().len()
                &&& at.nanos + INIT_RETRY_NANOS <= u64::MAX
            },
            Progress::Reading { at } => at.nanos + INIT_RETRY_NANOS <= u64::MAX,
            Progress::DataSent { peer, at } => {
                &&& peer < self.peers().len()
                &&& at.nanos + INIT_RETRY_NANOS <= u64::MAX
            },
            Progress::Maintaining { at, actions } => {
                &&& at.nanos + INIT_RETRY_NANOS <= u64::MAX
                &&& self.may_perform_all(actions@)
            },
            Progress::ActionSent { peer, follow, at, actions } => {
                &&& at.nanos + INIT_RETRY_NANOS <= u64::MAX
                &&& self.may_follow_up(peer as int, follow)
                &&& self.may_perform_all(actions@)
            },
        }
    }

    /// Whether every action of a list can be performed.
    pub open spec fn may_perform_all(self, actions: Seq<(usize, Action)>) -> bool {
        forall|k: int|
            0 <= k < actions.len() ==> self.may_perform(
                (#[trigger] actions[k]).0 as int,
                actions[k].1,
            )
    }

    /// The last part of a step: the timers are looked at.
    pub open spec fn turned_to_timers(
        self,
        at: Instant,
        clock: Tai64N,
        after: TunnelManager,
        r: Result<(Progress, Command), Error>,
    ) -> bool {
        &&& r matches Ok((Progress::Maintaining { at: a, actions }, Command::Proceed))
        &&& a == at
        &&& self.timers_checked(at, clock, after, actions@)
    }

    /// What one move of a step does. A step takes in all packets that have
    /// arrived, then sends the INITs that are due, then sends one packet of the
    /// device if there is any session, and then performs what the timers call for.
    /// Every packet that is to be sent is handed out, and what depends on it is
    /// done only once it is on its way.
    pub open spec fn stepped(
        self,
        progress: Progress,
        outcome: Outcome,
        now: Instant,
        clock: Tai64N,
        after: TunnelManager,
        r: Result<(Progress, Command), Error>,
    ) -> bool {
        match (progress, outcome) {
            (Progress::Begin, _) | (Progress::Delivering, _) => {
                &&& r matches Ok((Progress::Receiving, Command::Receive))
                &&& after.unchanged(self)
            },
            (Progress::Receiving, Outcome::Received { packet: Some((source, pkt)) }) => match r {
                Ok((Progress::Receiving, Command::Receive)) => self.incoming_handled(
                    source,
                    pkt@,
                    now,
                    clock,
                    after,
                    Ok(Reaction::Nothing),
                ),
                Ok((Progress::Answering { then_do }, Command::Send { out })) =>
                    self.incoming_handled(
                    source,
                    pkt@,
                    now,
                    clock,
                    after,
                    Ok(Reaction::Send { out, then_do }),
                ),
                Ok((Progress::Delivering, Command::Deliver { data })) => self.incoming_handled(
                    source,
                    pkt@,
                    now,
                    clock,
                    after,
                    Ok(Reaction::Deliver { data }),
                ),
                Ok(_) => false,
                Err(e) => self.incoming_handled(source, pkt@, now, clock, after, Err(e)),
            },
            (Progress::Receiving, _) => {
                &&& r matches Ok((Progress::Initiating { peer, at }, Command::Proceed))
                &&& peer == 0 && at == now
                &&& after.unchanged(self)
            },
            (Progress::Answering { then_do }, _) => {
                &&& r matches Ok((Progress::Receiving, Command::Receive))
                &&& self.finished(then_do, now, after)
            },
            (Progress::Initiating { peer, at }, _) => if peer < self.peers().len() {
                match r {
                    Ok((Progress::InitSent { peer: p, at: a }, Command::Send { out })) => p == peer
                        && a == at && self.init_polled(peer as int, at, after, Ok(Some(out))),
                    Ok((Progress::Initiating { peer: p, at: a }, Command::Proceed)) => p == peer + 1
                        && a == at && self.init_polled(peer as int, at, after, Ok(None)),
                    Ok(_) => false,
                    Err(e) => self.init_polled(peer as int, at, after, Err(e)),
                }
            } else if exists|i: int|
                0 <= i < self.peers().len() && (#[trigger] self.peers()[i]).ready() {
                &&& r matches Ok((Progress::Reading { at: a }, Command::ReadDevice))
                &&& a == at
                &&& after.unchanged(self)
            } else {
                self.turned_to_timers(at, clock, after, r)
            },
            (Progress::InitSent { peer, at }, _) => {
                &&& r matches Ok((Progress::Initiating { peer: p, at: a }, Command::Proceed))
                &&& p == peer + 1 && a == at
                &&& after.peer_becomes(
                    self,
                    peer as int,
                    PeerSession {
                        next_init_at: Some(
                            Instant { nanos: (at.nanos + INIT_RETRY_NANOS) as u64 },
                        ),
                        last_tx_at: Some(at),
                        ..self.peers()[peer as int]
                    },
                )
            },
            (Progress::Reading { at }, Outcome::Read { data: Some(pkt) }) => match r {
                Ok((Progress::DataSent { peer, at: a }, Command::Send { out })) => a == at
                    && self.tun_packet_handled(pkt@, after, Ok(Some((peer, out)))),
                Ok(_) => exists|mid: TunnelManager|
                    self.tun_packet_handled(pkt@, mid, Ok(None))
                        && #[trigger] mid.turned_to_timers(at, clock, after, r),
                Err(e) => self.tun_packet_handled(pkt@, after, Err(e)),
            },
            (Progress::Reading { at }, _) => self.turned_to_timers(at, clock, after, r),
            (Progress::DataSent { peer, at }, _) => exists|mid: TunnelManager|
                mid.peer_becomes(
                    self,
                    peer as int,
                    PeerSession { last_tx_at: Some(now), ..self.peers()[peer as int] },
                ) && #[trigger] mid.turned_to_timers(at, clock, after, r),
            (Progress::Maintaining { at, actions }, _) => if actions@.len() == 0 {
                &&& r matches Ok((Progress::Begin, Command::Finished))
                &&& after.unchanged(self)
            } else {
                let (i, action) = actions@[0];
                match r {
                    Ok((
                        Progress::ActionSent { peer, follow, at: a, actions: rest },
                        Command::Send { out },
                    )) => {
                        &&& peer == i && a == at && rest@ == actions@.skip(1)
                        &&& self.performed(i as int, action, after, Some((out, follow)))
                    },
                    Ok((Progress::Maintaining { at: a, actions: rest }, Command::Proceed)) => {
                        &&& a == at && rest@ == actions@.skip(1)
                        &&& self.performed(i as int, action, after, None)
                    },
                    _ => false,
                }
            },
            (Progress::ActionSent { peer, follow, at, actions }, _) => {
                &&& r matches Ok((Progress::Maintaining { at: a, actions: rest }, Command::Proceed))
                &&& a == at && rest@ == actions@
                &&& self.followed_up(peer as int, follow, at, after)
            },
        }
    }

    /// One move of a step: takes in how the last command went and hands out the
    /// next one. The surroundings carry the commands out, beginning with
    /// `Progress::Begin`, until one is `Command::Finished`; where a command fails,
    /// the step is given up and the next one begins afresh.
    pub fn step(&mut self, progress: Progress, outcome: Outcome, now: Instant, clock: Tai64N) -> (r:
        Result<(Progress, Command), Error>)
        requires
            old(self).wf(),
            old(self).has_counters_left(),
            old(self).may_proceed(progress),
            Self::fits(progress, outcome),
            now.nanos + INIT_RETRY_NANOS <= u64::MAX,
            outcome matches Outcome::Read { data: Some(pkt) } ==> pkt@.len() + 32 <= usize::MAX,
        ensures
            final(self).wf(),
            old(self).stepped(progress, outcome, now, clock, *final(self), r),
            r matches Ok(next) ==> final(self).may_proceed(next.0),
    {
        match progress {
            Progress::Begin => Ok((Progress::Receiving, Command::Receive)),
            Progress::Delivering => Ok((Progress::Receiving, Command::Receive)),
            Progress::Receiving => {
                match outcome {
                    Outcome::Received { packet: Some((source, pkt)) } => {
                        match self.handle_incoming(source, pkt.as_slice(), now, clock) {
                            Ok(Reaction::Nothing) => Ok((Progress::Receiving, Command::Receive)),
                            Ok(Reaction::Send { out, then_do }) => Ok(
                                (Progress::Answering { then_do }, Command::Send { out }),
                            ),
                            Ok(Reaction::Deliver { data }) => Ok(
                                (Progress::Delivering, Command::Deliver { data }),
                            ),
                            Err(e) => Err(e),
                        }
                    },
                    _ => Ok((Progress::Initiating { peer: 0, at: now }, Command::Proceed)),
                }
            },
            Progress::Answering { then_do } => {
                self.finish(then_do, now);
                Ok((Progress::Receiving, Command::Receive))
            },
            Progress::Initiating { peer, at } => {
                if peer < self.peers.len() {
                    match self.poll_init(peer, at) {
                        Ok(Some(out)) => Ok(
                            (Progress::InitSent { peer, at }, Command::Send { out }),
                        ),
                        Ok(None) => Ok(
                            (Progress::Initiating { peer: peer + 1, at }, Command::Proceed),
                        ),
                        Err(e) => Err(e),
                    }
                } else if self.any_peer_ready() {
                    Ok((Progress::Reading { at }, Command::ReadDevice))
                } else {
                    let actions = self.maintenance(at, clock);
                    Ok((Progress::Maintaining { at, actions }, Command::Proceed))
                }
            },
            Progress::InitSent { peer, at } => {
                let count: usize = self.peers.len();
                assert(peer < count);
                self.init_sent(peer, at);
                Ok((Progress::Initiating { peer: peer + 1, at }, Command::Proceed))
            },
            Progress::Reading { at } => {
                if let Outcome::Read { data: Some(pkt) } = outcome {
                    match self.dispatch_tun_packet(pkt.as_slice()) {
                        Ok(Some((peer, out))) => {
                            return Ok((Progress::DataSent { peer, at }, Command::Send { out }));
                        },
                        Ok(None) => {},
                        Err(e) => return Err(e),
                    }
                }
                let ghost mid = *self;
                let actions = self.maintenance(at, clock);
                let r = Ok((Progress::Maintaining { at, actions }, Command::Proceed));
                assert(mid.turned_to_timers(at, clock, *self, r));
                r
            },
            Progress::DataSent { peer, at } => {
                self.data_sent(peer, now);
                let ghost mid = *self;
                let actions = self.maintenance(at, clock);
                let r = Ok((Progress::Maintaining { at, actions }, Command::Proceed));
                assert(mid.turned_to_timers(at, clock, *self, r));
                r
            },
            Progress::Maintaining { at, actions } => {
                let ghost all = actions@;
                let mut rest = actions;
                if rest.len() == 0 {
                    return Ok((Progress::Begin, Command::Finished));
                }
                let (i, action) = rest.remove(0);
                assert(rest@ =~= all.skip(1));
                assert(self.may_perform(all[0].0 as int, all[0].1));
                proof {
                    assert forall|k: int| 0 <= k < rest@.len() implies self.may_perform(
                        (#[trigger] rest@[k]).0 as int,
                        rest@[k].1,
                    ) by {
                        assert(rest@[k] == all[k + 1]);
                    }
                }
                match self.perform(i, action) {
                    Ok(Some((out, follow))) => Ok(
                        (
                            Progress::ActionSent { peer: i, follow, at, actions: rest },
                            Command::Send { out },
                        ),
                    ),
                    Ok(None) => Ok((Progress::Maintaining { at, actions: rest }, Command::Proceed)),
                    Err(e) => Err(e),
                }
            },
            Progress::ActionSent { peer, follow, at, actions } => {
                self.follow_up(peer, follow, at);
                Ok((Progress::Maintaining { at, actions }, Command::Proceed))
            },
        }
    }
}

} // verus!
