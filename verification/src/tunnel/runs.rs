//! What holds of a node over a row of moves.

use crate::crypto::handshake::{INIT_SIZE, MESSAGE_TYPE_INIT, MESSAGE_TYPE_RELAY};
use crate::crypto::timestamp::Tai64N;
use crate::net::Endpoint;
use crate::time::Instant;
use crate::tunnel::error::Error;
use crate::tunnel::manager;
use crate::tunnel::manager::{
    Command, Followup, Outcome, Progress, Reaction, Then, TunnelManager,
};
use crate::tunnel::packet;
use crate::tunnel::packet::{Outgoing, RELAY_HEADER_SIZE};
use crate::tunnel::session;
use crate::tunnel::session::{Action, Due, PeerConfig, PeerSession};
use vstd::prelude::*;

verus! {

/// The peer that a packet counts for, if there is one.
pub open spec fn counts_for(m: TunnelManager, source: Endpoint, pkt: Seq<u8>) -> Option<int> {
    let key = manager::key_of(packet::relay_sender(pkt));
    if pkt.len() == 0 {
        None
    } else if pkt[0] == MESSAGE_TYPE_RELAY {
        if pkt.len() >= RELAY_HEADER_SIZE && m.pubkeys().contains_key(key) {
            Some(m.pubkeys()[key] as int)
        } else {
            None
        }
    } else if m.endpoints().contains_key(source) {
        Some(m.endpoints()[source] as int)
    } else if pkt[0] == MESSAGE_TYPE_INIT && pkt.len() >= INIT_SIZE {
        m.peer_with_code(pkt)
    } else {
        None
    }
}

/// Whether a session came out of another by a packet that arrived: no packet
/// changes when an INIT is sent or which, or ends a session.
pub open spec fn touched(s: PeerSession, t: PeerSession) -> bool {
    &&& t.config == (PeerConfig { peer_endpoint: t.config.peer_endpoint, ..s.config })
    &&& t.next_init_at == s.next_init_at
    &&& t.cached_init == s.cached_init
    &&& t.last_tx_at == s.last_tx_at
    &&& t.state is HandshakingAsInitiator ==> t.state == s.state
    &&& s.ready() ==> t.ready()
    &&& t.ready() && t.state->rehandshake is Some ==> s.ready() && t.state->rehandshake
        == s.state->rehandshake
}

/// Whether of all sessions at most that with peer `j` was touched.
pub open spec fn touches(m: TunnelManager, j: int, m2: TunnelManager) -> bool {
    &&& m2.config() == m.config()
    &&& m2.last_maintenance() == m.last_maintenance()
    &&& m2.peers().len() == m.peers().len()
    &&& forall|k: int|
        0 <= k < m.peers().len() && k != j ==> #[trigger] m2.peers()[k] == m.peers()[k]
    &&& 0 <= j < m.peers().len() ==> touched(m.peers()[j], m2.peers()[j])
}

proof fn lemma_response_touches(
    m: TunnelManager,
    j: int,
    pkt: Seq<u8>,
    now: Instant,
    m2: TunnelManager,
    r: Result<(), Error>,
)
    requires
        0 <= j < m.peers().len(),
        m.response_handled(j, pkt, now, m2, r),
    ensures
        touches(m, j, m2),
{
}

proof fn lemma_init_touches(
    m: TunnelManager,
    j: int,
    source: Endpoint,
    pkt: Seq<u8>,
    clock: Tai64N,
    m2: TunnelManager,
    r: Result<Reaction, Error>,
)
    requires
        0 <= j < m.peers().len(),
        m.init_handled(j, source, pkt, clock, m2, r) || m.relayed_init_handled(
            j,
            source,
            pkt,
            clock,
            m2,
            r,
        ),
    ensures
        touches(m, j, m2),
{
}

proof fn lemma_relay_touches(
    m: TunnelManager,
    j: int,
    source: Endpoint,
    pkt: Seq<u8>,
    now: Instant,
    clock: Tai64N,
    m2: TunnelManager,
    r: Result<Reaction, Error>,
)
    requires
        0 <= j < m.peers().len(),
        m.pubkeys().contains_key(manager::key_of(packet::relay_sender(pkt))),
        m.pubkeys()[manager::key_of(packet::relay_sender(pkt))] == j,
        m.relay_handled(source, pkt, now, clock, m2, r),
    ensures
        touches(m, j, m2),
{
    let inner = packet::relay_inner(pkt);
    if m.relayed_init_handled(j, source, inner, clock, m2, r) {
        lemma_init_touches(m, j, source, inner, clock, m2, r);
    }
    if m.response_handled(j, inner, now, m2, Ok(())) {
        lemma_response_touches(m, j, inner, now, m2, Ok(()));
    }
    if let Err(e) = r {
        if m.response_handled(j, inner, now, m2, Err(e)) {
            lemma_response_touches(m, j, inner, now, m2, Err(e));
        }
    }
}

proof fn lemma_direct_touches(
    m: TunnelManager,
    j: int,
    source: Endpoint,
    pkt: Seq<u8>,
    now: Instant,
    clock: Tai64N,
    m2: TunnelManager,
    r: Result<Reaction, Error>,
)
    requires
        0 <= j < m.peers().len(),
        m.direct_handled(j, source, pkt, now, clock, m2, r),
    ensures
        touches(m, j, m2),
{
    if m.init_handled(j, source, pkt, clock, m2, r) {
        lemma_init_touches(m, j, source, pkt, clock, m2, r);
    }
    if m.response_handled(j, pkt, now, m2, Ok(())) {
        lemma_response_touches(m, j, pkt, now, m2, Ok(()));
    }
    if let Err(e) = r {
        if m.response_handled(j, pkt, now, m2, Err(e)) {
            lemma_response_touches(m, j, pkt, now, m2, Err(e));
        }
    }
}

/// A packet touches at most the session of the peer that it counts for.
pub proof fn law_packet_touches_one_session(
    m: TunnelManager,
    source: Endpoint,
    pkt: Seq<u8>,
    now: Instant,
    clock: Tai64N,
    m2: TunnelManager,
    r: Result<Reaction, Error>,
)
    requires
        m.wf(),
        m.incoming_handled(source, pkt, now, clock, m2, r),
    ensures
        match counts_for(m, source, pkt) {
            Some(j) => touches(m, j, m2),
            None => m2.unchanged(m),
        },
{
    let key = manager::key_of(packet::relay_sender(pkt));
    if let Some(j) = counts_for(m, source, pkt) {
        if pkt[0] == MESSAGE_TYPE_RELAY {
            let mid = choose|mid: TunnelManager|
                m.heard_by_relay(j, key, source, now, mid) && #[trigger] mid.relay_handled(
                    source,
                    pkt,
                    now,
                    clock,
                    m2,
                    r,
                );
            lemma_relay_touches(mid, j, source, pkt, now, clock, m2, r);
        } else if m.endpoints().contains_key(source) {
            let mid = choose|mid: TunnelManager|
                mid.peer_becomes(
                    m,
                    j,
                    PeerSession { last_rx_at: Some(now), ..m.peers()[j] },
                ) && #[trigger] mid.direct_handled(j, source, pkt, now, clock, m2, r);
            lemma_direct_touches(mid, j, source, pkt, now, clock, m2, r);
        } else {
            let c = choose|c: int| m.first_with_code(c, pkt);
            assert(m.first_with_code(c, pkt));
            let mid = choose|mid: TunnelManager|
                m.moved(j, source, now, mid) && #[trigger] mid.init_handled(
                    j,
                    source,
                    pkt,
                    clock,
                    m2,
                    r,
                );
            lemma_init_touches(mid, j, source, pkt, clock, m2, r);
        }
    }
}

/// One move of a step, with the node before and after it.
pub struct Move {
    pub before: TunnelManager,
    pub progress: Progress,
    pub outcome: Outcome,
    pub now: Instant,
    pub clock: Tai64N,
    pub after: TunnelManager,
    pub r: Result<(Progress, Command), Error>,
}

/// Where a step stands after a move: an error ends it, and the next one begins.
pub open spec fn next_of(r: Result<(Progress, Command), Error>) -> Progress {
    match r {
        Ok(next) => next.0,
        Err(_) => Progress::Begin,
    }
}

impl Move {
    /// Whether the move is one that a node makes.
    #[verifier::opaque]
    pub open spec fn made(self) -> bool {
        &&& self.before.wf() && self.after.wf()
        &&& self.before.may_proceed(self.progress)
        &&& self.before.stepped(
            self.progress,
            self.outcome,
            self.now,
            self.clock,
            self.after,
            self.r,
        )
    }

    /// Whether the move looks at the INIT timer of peer `i`.
    pub open spec fn polls(self, i: int) -> bool {
        self.progress matches Progress::Initiating { peer, .. } && peer == i
    }

    /// Whether the move hands out the first INIT to peer `i` for sending.
    pub open spec fn sends_init(self, i: int) -> bool {
        self.polls(i) && i < self.before.peers().len() && (self.r matches Ok((
            _,
            Command::Send { .. },
        )))
    }

    /// Whether the move notes that the first INIT to peer `i` was sent.
    pub open spec fn notes_init(self, i: int) -> bool {
        self.progress matches Progress::InitSent { peer, .. } && peer == i
    }

    /// When the move takes place, as far as INITs go.
    pub open spec fn init_time(self) -> Instant {
        match self.progress {
            Progress::Initiating { at, .. } => at,
            Progress::InitSent { at, .. } => at,
            _ => self.now,
        }
    }

    /// Whether nothing of peer `i` has to do with the move: it takes in no packet
    /// that counts for the peer, and goes on with no answer to one.
    pub open spec fn quiet(self, i: int) -> bool {
        match (self.progress, self.outcome) {
            (Progress::Receiving, Outcome::Received { packet: Some((source, pkt)) }) => counts_for(
                self.before,
                source,
                pkt@,
            ) != Some(i),
            (Progress::Answering { then_do: Then::Establish { peer, .. } }, _) => peer != i,
            (Progress::Answering { then_do: Then::Rekey { peer, .. } }, _) => peer != i,
            _ => true,
        }
    }

    /// When a packet of our own to peer `i` went out that the move notes, if it notes
    /// one.
    pub open spec fn notes_sent(self, i: int) -> Option<Instant> {
        match self.progress {
            Progress::InitSent { peer, at } => if peer == i {
                Some(at)
            } else {
                None
            },
            Progress::DataSent { peer, .. } => if peer == i {
                Some(self.now)
            } else {
                None
            },
            Progress::Answering { then_do: Then::Establish { peer, .. } } => if peer == i {
                Some(self.now)
            } else {
                None
            },
            Progress::Answering { then_do: Then::Rekey { peer, .. } } => if peer == i {
                Some(self.now)
            } else {
                None
            },
            Progress::ActionSent { peer, follow, at, .. } => {
                let s = self.before.peers()[i];
                if peer == i && (follow is KeepaliveSent || (follow is RekeyOpened && s.ready())
                    || (follow is RekeyRetried && s.ready() && s.state->rehandshake is Some)) {
                    Some(at)
                } else {
                    None
                }
            },
            _ => None,
        }
    }

    /// What a move leaves of a rekey with peer `i` that is under way afterwards: one
    /// that it opens starts with its INIT; of any other the INIT is the one that it
    /// was. The INIT is sent again two seconds after it was sent.
    pub open spec fn leaves_rekey(self, i: int) -> bool {
        let s = self.before.peers()[i];
        let rs = self.after.peers()[i].state->rehandshake->0;
        match self.progress {
            Progress::ActionSent {
                peer,
                follow: Followup::RekeyOpened { initiator, init_msg },
                at,
                ..
            } if peer == i => {
                &&& rs.initiator == initiator && rs.init_msg == init_msg
                &&& rs.next_retry_at.nanos == at.nanos + session::INIT_RETRY_NANOS
            },
            Progress::ActionSent { peer, follow: Followup::RekeyRetried, at, .. } if peer == i => {
                &&& s.ready() && s.state->rehandshake is Some
                &&& rs.initiator == s.state->rehandshake->0.initiator
                &&& rs.init_msg == s.state->rehandshake->0.init_msg
                &&& rs.next_retry_at.nanos == at.nanos + session::INIT_RETRY_NANOS
            },
            _ => {
                &&& s.ready()
                &&& s.state->rehandshake == Some(rs)
            },
        }
    }

    /// What a move leaves of the session with peer `i`. A first INIT that is
    /// awaited stays, and so does when it is sent again, but for its sending; the
    /// same goes for the INIT of a rekey. While nothing comes from the peer, a
    /// session stays, and a stale one stays stale. When we last sent to the peer
    /// changes with the noting of a packet that was sent, and with nothing else.
    pub open spec fn leaves(self, i: int) -> bool {
        let s = self.before.peers()[i];
        let t = self.after.peers()[i];
        &&& self.after.config() == self.before.config()
        &&& self.after.peers().len() == self.before.peers().len()
        &&& t.config == (PeerConfig { peer_endpoint: t.config.peer_endpoint, ..s.config })
        &&& t.state is HandshakingAsInitiator ==> {
            &&& s.state is HandshakingAsInitiator
            &&& s.cached_init is Some ==> t.state == s.state && t.cached_init == s.cached_init
            &&& s.cached_init is None && !self.polls(i) ==> t.state == s.state && t.cached_init
                is None
            &&& t.next_init_at == if self.notes_init(i) {
                Some(
                    Instant {
                        nanos: (self.init_time().nanos + session::INIT_RETRY_NANOS) as u64,
                    },
                )
            } else {
                s.next_init_at
            }
        }
        &&& t.ready() && t.state->rehandshake is Some ==> self.leaves_rekey(i)
        &&& t.last_tx_at == match self.notes_sent(i) {
            Some(at) => Some(at),
            None => s.last_tx_at,
        }
        &&& self.quiet(i) ==> {
            &&& t.last_rx_at == s.last_rx_at
            &&& s.ready() ==> t.ready()
            &&& s.stale ==> t.stale
        }
    }
}

proof fn lemma_receiving(v: Move, i: int)
    requires
        v.made(),
        0 <= i < v.before.peers().len(),
        v.progress is Receiving || v.progress is Begin || v.progress is Delivering,
    ensures
        v.leaves(i),
{
    reveal(Move::made);
    if v.progress is Receiving {
        if let Outcome::Received { packet: Some((source, pkt)) } = v.outcome {
            let x = match v.r {
                Ok((Progress::Answering { then_do }, Command::Send { out })) => Ok(
                    Reaction::Send { out, then_do },
                ),
                Ok((_, Command::Deliver { data })) => Ok(Reaction::Deliver { data }),
                Ok(_) => Ok(Reaction::Nothing),
                Err(e) => Err(e),
            };
            assert(v.before.incoming_handled(source, pkt@, v.now, v.clock, v.after, x));
            law_packet_touches_one_session(
                v.before,
                source,
                pkt@,
                v.now,
                v.clock,
                v.after,
                x,
            );
        }
    }
}

proof fn lemma_answering(v: Move, i: int)
    requires
        v.made(),
        0 <= i < v.before.peers().len(),
        v.progress is Answering,
    ensures
        v.leaves(i),
{
    reveal(Move::made);
}

proof fn lemma_initiating(v: Move, i: int)
    requires
        v.made(),
        0 <= i < v.before.peers().len(),
        v.progress is Initiating || v.progress is InitSent,
    ensures
        v.leaves(i),
{
    reveal(Move::made);
}

proof fn lemma_data(v: Move, i: int)
    requires
        v.made(),
        0 <= i < v.before.peers().len(),
        v.progress is Reading || v.progress is DataSent,
    ensures
        v.leaves(i),
{
    reveal(Move::made);
}

proof fn lemma_maintaining(v: Move, i: int)
    requires
        v.made(),
        0 <= i < v.before.peers().len(),
        v.progress is Maintaining || v.progress is ActionSent,
    ensures
        v.leaves(i),
{
    reveal(Move::made);
}

/// Every move leaves of a session what it is to leave.
pub proof fn law_moves_leave(v: Move, i: int)
    requires
        v.made(),
        0 <= i < v.before.peers().len(),
    ensures
        v.leaves(i),
{
    match v.progress {
        Progress::Begin | Progress::Receiving | Progress::Delivering => lemma_receiving(v, i),
        Progress::Answering { .. } => lemma_answering(v, i),
        Progress::Initiating { .. } | Progress::InitSent { .. } => lemma_initiating(v, i),
        Progress::Reading { .. } | Progress::DataSent { .. } => lemma_data(v, i),
        Progress::Maintaining { .. } | Progress::ActionSent { .. } => lemma_maintaining(v, i),
    }
}

/// Whether moves are made one after the other, every command being carried out.
pub open spec fn row(moves: Seq<Move>) -> bool {
    &&& forall|k: int| 0 <= k < moves.len() ==> (#[trigger] moves[k]).made()
    &&& forall|k: int|
        0 < k < moves.len() ==> (#[trigger] moves[k]).before == moves[k - 1].after
            && moves[k].progress == next_of(moves[k - 1].r)
}

/// Whether moves begin with a node as it starts out with its peers.
pub open spec fn from_the_start(
    moves: Seq<Move>,
    config: session::ManagerConfig,
    cfgs: Seq<PeerConfig>,
    start: Instant,
    clock: Tai64N,
) -> bool {
    &&& row(moves)
    &&& moves.len() > 0
    &&& moves[0].progress is Begin
    &&& moves[0].before.opened(config, cfgs, start, clock)
    &&& forall|k: int|
        0 <= k < moves.len() ==> start.nanos <= (#[trigger] moves[k]).init_time().nanos
}

/// Whether peer `i` does not answer in a row of moves.
pub open spec fn unanswered(moves: Seq<Move>, i: int) -> bool {
    forall|k: int|
        0 <= k < moves.len() ==> (#[trigger] moves[k]).after.peers()[i].state
            is HandshakingAsInitiator
}

proof fn lemma_row_keeps(moves: Seq<Move>, i: int, k: int)
    requires
        row(moves),
        moves.len() > 0,
        0 <= i < moves[0].before.peers().len(),
        0 <= k < moves.len(),
    ensures
        moves[k].before.config() == moves[0].before.config(),
        moves[k].before.peers().len() == moves[0].before.peers().len(),
        moves[k].before.peers()[i].config == (PeerConfig {
            peer_endpoint: moves[k].before.peers()[i].config.peer_endpoint,
            ..moves[0].before.peers()[i].config
        }),
        moves[k].leaves(i),
    decreases k,
{
    if k > 0 {
        lemma_row_keeps(moves, i, k - 1);
        assert(moves[k].before == moves[k - 1].after);
    }
    assert(moves[k].made());
    law_moves_leave(moves[k], i);
}

/// Only the handing out of an INIT is followed by the noting of it.
proof fn lemma_noted_was_sent(moves: Seq<Move>, i: int, k: int)
    requires
        row(moves),
        0 < k < moves.len(),
        moves[k].notes_init(i),
    ensures
        moves[k - 1].sends_init(i),
        moves[k - 1].init_time() == moves[k].init_time(),
        moves[k].init_time().nanos + session::INIT_RETRY_NANOS <= u64::MAX,
{
    reveal(Move::made);
    assert(moves[k - 1].made());
    assert(moves[k].progress == next_of(moves[k - 1].r));
}

/// The handing out of an INIT is followed by the noting of it.
proof fn lemma_sent_is_noted(moves: Seq<Move>, i: int, k: int)
    requires
        row(moves),
        0 <= k,
        k + 1 < moves.len(),
        moves[k].sends_init(i),
    ensures
        moves[k + 1].notes_init(i),
        moves[k].init_time() == moves[k + 1].init_time(),
        moves[k].init_time().nanos + session::INIT_RETRY_NANOS <= u64::MAX,
{
    reveal(Move::made);
    assert(moves[k].made());
    assert(moves[k + 1].progress == next_of(moves[k].r));
}

/// A look at the timer of a peer whose INIT is due hands the INIT out.
proof fn lemma_poll(v: Move, i: int)
    requires
        v.made(),
        0 <= i < v.before.peers().len(),
        v.polls(i),
        v.before.peers()[i].state is HandshakingAsInitiator,
    ensures
        v.sends_init(i) <==> (v.before.peers()[i].next_init_at matches Some(t)
            && v.init_time().nanos >= t.nanos),
        v.sends_init(i) ==> {
            let s = v.after.peers()[i];
            &&& s.cached_init is Some
            &&& s.cached_init->0@.len() == INIT_SIZE
            &&& v.r->Ok_0.1->out.carries(
                s.cached_init->0@,
                v.before.peers()[i].config.peer_endpoint,
                v.before.peers()[i].config.via_relay,
                v.before.peers()[i].config.peer_ip@,
                v.before.keys().public_key(),
            )
        },
{
    reveal(Move::made);
    assert(v.after.peers()[i].wf(v.after.keys()));
}

proof fn lemma_unsent(moves: Seq<Move>, i: int, start: Instant, k: int)
    requires
        row(moves),
        0 <= k < moves.len(),
        moves[0].progress is Begin,
        0 <= i < moves[0].before.peers().len(),
        moves[0].before.peers()[i].state is HandshakingAsInitiator,
        moves[0].before.peers()[i].cached_init is None,
        moves[0].before.peers()[i].next_init_at == Some(start),
        unanswered(moves, i),
        forall|x: int|
            0 <= x < moves.len() ==> start.nanos <= (#[trigger] moves[x]).init_time().nanos,
        forall|x: int| 0 <= x < k ==> !(#[trigger] moves[x]).sends_init(i),
    ensures
        moves[k].before.peers()[i].state is HandshakingAsInitiator,
        moves[k].before.peers()[i].cached_init is None,
        moves[k].before.peers()[i].next_init_at == Some(start),
    decreases k,
{
    if k > 0 {
        lemma_unsent(moves, i, start, k - 1);
        lemma_row_keeps(moves, i, k - 1);
        let v = moves[k - 1];
        assert(v.made());
        assert(moves[k].before == v.after);
        assert(!v.sends_init(i));
        assert(v.after.peers()[i].state is HandshakingAsInitiator);
        if v.polls(i) {
            lemma_poll(v, i);
        }
        if v.notes_init(i) {
            lemma_noted_was_sent(moves, i, k - 1);
            assert(moves[k - 2].sends_init(i));
        }
    }
}

proof fn lemma_cached_stays(moves: Seq<Move>, i: int, j: int, k: int)
    requires
        row(moves),
        0 <= j <= k < moves.len(),
        0 <= i < moves[0].before.peers().len(),
        unanswered(moves, i),
        moves[j].after.peers()[i].cached_init is Some,
    ensures
        moves[k].after.peers()[i].cached_init == moves[j].after.peers()[i].cached_init,
    decreases k,
{
    if j < k {
        lemma_cached_stays(moves, i, j, k - 1);
        lemma_row_keeps(moves, i, k);
        assert(moves[k].before == moves[k - 1].after);
        assert(moves[k].after.peers()[i].state is HandshakingAsInitiator);
    }
}

proof fn lemma_waits_two_seconds(moves: Seq<Move>, i: int, j: int, k: int)
    requires
        row(moves),
        0 <= j,
        j + 1 <= k < moves.len(),
        0 <= i < moves[0].before.peers().len(),
        unanswered(moves, i),
        moves[j].sends_init(i),
    ensures
        moves[k].after.peers()[i].next_init_at matches Some(t) && t.nanos
            >= moves[j].init_time().nanos + session::INIT_RETRY_NANOS,
    decreases k,
{
    let v = moves[k];
    lemma_row_keeps(moves, i, k);
    assert(v.made());
    assert(v.after.peers()[i].state is HandshakingAsInitiator);
    lemma_sent_is_noted(moves, i, j);
    if k > j + 1 {
        lemma_waits_two_seconds(moves, i, j, k - 1);
        assert(v.before == moves[k - 1].after);
        if v.notes_init(i) {
            lemma_noted_was_sent(moves, i, k);
            let u = moves[k - 1];
            assert(u.made());
            assert(k - 1 > j + 1);
            lemma_waits_two_seconds(moves, i, j, k - 2);
            assert(u.before == moves[k - 2].after);
            assert(moves[k - 2].after.peers()[i].state is HandshakingAsInitiator);
            lemma_row_keeps(moves, i, k - 1);
            lemma_poll(u, i);
        }
    }
}

/// Whether every peer up to where a step stands has had its INIT timer looked at in
/// the moves before `k`.
spec fn looked_at(moves: Seq<Move>, k: int) -> bool {
    let all = moves[k].before.peers().len() as int;
    match moves[k].progress {
        Progress::Initiating { peer, .. } => polled_below(moves, k, peer as int),
        Progress::InitSent { peer, .. } => polled_below(moves, k, peer + 1),
        Progress::Reading { .. } => polled_below(moves, k, all),
        Progress::DataSent { .. } => polled_below(moves, k, all),
        Progress::Maintaining { .. } => polled_below(moves, k, all),
        Progress::ActionSent { .. } => polled_below(moves, k, all),
        _ => true,
    }
}

spec fn polled_below(moves: Seq<Move>, k: int, n: int) -> bool {
    forall|p: int| 0 <= p < n ==> #[trigger] polled_before(moves, k, p)
}

spec fn polled_before(moves: Seq<Move>, k: int, p: int) -> bool {
    exists|x: int| 0 <= x < k && (#[trigger] moves[x]).polls(p)
}

proof fn lemma_polled_grows(moves: Seq<Move>, k: int, n: int)
    requires
        0 <= k < moves.len(),
        polled_below(moves, k, n),
    ensures
        polled_below(moves, k + 1, n),
        moves[k].polls(n) ==> polled_below(moves, k + 1, n + 1),
{
    assert forall|p: int| 0 <= p < n implies #[trigger] polled_before(moves, k + 1, p) by {
        assert(polled_before(moves, k, p));
        let x = choose|x: int| 0 <= x < k && (#[trigger] moves[x]).polls(p);
        assert(moves[x].polls(p));
    }
    if moves[k].polls(n) {
        assert forall|p: int| 0 <= p < n + 1 implies #[trigger] polled_before(moves, k + 1, p) by {
            if p == n {
                assert(moves[k].polls(p));
            }
        }
    }
}

proof fn lemma_looked_at(moves: Seq<Move>, k: int)
    requires
        row(moves),
        0 <= k < moves.len(),
        moves[0].progress is Begin,
    ensures
        looked_at(moves, k),
    decreases k,
{
    reveal(Move::made);
    if k > 0 {
        lemma_looked_at(moves, k - 1);
        let v = moves[k - 1];
        assert(v.made());
        assert(moves[k].before == v.after);
        assert(moves[k].progress == next_of(v.r));
        if v.before.peers().len() > 0 {
            law_moves_leave(v, 0);
        } else {
            lemma_no_peers(v);
        }
        let all = v.before.peers().len() as int;
        match v.progress {
            Progress::Initiating { peer, .. } => lemma_polled_grows(moves, k - 1, peer as int),
            Progress::InitSent { peer, .. } => lemma_polled_grows(moves, k - 1, peer + 1),
            Progress::Reading { .. } => lemma_polled_grows(moves, k - 1, all),
            Progress::DataSent { .. } => lemma_polled_grows(moves, k - 1, all),
            Progress::Maintaining { .. } => lemma_polled_grows(moves, k - 1, all),
            Progress::ActionSent { .. } => lemma_polled_grows(moves, k - 1, all),
            _ => {},
        }
    }
}

/// A node without peers stays without.
proof fn lemma_no_peers(v: Move)
    requires
        v.made(),
        v.before.peers().len() == 0,
    ensures
        v.after.peers().len() == 0,
{
    reveal(Move::made);
    if let Progress::Receiving = v.progress {
        if let Outcome::Received { packet: Some((source, pkt)) } = v.outcome {
            let x = match v.r {
                Ok((Progress::Answering { then_do }, Command::Send { out })) => Ok(
                    Reaction::Send { out, then_do },
                ),
                Ok((_, Command::Deliver { data })) => Ok(Reaction::Deliver { data }),
                Ok(_) => Ok(Reaction::Nothing),
                Err(e) => Err(e),
            };
            assert(v.before.incoming_handled(source, pkt@, v.now, v.clock, v.after, x));
            law_packet_touches_one_session(v.before, source, pkt@, v.now, v.clock, v.after, x);
        }
    }
}

/// The first INITs of a node, from its start on. To a peer towards which the node
/// opens and that does not answer, an INIT has gone out by the end of the first
/// step. All INITs to it are one and the same, of 148 bytes, in an envelope to the
/// peer's relay or bare to its endpoint, and any two are at least two seconds apart.
pub proof fn law_first_inits(
    moves: Seq<Move>,
    config: session::ManagerConfig,
    cfgs: Seq<PeerConfig>,
    start: Instant,
    clock: Tai64N,
    i: int,
)
    requires
        from_the_start(moves, config, cfgs, start, clock),
        0 <= i < cfgs.len(),
        cfgs[i].is_initiator,
        unanswered(moves, i),
    ensures
        moves.last().r matches Ok((_, Command::Finished)) ==> exists|k: int|
            0 <= k < moves.len() && (#[trigger] moves[k]).sends_init(i),
        forall|k: int|
            0 <= k < moves.len() && (#[trigger] moves[k]).sends_init(i) ==> {
                let init = moves.last().after.peers()[i].cached_init;
                &&& init is Some && init->0@.len() == INIT_SIZE
                &&& moves[k].r->Ok_0.1->out.carries(
                    init->0@,
                    moves[k].before.peers()[i].config.peer_endpoint,
                    cfgs[i].via_relay,
                    cfgs[i].peer_ip@,
                    config.local_keypair.public_key(),
                )
            },
        forall|j: int, k: int|
            0 <= j < k < moves.len() && (#[trigger] moves[j]).sends_init(i)
                && (#[trigger] moves[k]).sends_init(i) ==> moves[k].init_time().nanos
                >= moves[j].init_time().nanos + session::INIT_RETRY_NANOS,
{
    let first = moves[0].before.peers()[i];
    assert(first.starts(cfgs[i], config.local_keypair, start, clock));
    if moves.last().r matches Ok((_, Command::Finished)) {
        lemma_first_step_sends(moves, i, start);
    }
    assert forall|k: int| 0 <= k < moves.len() && (#[trigger] moves[k]).sends_init(i) implies {
        let init = moves.last().after.peers()[i].cached_init;
        &&& init is Some && init->0@.len() == INIT_SIZE
        &&& moves[k].r->Ok_0.1->out.carries(
            init->0@,
            moves[k].before.peers()[i].config.peer_endpoint,
            cfgs[i].via_relay,
            cfgs[i].peer_ip@,
            config.local_keypair.public_key(),
        )
    } by {
        lemma_sent_init(moves, i, k);
    }
    assert forall|j: int, k: int|
        0 <= j < k < moves.len() && (#[trigger] moves[j]).sends_init(i)
            && (#[trigger] moves[k]).sends_init(i) implies moves[k].init_time().nanos
        >= moves[j].init_time().nanos + session::INIT_RETRY_NANOS by {
        lemma_inits_apart(moves, i, j, k);
    }
}

proof fn lemma_first_step_sends(moves: Seq<Move>, i: int, start: Instant)
    requires
        row(moves),
        moves.len() > 0,
        moves[0].progress is Begin,
        0 <= i < moves[0].before.peers().len(),
        moves[0].before.peers()[i].state is HandshakingAsInitiator,
        moves[0].before.peers()[i].cached_init is None,
        moves[0].before.peers()[i].next_init_at == Some(start),
        unanswered(moves, i),
        forall|x: int|
            0 <= x < moves.len() ==> start.nanos <= (#[trigger] moves[x]).init_time().nanos,
        moves.last().r matches Ok((_, Command::Finished)),
    ensures
        exists|k: int| 0 <= k < moves.len() && (#[trigger] moves[k]).sends_init(i),
{
    let n = moves.len() - 1;
    lemma_looked_at(moves, n);
    lemma_row_keeps(moves, i, n);
    lemma_finishes_after_timers(moves[n]);
    assert(polled_before(moves, n, i));
    let x = choose|x: int| 0 <= x < n && (#[trigger] moves[x]).polls(i);
    if !(exists|k: int| 0 <= k < moves.len() && (#[trigger] moves[k]).sends_init(i)) {
        lemma_unsent(moves, i, start, x);
        lemma_row_keeps(moves, i, x);
        assert(moves[x].made());
        lemma_poll(moves[x], i);
        assert(moves[x].sends_init(i));
    }
}

proof fn lemma_finishes_after_timers(v: Move)
    requires
        v.made(),
        v.r matches Ok((_, Command::Finished)),
    ensures
        v.progress is Maintaining,
{
    reveal(Move::made);
}

proof fn lemma_sent_init(moves: Seq<Move>, i: int, k: int)
    requires
        row(moves),
        0 <= k < moves.len(),
        0 <= i < moves[0].before.peers().len(),
        unanswered(moves, i),
        moves[k].sends_init(i),
    ensures
        ({
            let init = moves.last().after.peers()[i].cached_init;
            let c = moves[0].before.peers()[i].config;
            &&& init is Some && init->0@.len() == INIT_SIZE
            &&& moves[k].r->Ok_0.1->out.carries(
                init->0@,
                moves[k].before.peers()[i].config.peer_endpoint,
                c.via_relay,
                c.peer_ip@,
                moves[0].before.keys().public_key(),
            )
        }),
{
    lemma_row_keeps(moves, i, k);
    assert(moves[k].made());
    assert(moves[k].after.peers()[i].state is HandshakingAsInitiator);
    lemma_poll(moves[k], i);
    lemma_cached_stays(moves, i, k, moves.len() - 1);
}

proof fn lemma_inits_apart(moves: Seq<Move>, i: int, j: int, k: int)
    requires
        row(moves),
        0 <= j < k < moves.len(),
        0 <= i < moves[0].before.peers().len(),
        unanswered(moves, i),
        moves[j].sends_init(i),
        moves[k].sends_init(i),
    ensures
        moves[k].init_time().nanos >= moves[j].init_time().nanos + session::INIT_RETRY_NANOS,
{
    lemma_sent_is_noted(moves, i, j);
    assert(k > j + 1);
    lemma_waits_two_seconds(moves, i, j, k - 1);
    assert(moves[k].before == moves[k - 1].after);
    assert(moves[k - 1].after.peers()[i].state is HandshakingAsInitiator);
    assert(moves[k].made());
    lemma_row_keeps(moves, i, k);
    lemma_poll(moves[k], i);
}

/// From its start on a node sends no INIT to a peer towards which it does not open,
/// be it the first one or that of a rekey.
pub proof fn law_waiting_side_sends_no_init(
    moves: Seq<Move>,
    config: session::ManagerConfig,
    cfgs: Seq<PeerConfig>,
    start: Instant,
    clock: Tai64N,
    i: int,
    k: int,
)
    requires
        from_the_start(moves, config, cfgs, start, clock),
        0 <= i < cfgs.len(),
        !cfgs[i].is_initiator,
        0 <= k < moves.len(),
    ensures
        !moves[k].sends_init(i),
        moves[k].progress matches Progress::Maintaining { actions, .. } && actions@.len() > 0
            && actions@[0].0 == i ==> match moves[k].r {
            Ok((Progress::ActionSent { follow, .. }, Command::Send { .. })) => follow
                is KeepaliveSent,
            _ => true,
        },
{
    reveal(Move::made);
    let v = moves[k];
    assert(moves[0].before.peers()[i].starts(cfgs[i], config.local_keypair, start, clock));
    lemma_row_keeps(moves, i, k);
    assert(v.made());
    assert(v.before.peers()[i].wf(v.before.keys()));
    if let Progress::Maintaining { actions, .. } = v.progress {
        if actions@.len() > 0 && actions@[0].0 == i {
            assert(v.before.may_perform(actions@[0].0 as int, actions@[0].1));
        }
    }
}

/// The device is read only while there is a session.
pub proof fn law_device_is_read_with_a_session(v: Move)
    requires
        v.made(),
        v.r matches Ok((_, Command::ReadDevice)),
    ensures
        exists|i: int|
            0 <= i < v.before.peers().len() && (#[trigger] v.before.peers()[i]).ready(),
{
    reveal(Move::made);
}

/// After a packet of our own to a peer was noted as sent, and until another one is,
/// the age of what we last sent to the peer is the time since then. INITs count, and
/// so do RESPONSEs, keepalives and data.
pub proof fn law_tx_age(moves: Seq<Move>, i: int, k: int, at: Instant, now: Instant)
    requires
        row(moves),
        0 <= k < moves.len(),
        0 <= i < moves[0].before.peers().len(),
        moves[k].notes_sent(i) == Some(at),
        forall|x: int| k < x < moves.len() ==> (#[trigger] moves[x]).notes_sent(i) is None,
    ensures
        moves.last().after.tx_age(i, now) == Some(now.since(at)),
{
    lemma_last_sent(moves, i, k, at, moves.len() - 1);
    lemma_row_keeps(moves, i, moves.len() - 1);
}

proof fn lemma_last_sent(moves: Seq<Move>, i: int, k: int, at: Instant, n: int)
    requires
        row(moves),
        0 <= k <= n < moves.len(),
        0 <= i < moves[0].before.peers().len(),
        moves[k].notes_sent(i) == Some(at),
        forall|x: int| k < x < moves.len() ==> (#[trigger] moves[x]).notes_sent(i) is None,
    ensures
        moves[n].after.peers()[i].last_tx_at == Some(at),
    decreases n,
{
    lemma_row_keeps(moves, i, n);
    if k < n {
        lemma_last_sent(moves, i, k, at, n - 1);
        assert(moves[n].before == moves[n - 1].after);
        assert(moves[n].notes_sent(i) is None);
    }
}

/// What the timers of all peers call for is what the timers of each call for.
pub proof fn lemma_all_due(
    peers: Seq<PeerSession>,
    n: nat,
    timings: session::ManagerTimings,
    now: Instant,
)
    requires
        n <= peers.len() <= usize::MAX,
    ensures
        forall|x: int|
            0 <= x < manager::all_due(peers, n, timings, now).len() ==> {
                let e = #[trigger] manager::all_due(peers, n, timings, now)[x];
                e.0 < n && peers[e.0 as int].due(timings, now).contains(e.1)
            },
        forall|p: int, d: Due|
            0 <= p < n && #[trigger] peers[p].due(timings, now).contains(d)
                ==> manager::all_due(peers, n, timings, now).contains((p as usize, d)),
    decreases n,
{
    if n > 0 {
        let m = (n - 1) as nat;
        lemma_all_due(peers, m, timings, now);
        let front = manager::all_due(peers, m, timings, now);
        let mine = peers[m as int].due(timings, now);
        let f = |d: Due| (m as usize, d);
        let back = mine.map_values(f);
        let all = manager::all_due(peers, n, timings, now);
        assert(all == front + back);
        assert forall|x: int| 0 <= x < all.len() implies {
            let e = #[trigger] all[x];
            e.0 < n && peers[e.0 as int].due(timings, now).contains(e.1)
        } by {
            if x < front.len() {
                assert(all[x] == front[x]);
            } else {
                assert(all[x] == back[x - front.len()]);
                assert(mine.contains(mine[x - front.len()]));
            }
        }
        assert forall|p: int, d: Due|
            0 <= p < n && #[trigger] peers[p].due(timings, now).contains(d) implies all.contains(
            (p as usize, d),
        ) by {
            if p < m {
                assert(front.contains((p as usize, d)));
                let x = choose|x: int| 0 <= x < front.len() && front[x] == (p as usize, d);
                assert(all[x] == (p as usize, d));
            } else {
                let y = choose|y: int| 0 <= y < mine.len() && mine[y] == d;
                assert(back[y] == (m as usize, d));
                assert(all[front.len() + y] == (p as usize, d));
            }
        }
    }
}

/// When an INIT of a rekey is called for: not before the tick is over, and then only
/// for a peer with a session that is not stale and towards which we open, either
/// because the session has grown old and no rekey is under way, or because one is
/// and its INIT is due again.
pub proof fn law_when_rekeys_are_due(
    m: TunnelManager,
    now: Instant,
    clock: Tai64N,
    m2: TunnelManager,
    actions: Seq<(usize, Action)>,
    x: int,
)
    requires
        m.wf(),
        m.peers().len() <= usize::MAX,
        m.timers_checked(now, clock, m2, actions),
        0 <= x < actions.len(),
        actions[x].1 is StartRekey || actions[x].1 is RetryRekey,
    ensures
        now.since(m.last_maintenance()) >= m.config().timings.maintenance_tick.nanos,
        ({
            let s = m.peers()[actions[x].0 as int];
            &&& actions[x].0 < m.peers().len()
            &&& s.ready() && !s.stale && s.config.is_initiator
            &&& match s.state->rehandshake {
                None => {
                    &&& actions[x].1 is StartRekey
                    &&& s.older_than(now, m.config().timings.rekey_after)
                },
                Some(rs) => {
                    &&& actions[x].1 is RetryRekey
                    &&& now.nanos >= rs.next_retry_at.nanos
                },
            }
        }),
{
    let timings = m.config().timings;
    let due = manager::all_due(m.peers(), m.peers().len(), timings, now);
    lemma_all_due(m.peers(), m.peers().len(), timings, now);
    let s = m.peers()[actions[x].0 as int];
    assert(actions[x].0 == due[x].0);
    assert(s.answers(actions[x].1, due[x].1, m.keys(), clock));
    assert(s.due(timings, now).contains(due[x].1));
    assert(s.wf(m.keys()));
}

/// The INIT of a rekey that is sent again is, byte for byte, the one that is awaited,
/// and is sent as the first one was.
pub proof fn law_rekey_init_is_repeated(
    m: TunnelManager,
    i: int,
    m2: TunnelManager,
    out: Outgoing,
    follow: Followup,
)
    requires
        m.wf(),
        0 <= i < m.peers().len(),
        m.performed(i, Action::RetryRekey, m2, Some((out, follow))),
    ensures
        m.peers()[i].ready(),
        m.peers()[i].state->rehandshake is Some,
        out.carries(
            m.peers()[i].state->rehandshake->0.init_msg@,
            m.peers()[i].config.peer_endpoint,
            m.peers()[i].config.via_relay,
            m.peers()[i].config.peer_ip@,
            m.keys().public_key(),
        ),
        follow is RekeyRetried,
{
}

impl Move {
    /// Whether the move looks at the timers of all peers at a time, and the tick is
    /// over by then.
    pub open spec fn looks_at_timers(self, at: Instant) -> bool {
        &&& self.r matches Ok((Progress::Maintaining { at: a, .. }, _)) && a == at
        &&& !(self.progress is Maintaining) && !(self.progress is ActionSent)
        &&& at.since(self.before.last_maintenance())
            >= self.before.config().timings.maintenance_tick.nanos
    }

    /// Whether it remains to be done, after the move, that peer `i` is marked stale.
    spec fn will_mark(self, i: int) -> bool {
        marks(remaining(self.r), i)
    }
}

/// The actions that remain to be performed after a move.
spec fn remaining(r: Result<(Progress, Command), Error>) -> Seq<(usize, Action)> {
    match r {
        Ok((Progress::Maintaining { actions, .. }, _)) => actions@,
        Ok((Progress::ActionSent { actions, .. }, _)) => actions@,
        _ => Seq::empty(),
    }
}

/// Whether one of the actions marks peer `i` stale.
spec fn marks(actions: Seq<(usize, Action)>, i: int) -> bool {
    exists|x: int|
        0 <= x < actions.len() && (#[trigger] actions[x]).0 == i && actions[x].1 is MarkStale
}

proof fn lemma_timers_mark(v: Move, i: int, at: Instant)
    requires
        v.made(),
        0 <= i < v.before.peers().len() <= usize::MAX,
        v.looks_at_timers(at),
        v.before.peers()[i].ready(),
        !v.before.peers()[i].stale,
        v.before.peers()[i].silent_for(at, v.before.config().timings.reject_after),
    ensures
        v.will_mark(i),
{
    reveal(Move::made);
    let actions = (v.r->Ok_0).0->Maintaining_actions@;
    let mid = match (v.progress, v.outcome) {
        (Progress::Initiating { .. }, _) => v.before,
        (Progress::Reading { .. }, Outcome::Read { data: Some(pkt) }) => choose|
            mid: TunnelManager,
        |
            v.before.tun_packet_handled(pkt@, mid, Ok(None)) && #[trigger] mid.turned_to_timers(
                at,
                v.clock,
                v.after,
                v.r,
            ),
        (Progress::DataSent { peer, .. }, _) => choose|mid: TunnelManager|
            mid.peer_becomes(
                v.before,
                peer as int,
                PeerSession { last_tx_at: Some(v.now), ..v.before.peers()[peer as int] },
            ) && #[trigger] mid.turned_to_timers(at, v.clock, v.after, v.r),
        _ => v.before,
    };
    assert(mid.turned_to_timers(at, v.clock, v.after, v.r));
    let s = mid.peers()[i];
    let timings = mid.config().timings;
    assert(s.due(timings, at) == seq![Due::MarkStale]);
    assert(s.due(timings, at)[0] == Due::MarkStale);
    lemma_all_due(mid.peers(), mid.peers().len(), timings, at);
    let due = manager::all_due(mid.peers(), mid.peers().len(), timings, at);
    assert(mid.peers()[i].due(timings, at).contains(Due::MarkStale));
    assert(due.contains((i as usize, Due::MarkStale)));
    let x = choose|x: int| 0 <= x < due.len() && due[x] == (i as usize, Due::MarkStale);
    assert(actions[x].0 == due[x].0);
    assert(mid.peers()[actions[x].0 as int].answers(actions[x].1, due[x].1, mid.keys(), v.clock));
    assert(remaining(v.r) == actions);
}

proof fn lemma_marking_goes_on(u: Move, v: Move, i: int)
    requires
        u.made(),
        v.made(),
        v.before == u.after,
        v.progress == next_of(u.r),
        0 <= i < v.before.peers().len(),
        u.will_mark(i),
    ensures
        v.will_mark(i) || v.after.peers()[i].stale,
        !(v.r matches Ok((_, Command::Finished))),
{
    reveal(Move::made);
    let actions = remaining(u.r);
    assert(marks(actions, i));
    let x = choose|x: int|
        0 <= x < actions.len() && (#[trigger] actions[x]).0 == i && actions[x].1 is MarkStale;
    if let Progress::Maintaining { .. } = v.progress {
        if x > 0 {
            assert(actions.skip(1)[x - 1] == actions[x]);
            assert(marks(actions.skip(1), i));
            assert(remaining(v.r) == actions.skip(1));
        }
    } else {
        assert(remaining(v.r) == actions);
    }
}

proof fn lemma_marked(moves: Seq<Move>, i: int, k: int, n: int)
    requires
        row(moves),
        0 <= k <= n < moves.len(),
        0 <= i < moves[0].before.peers().len(),
        forall|x: int| 0 <= x < moves.len() ==> (#[trigger] moves[x]).quiet(i),
        moves[k].will_mark(i) || moves[k].after.peers()[i].stale,
    ensures
        moves[n].will_mark(i) || moves[n].after.peers()[i].stale,
        n > k && (moves[n].r matches Ok((_, Command::Finished)))
            ==> moves[n].after.peers()[i].stale,
    decreases n,
{
    if k < n {
        lemma_marked(moves, i, k, n - 1);
        let (u, v) = (moves[n - 1], moves[n]);
        lemma_row_keeps(moves, i, n);
        assert(u.made() && v.made());
        assert(v.before == u.after && v.progress == next_of(u.r));
        assert(v.quiet(i));
        if !v.before.peers()[i].stale {
            lemma_marking_goes_on(u, v, i);
        }
    }
}

proof fn lemma_silence(moves: Seq<Move>, i: int, k: int)
    requires
        row(moves),
        0 <= k < moves.len(),
        0 <= i < moves[0].before.peers().len(),
        forall|x: int| 0 <= x < moves.len() ==> (#[trigger] moves[x]).quiet(i),
        moves[0].before.peers()[i].ready(),
    ensures
        moves[k].before.peers()[i].ready(),
        moves[k].before.peers()[i].last_rx_at == moves[0].before.peers()[i].last_rx_at,
    decreases k,
{
    if k > 0 {
        lemma_silence(moves, i, k - 1);
        lemma_row_keeps(moves, i, k - 1);
        assert(moves[k - 1].quiet(i));
        assert(moves[k].before == moves[k - 1].after);
    }
}

/// A peer with a session from which nothing comes in a row of moves, though the last
/// sign of it is longer ago than `reject_after`, is stale once a step has looked at
/// the timers and is over, whatever else the node does meanwhile.
pub proof fn law_silent_peer_is_stale(
    moves: Seq<Move>,
    i: int,
    heard: Instant,
    k: int,
    at: Instant,
)
    requires
        row(moves),
        0 <= k < moves.len() - 1,
        0 <= i < moves[0].before.peers().len() <= usize::MAX,
        forall|x: int| 0 <= x < moves.len() ==> (#[trigger] moves[x]).quiet(i),
        moves[0].before.peers()[i].ready(),
        moves[0].before.peers()[i].last_rx_at == Some(heard),
        moves[k].looks_at_timers(at),
        at.since(heard) > moves[0].before.config().timings.reject_after.nanos,
        moves.last().r matches Ok((_, Command::Finished)),
    ensures
        moves.last().after.peers()[i].ready(),
        moves.last().after.peers()[i].stale,
{
    let n = moves.len() - 1;
    lemma_silence(moves, i, k);
    lemma_silence(moves, i, n);
    lemma_row_keeps(moves, i, k);
    lemma_row_keeps(moves, i, n);
    assert(moves[k].made());
    assert(moves[k].quiet(i) && moves[n].quiet(i));
    if !moves[k].before.peers()[i].stale {
        lemma_timers_mark(moves[k], i, at);
    }
    lemma_marked(moves, i, k, n);
}

} // verus!
