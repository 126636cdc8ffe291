//! The state that the tunnel keeps per peer.

use crate::crypto::handshake;
use crate::crypto::handshake::{Initiator, Responder};
use crate::crypto::keys::Keypair;
use crate::crypto::noise::NoiseParty;
use crate::crypto::timestamp::Tai64N;
use crate::crypto::transport::Transport;
use crate::net::Endpoint;
use crate::time::{Duration, Instant};
use vstd::prelude::*;
use vstd::slice::slice_to_vec;

verus! {

/// How long an initiator waits for a RESPONSE before it sends its INIT again.
pub const INIT_RETRY_NANOS: u64 = 2_000_000_000;

/// When keepalives, rekeys and staleness fall due.
#[derive(Debug, Clone, Copy)]
pub struct ManagerTimings {
    /// How long a session may be silent on our side.
    pub keepalive: Duration,
    /// How old a session may become.
    pub rekey_after: Duration,
    /// How long a peer may be silent.
    pub reject_after: Duration,
    /// How often the timers are looked at.
    pub maintenance_tick: Duration,
}

impl Default for ManagerTimings {
    fn default() -> (r: Self)
        ensures
            r.keepalive.nanos == 10 * 1_000_000_000,
            r.rekey_after.nanos == 120 * 1_000_000_000,
            r.reject_after.nanos == 180 * 1_000_000_000,
            r.maintenance_tick.nanos == 500 * 1_000_000,
    {
        ManagerTimings {
            keepalive: Duration::from_secs(10),
            rekey_after: Duration::from_secs(120),
            reject_after: Duration::from_secs(180),
            maintenance_tick: Duration::from_millis(500),
        }
    }
}

/// What the tunnel knows of its own node.
pub struct ManagerConfig {
    /// The node's static keys.
    pub local_keypair: Keypair,
    /// The node's mesh address.
    pub local_ip: [u8; 4],
    /// The timers.
    pub timings: ManagerTimings,
}

impl Default for ManagerConfig {
    fn default() -> (r: Self)
        ensures
            r.local_keypair.matched(),
            r.local_ip@ == seq![0u8, 0u8, 0u8, 0u8],
            r.timings.keepalive.nanos == 10 * 1_000_000_000,
            r.timings.rekey_after.nanos == 120 * 1_000_000_000,
            r.timings.reject_after.nanos == 180 * 1_000_000_000,
            r.timings.maintenance_tick.nanos == 500 * 1_000_000,
    {
        let local_ip = [0u8; 4];
        assert(local_ip@ =~= seq![0u8, 0u8, 0u8, 0u8]);
        ManagerConfig {
            local_keypair: Keypair::generate(),
            local_ip,
            timings: ManagerTimings::default(),
        }
    }
}

/// What the tunnel is told of a peer.
pub struct PeerConfig {
    /// The peer's static public key.
    pub peer_pub: [u8; 32],
    /// The pre-shared key.
    pub psk: [u8; 32],
    /// The identifier under which the peer addresses us.
    pub local_sender_id: u32,
    /// Whether we open the handshake.
    pub is_initiator: bool,
    /// Where the peer can be reached.
    pub peer_endpoint: Endpoint,
    /// The peer's mesh address.
    pub peer_ip: [u8; 4],
    /// The relay through which all packets to the peer go, if any.
    pub via_relay: Option<Endpoint>,
}

/// A rekey that we opened and that is not answered yet.
pub struct Rehandshake {
    /// The initiator whose INIT is out.
    pub initiator: Initiator,
    /// That INIT, for sending it again.
    pub init_msg: Vec<u8>,
    /// When the rekey was opened.
    pub started_at: Instant,
    /// When the INIT is sent again.
    pub next_retry_at: Instant,
}

/// Where the handshake with a peer stands.
pub enum PeerState {
    /// There is no handshake and no session.
    Init,
    /// We opened the handshake, or are about to.
    HandshakingAsInitiator(Initiator),
    /// We wait for the peer to open the handshake.
    HandshakingAsResponder(Responder),
    /// There is a session. It keeps working while a rekey is under way.
    Ready { transport: Transport, peer_sender_id: u32, rehandshake: Option<Rehandshake> },
}

/// Everything that the tunnel keeps of a peer.
pub struct PeerSession {
    /// What we were told of the peer.
    pub config: PeerConfig,
    /// Where the handshake stands.
    pub state: PeerState,
    /// When the next INIT is due.
    pub next_init_at: Option<Instant>,
    /// The INIT that is out.
    pub cached_init: Option<Vec<u8>>,
    /// When we last heard from the peer.
    pub last_rx_at: Option<Instant>,
    /// When we last sent a packet of our own to the peer.
    pub last_tx_at: Option<Instant>,
    /// When a handshake last completed.
    pub last_handshake_at: Option<Instant>,
    /// Whether the peer was silent for too long.
    pub stale: bool,
}

/// What a timer of a peer calls for.
pub enum Due {
    /// The peer was silent for too long.
    MarkStale,
    /// We were silent for too long.
    SendKeepalive,
    /// The session has grown old.
    StartRekey,
    /// A rekey is not answered yet.
    RetryRekey,
}

/// What is done for a peer when a timer calls for it.
pub enum Action {
    /// Mark the peer stale.
    MarkStale,
    /// Send an empty frame.
    SendKeepalive,
    /// Send the INIT of a rekey.
    StartRekey { initiator: Initiator, init_msg: Vec<u8> },
    /// Send the INIT of a rekey again.
    RetryRekey,
}

/// The responding side of a handshake with a peer, before anything is read.
pub open spec fn fresh_responding(keys: Keypair, cfg: PeerConfig) -> NoiseParty {
    NoiseParty::responding(handshake::prologue(), cfg.psk@, keys.secret())
}

/// The initiating side of a handshake with a peer, before anything is written.
pub open spec fn fresh_initiating(keys: Keypair, cfg: PeerConfig) -> NoiseParty {
    NoiseParty::initiating(handshake::prologue(), cfg.psk@, keys.secret(), cfg.peer_pub@)
}

/// Whether a responder acts for us towards a peer.
pub open spec fn responder_for(r: Responder, keys: Keypair, cfg: PeerConfig) -> bool {
    &&& r.wf()
    &&& r.id() == cfg.local_sender_id
    &&& r.own_public() == keys.public_key()
    &&& r.party().prologue == handshake::prologue()
    &&& r.party().psk == cfg.psk@
    &&& r.party().local_secret == keys.secret()
}

/// Whether an initiator acts for us towards a peer.
pub open spec fn initiator_for(i: Initiator, keys: Keypair, cfg: PeerConfig) -> bool {
    &&& i.wf()
    &&& i.id() == cfg.local_sender_id
    &&& i.own_public() == keys.public_key()
    &&& i.peer_public() == cfg.peer_pub@
    &&& i.party().prologue == handshake::prologue()
    &&& i.party().psk == cfg.psk@
    &&& i.party().local_secret == keys.secret()
    &&& i.party().remote_public == Some(cfg.peer_pub@)
}

/// Whether an initiator that acts for us towards a peer waits for the answer to an
/// INIT, and to that INIT only.
pub open spec fn awaits(i: Initiator, keys: Keypair, cfg: PeerConfig, init: Seq<u8>) -> bool {
    &&& initiator_for(i, keys, cfg)
    &&& handshake::init_written(
        fresh_initiating(keys, cfg),
        cfg.local_sender_id,
        i.time(),
        cfg.peer_pub@,
        i.party(),
        init,
    )
}

impl PeerSession {
    /// Whether there is a session.
    pub open spec fn ready(self) -> bool {
        self.state is Ready
    }

    /// A session acts for us towards its peer, an INIT that is kept for sending
    /// again is the one whose answer is waited for, and we write INITs only where
    /// we are the side that opens.
    pub open spec fn wf(self, keys: Keypair) -> bool {
        match self.state {
            PeerState::Init => true,
            PeerState::HandshakingAsInitiator(i) => {
                &&& self.config.is_initiator
                &&& initiator_for(i, keys, self.config)
                &&& match self.cached_init {
                    None => i.party() == fresh_initiating(keys, self.config),
                    Some(init) => awaits(i, keys, self.config, init@),
                }
            },
            PeerState::HandshakingAsResponder(r) => responder_for(r, keys, self.config),
            PeerState::Ready { transport, rehandshake, .. } => {
                &&& transport.wf() && transport.id() == self.config.local_sender_id
                &&& rehandshake matches Some(rs) ==> self.config.is_initiator && awaits(
                    rs.initiator,
                    keys,
                    self.config,
                    rs.init_msg@,
                )
            },
        }
    }

    /// The session under another transport end.
    pub open spec fn with_transport(self, transport: Transport) -> PeerSession {
        PeerSession {
            state: PeerState::Ready {
                transport,
                peer_sender_id: self.state->peer_sender_id,
                rehandshake: self.state->rehandshake,
            },
            ..self
        }
    }

    /// Whether the peer was silent for longer than `span`.
    pub open spec fn silent_for(self, now: Instant, span: Duration) -> bool {
        self.last_rx_at matches Some(t) && now.since(t) > span.nanos
    }

    /// Whether we sent nothing for longer than `span`, or never did.
    pub open spec fn idle_for(self, now: Instant, span: Duration) -> bool {
        self.last_tx_at matches Some(t) ==> now.since(t) > span.nanos
    }

    /// Whether the last handshake is older than `span`.
    pub open spec fn older_than(self, now: Instant, span: Duration) -> bool {
        self.last_handshake_at matches Some(t) && now.since(t) > span.nanos
    }

    /// What the timers of the peer call for. Only a session has timers. A stale
    /// peer is left alone, and a silent one becomes stale. While a rekey is under
    /// way nothing is due but its INIT, once more. Otherwise a keepalive is due
    /// after silence on our side, and a rekey where we open the handshakes and the
    /// session has grown old.
    pub open spec fn due(self, timings: ManagerTimings, now: Instant) -> Seq<Due> {
        if self.stale || !self.ready() {
            Seq::empty()
        } else if self.silent_for(now, timings.reject_after) {
            seq![Due::MarkStale]
        } else {
            match self.state->rehandshake {
                Some(rs) => if now.nanos >= rs.next_retry_at.nanos {
                    seq![Due::RetryRekey]
                } else {
                    Seq::empty()
                },
                None => {
                    let keepalive = if self.idle_for(now, timings.keepalive) {
                        seq![Due::SendKeepalive]
                    } else {
                        Seq::empty()
                    };
                    if self.config.is_initiator && self.older_than(now, timings.rekey_after)
                        && !self.config.peer_endpoint.unspecified() {
                        keepalive.push(Due::StartRekey)
                    } else {
                        keepalive
                    }
                },
            }
        }
    }

    /// Whether an action is what a timer of the peer called for. The INIT of a new
    /// rekey is freshly written by the initiator that waits for its answer.
    pub open spec fn answers(self, action: Action, due: Due, keys: Keypair, clock: Tai64N) -> bool {
        match (action, due) {
            (Action::MarkStale, Due::MarkStale) => true,
            (Action::SendKeepalive, Due::SendKeepalive) => true,
            (Action::RetryRekey, Due::RetryRekey) => true,
            (Action::StartRekey { initiator, init_msg }, Due::StartRekey) => {
                &&& self.config.is_initiator
                &&& awaits(initiator, keys, self.config, init_msg@)
                &&& initiator.time() == clock
            },
            _ => false,
        }
    }

    /// Whether the session can begin another frame.
    pub open spec fn has_counter_left(self) -> bool {
        self.state matches PeerState::Ready { transport, .. } ==> transport.counter() < u64::MAX
    }

    /// A session with a peer as it starts out: as initiator with an INIT due at
    /// once, or as responder.
    pub open spec fn starts(
        self,
        cfg: PeerConfig,
        keys: Keypair,
        now: Instant,
        clock: Tai64N,
    ) -> bool {
        &&& self.config == cfg
        &&& if cfg.is_initiator {
            &&& self.state matches PeerState::HandshakingAsInitiator(i)
            &&& initiator_for(i, keys, cfg)
            &&& i.party() == fresh_initiating(keys, cfg)
            &&& i.time() == clock
            &&& self.next_init_at == Some(now)
        } else {
            &&& self.state matches PeerState::HandshakingAsResponder(r)
            &&& responder_for(r, keys, cfg)
            &&& r.party() == fresh_responding(keys, cfg)
            &&& r.time() == clock
            &&& self.next_init_at is None
        }
        &&& self.cached_init is None
        &&& self.last_rx_at is None
        &&& self.last_tx_at is None
        &&& self.last_handshake_at is None
        &&& !self.stale
    }

    /// Whether there is a session.
    pub fn is_ready(&self) -> (r: bool)
        ensures
            r == self.ready(),
    {
        matches!(self.state, PeerState::Ready { .. })
    }

    /// Whether we wait for the peer to open the handshake.
    pub fn is_waiting(&self) -> (r: bool)
        ensures
            r == (self.state is HandshakingAsResponder),
    {
        matches!(self.state, PeerState::HandshakingAsResponder(_))
    }

    /// Opens a rekey: an initiator and its INIT.
    fn open_rekey(&self, keys: &Keypair, clock: Tai64N) -> (r: Option<Action>)
        requires
            self.config.is_initiator,
        ensures
            r matches Some(a) && self.answers(a, Due::StartRekey, *keys, clock),
    {
        let c = &self.config;
        match Initiator::new(keys, &c.peer_pub, c.psk, c.local_sender_id, clock) {
            Ok(fresh) => {
                let mut initiator = fresh;
                match initiator.write_init() {
                    Ok(frame) => {
                        let init_msg = slice_to_vec(&frame);
                        assert(init_msg@ =~= frame@);
                        Some(Action::StartRekey { initiator, init_msg })
                    },
                    Err(_) => None,
                }
            },
            Err(_) => None,
        }
    }

    /// What is to be done for the peer now.
    pub fn due_actions(
        &self,
        timings: &ManagerTimings,
        keys: &Keypair,
        now: Instant,
        clock: Tai64N,
    ) -> (r: Vec<Action>)
        ensures
            r@.len() == self.due(*timings, now).len(),
            forall|k: int|
                0 <= k < r@.len() ==> self.answers(
                    #[trigger] r@[k],
                    self.due(*timings, now)[k],
                    *keys,
                    clock,
                ),
    {
        let mut actions: Vec<Action> = Vec::new();
        if self.stale || !self.is_ready() {
            return actions;
        }
        if let Some(last_rx) = self.last_rx_at {
            if now.duration_since(last_rx).nanos > timings.reject_after.nanos {
                actions.push(Action::MarkStale);
                return actions;
            }
        }
        if let PeerState::Ready { rehandshake: Some(rs), .. } = &self.state {
            if now.nanos >= rs.next_retry_at.nanos {
                actions.push(Action::RetryRekey);
            }
            return actions;
        }
        let needs_keepalive = match self.last_tx_at {
            None => true,
            Some(t) => now.duration_since(t).nanos > timings.keepalive.nanos,
        };
        if needs_keepalive {
            actions.push(Action::SendKeepalive);
        }
        if self.config.is_initiator {
            let due = match self.last_handshake_at {
                Some(t) => now.duration_since(t).nanos > timings.rekey_after.nanos,
                None => false,
            };
            if due && !self.config.peer_endpoint.is_unspecified() {
                if let Some(a) = self.open_rekey(keys, clock) {
                    actions.push(a);
                }
            }
        }
        actions
    }

    /// Starts a session with a peer.
    pub fn start(cfg: PeerConfig, keys: &Keypair, now: Instant, clock: Tai64N) -> (r: Result<
        Self,
        crate::crypto::error::Error,
    >)
        ensures
            r matches Ok(s) && s.starts(cfg, *keys, now, clock) && s.wf(*keys),
    {
        let state = if cfg.is_initiator {
            match Initiator::new(keys, &cfg.peer_pub, cfg.psk, cfg.local_sender_id, clock) {
                Ok(i) => PeerState::HandshakingAsInitiator(i),
                Err(e) => return Err(e),
            }
        } else {
            match Responder::new(keys, cfg.psk, cfg.local_sender_id, clock) {
                Ok(r) => PeerState::HandshakingAsResponder(r),
                Err(e) => return Err(e),
            }
        };
        let next_init_at = if cfg.is_initiator {
            Some(now)
        } else {
            None
        };
        Ok(
            PeerSession {
                config: cfg,
                state,
                next_init_at,
                cached_init: None,
                last_rx_at: None,
                last_tx_at: None,
                last_handshake_at: None,
                stale: false,
            },
        )
    }
}

} // verus!
