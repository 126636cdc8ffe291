//! What a node remembers between runs.

use crate::coord::db;
use crate::coord::routes::{PeerEntry, RefreshResponse, RegisterResponse};
use crate::text;
use vstd::prelude::*;

verus! {

/// A peer that the node knows of.
#[derive(Debug, Clone)]
pub struct PeerInfo {
    pub node_id: String,
    pub wg_pubkey_b64: String,
    pub ip: String,
    pub last_endpoint: Option<String>,
    pub via_relay: Option<String>,
}

impl Default for PeerInfo {
    fn default() -> (r: Self)
        ensures
            r.node_id@ == ""@,
            r.wg_pubkey_b64@ == ""@,
            r.ip@ == ""@,
            r.last_endpoint is None,
            r.via_relay is None,
    {
        PeerInfo {
            node_id: "".to_string(),
            wg_pubkey_b64: "".to_string(),
            ip: "".to_string(),
            last_endpoint: None,
            via_relay: None,
        }
    }
}

/// What a node remembers.
#[derive(Debug, Clone)]
pub struct State {
    pub node_id: String,
    pub ip: String,
    pub auth_token: String,
    pub auth_token_expires_at: Option<i64>,
    pub last_endpoint: Option<String>,
    pub last_handshake_at: Option<i64>,
    pub known_peers: Vec<PeerInfo>,
}

/// Whether a remembered peer is an entry of the server's list.
pub open spec fn remembers(p: PeerInfo, e: PeerEntry) -> bool {
    &&& p.node_id@ == e.node_id@
    &&& p.wg_pubkey_b64@ == e.wg_pubkey@
    &&& p.ip@ == e.ip@
    &&& db::chars_of(p.last_endpoint) == db::chars_of(e.last_endpoint)
    &&& db::chars_of(p.via_relay) == db::chars_of(e.via_relay)
}

/// What a report says of a token.
#[derive(Debug, Clone, Copy, PartialEq, Eq, Structural)]
pub enum TokenStatus {
    /// It counts for so many seconds more.
    Valid { expires_at: i64, remaining: i64 },
    /// It has expired.
    Expired,
    /// It is not known when it expires.
    Unknown,
}

impl State {
    /// Whether this is the state of a node that has just registered.
    pub open spec fn has_registered(self, resp: RegisterResponse) -> bool {
        &&& self.node_id@ == resp.node_id@
        &&& self.ip@ == resp.ip@
        &&& self.auth_token@ == resp.auth_token@
        &&& self.auth_token_expires_at == Some(resp.auth_token_expires_at)
        &&& self.last_endpoint is None
        &&& self.last_handshake_at is None
        &&& self.known_peers@.len() == 0
    }

    /// The state of a node that has just registered.
    pub fn registered(resp: &RegisterResponse) -> (r: Self)
        ensures
            r.has_registered(*resp),
    {
        State {
            node_id: resp.node_id.clone(),
            ip: resp.ip.clone(),
            auth_token: resp.auth_token.clone(),
            auth_token_expires_at: Some(resp.auth_token_expires_at),
            last_endpoint: None,
            last_handshake_at: None,
            known_peers: Vec::new(),
        }
    }

    /// Whether the server's list of peers is remembered in place of what was known, and
    /// nothing else changed.
    pub open spec fn learned(self, peers: Seq<PeerEntry>, after: State) -> bool {
        &&& after.known_peers@.len() == peers.len()
        &&& forall|i: int|
            0 <= i < peers.len() ==> remembers(#[trigger] after.known_peers@[i], peers[i])
        &&& after == (State { known_peers: after.known_peers, ..self })
    }

    /// Remembers the server's list of peers in place of what was known.
    pub fn learn_peers(&mut self, peers: &Vec<PeerEntry>)
        ensures
            old(self).learned(peers@, *final(self)),
    {
        let mut known: Vec<PeerInfo> = Vec::new();
        let mut i: usize = 0;
        while i < peers.len()
            invariant
                i <= peers@.len(),
                known@.len() == i,
                forall|k: int| 0 <= k < i ==> remembers(#[trigger] known@[k], peers@[k]),
            decreases peers@.len() - i,
        {
            let e = &peers[i];
            known.push(
                PeerInfo {
                    node_id: e.node_id.clone(),
                    wg_pubkey_b64: e.wg_pubkey.clone(),
                    ip: e.ip.clone(),
                    last_endpoint: db::copy_text(&e.last_endpoint),
                    via_relay: db::copy_text(&e.via_relay),
                },
            );
            i = i + 1;
        }
        self.known_peers = known;
    }

    /// Remembers a new token.
    pub fn take_token(&mut self, resp: &RefreshResponse)
        ensures
            final(self).auth_token@ == resp.auth_token@,
            *final(self) == (State {
                auth_token: final(self).auth_token,
                auth_token_expires_at: Some(resp.auth_token_expires_at),
                ..*old(self)
            }),
    {
        self.auth_token = resp.auth_token.clone();
        self.auth_token_expires_at = Some(resp.auth_token_expires_at);
    }

    /// Remembers where the node was announced last, and when.
    pub fn announced(&mut self, endpoint: &str, now: i64)
        ensures
            db::chars_of(final(self).last_endpoint) == Some(endpoint@),
            *final(self) == (State {
                last_endpoint: final(self).last_endpoint,
                last_handshake_at: Some(now),
                ..*old(self)
            }),
    {
        self.last_endpoint = Some(endpoint.to_string());
        self.last_handshake_at = Some(now);
    }

    /// What there is to say of the node's token.
    pub fn token_status(&self, now: i64) -> (r: TokenStatus)
        requires
            self.auth_token_expires_at matches Some(t) ==> t - now <= i64::MAX,
        ensures
            r == status_at(self.auth_token_expires_at, now),
    {
        match self.auth_token_expires_at {
            Some(t) => if t > now {
                TokenStatus::Valid { expires_at: t, remaining: t - now }
            } else {
                TokenStatus::Expired
            },
            None => TokenStatus::Unknown,
        }
    }
}

/// What there is to say of a token that expires at a moment, or of which that is not
/// known.
pub open spec fn status_at(expires_at: Option<i64>, now: i64) -> TokenStatus {
    match expires_at {
        Some(t) => if t > now {
            TokenStatus::Valid { expires_at: t, remaining: (t - now) as i64 }
        } else {
            TokenStatus::Expired
        },
        None => TokenStatus::Unknown,
    }
}

/// Whether a token counts no longer at a moment, or is not known to.
pub open spec fn expired(expires_at: Option<i64>, moment: int) -> bool {
    expires_at matches Some(t) ==> t <= moment
}

/// Whether a token has to be exchanged before it is used: it has expired, or it is
/// not known when it does.
pub fn is_token_expired(expires_at: Option<i64>, now: i64) -> (r: bool)
    ensures
        r == expired(expires_at, now as int),
{
    match expires_at {
        Some(t) => t <= now,
        None => true,
    }
}

/// Whether a token expires within `grace_secs`, has expired, or is not known to
/// expire at any time.
pub fn is_token_expired_soon(expires_at: Option<i64>, grace_secs: i64, now: i64) -> (r: bool)
    requires
        i64::MIN <= now + grace_secs <= i64::MAX,
    ensures
        r == expired(expires_at, now + grace_secs),
{
    match expires_at {
        Some(t) => t <= now + grace_secs,
        None => true,
    }
}

/// Reads the daemon's process number.
pub fn parse_pid(content: &str) -> (r: Result<i32, crate::cli::error::Error>)
    ensures
        match r {
            Ok(pid) => text::int_of(content@) == Some(pid as i64),
            Err(e) => {
                &&& e@ == crate::cli::error::Failure::BadConfig("bad PID file"@)
                &&& text::int_of(content@) matches Some(v) ==> v < i32::MIN || v > i32::MAX
            },
        },
{
    match text::parse_i64(content) {
        Some(v) => {
            if v >= i32::MIN as i64 && v <= i32::MAX as i64 {
                return Ok(v as i32);
            }
        },
        None => {},
    }
    Err(crate::cli::error::Error::BadConfig("bad PID file".to_string()))
}

/// A token that has expired stays so, and is one that expires soon.
pub proof fn law_expired_stays_expired(expires_at: Option<i64>, grace_secs: i64, now: i64)
    requires
        0 <= grace_secs,
        expired(expires_at, now as int),
    ensures
        expired(expires_at, now + grace_secs),
{
}

/// A token counts as expired from the second at which it expires, and where it is not
/// known when it does.
pub proof fn law_when_a_token_has_expired(t: i64, moment: int)
    ensures
        expired(Some(t), moment) <==> moment >= t,
        expired(None, moment),
{
}

/// After the server's list was learned, the node remembers as many peers as it lists, in
/// its order, and of each what the list says of it, field by field. The token and all
/// else stay.
pub proof fn law_listed_peers_are_remembered(
    s: State,
    peers: Seq<PeerEntry>,
    after: State,
    i: int,
    p: PeerInfo,
    e: PeerEntry,
)
    requires
        s.learned(peers, after),
        0 <= i < peers.len(),
        p == after.known_peers@[i],
        e == peers[i],
    ensures
        after.known_peers@.len() == peers.len(),
        after.auth_token == s.auth_token && after.auth_token_expires_at == s.auth_token_expires_at,
        after.node_id == s.node_id && after.ip == s.ip,
        after.last_endpoint == s.last_endpoint && after.last_handshake_at == s.last_handshake_at,
        p.node_id@ == e.node_id@,
        p.wg_pubkey_b64@ == e.wg_pubkey@,
        p.ip@ == e.ip@,
        match (p.last_endpoint, e.last_endpoint) {
            (Some(x), Some(y)) => x@ == y@,
            (None, None) => true,
            _ => false,
        },
        match (p.via_relay, e.via_relay) {
            (Some(x), Some(y)) => x@ == y@,
            (None, None) => true,
            _ => false,
        },
{
    assert(remembers(after.known_peers@[i], peers[i]));
}

/// A token is valid exactly as long as it has not expired, and what remains of it ends
/// when it does.
pub proof fn law_status_of_a_token(t: i64, now: i64)
    requires
        t - now <= i64::MAX,
    ensures
        match status_at(Some(t), now) {
            TokenStatus::Valid { expires_at, remaining } => {
                &&& !expired(Some(t), now as int)
                &&& expires_at == t
                &&& remaining > 0 && now + remaining == t
            },
            TokenStatus::Expired => expired(Some(t), now as int),
            TokenStatus::Unknown => false,
        },
        status_at(None, now) is Unknown,
{
}

/// A node that has registered uses the token, the identifier and the address that the
/// server answered with, and exchanges the token once it has expired and not before.
pub proof fn law_registered_node_remembers(s: State, resp: RegisterResponse, now: i64)
    requires
        s.has_registered(resp),
    ensures
        s.auth_token@ == resp.auth_token@,
        s.node_id@ == resp.node_id@,
        s.ip@ == resp.ip@,
        expired(s.auth_token_expires_at, now as int) <==> now >= resp.auth_token_expires_at,
        s.last_endpoint is None && s.last_handshake_at is None,
        s.known_peers@ == Seq::<PeerInfo>::empty(),
{
    assert(s.known_peers@ =~= Seq::<PeerInfo>::empty());
}

} // verus!
