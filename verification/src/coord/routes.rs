//! The requests of the coordination server and how they are answered.

use crate::bytes;
use crate::coord::auth;
use crate::coord::db;
use crate::coord::db::{NodeRecord, NodeView};
use crate::coord::error::{Error, Refusal};
use crate::coord::rate_limit;
use crate::coord::rate_limit::Bucket;
use crate::coord::state::AppState;
use crate::crypto::keys;
use crate::encoding;
use crate::encoding::Decoded;
use crate::net::IpAddress;
use crate::text;
use crate::time::Instant;
use uuid::Uuid;
use vstd::prelude::*;

verus! {

/// The longest request body that is looked at.
pub const MAX_BODY_BYTES: usize = 4096;

/// A request to join the mesh.
#[derive(Debug)]
pub struct RegisterRequest {
    pub identity_pubkey: String,
    pub wg_pubkey: String,
    pub timestamp: i64,
    pub signature: String,
}

/// The answer to a request to join the mesh.
#[derive(Debug, Clone)]
pub struct RegisterResponse {
    pub node_id: String,
    pub ip: String,
    pub auth_token: String,
    pub auth_token_expires_at: i64,
    pub derp_url: String,
}

/// A node, as other nodes see it.
#[derive(Debug, Clone)]
pub struct PeerEntry {
    pub node_id: String,
    pub wg_pubkey: String,
    pub ip: String,
    pub last_endpoint: Option<String>,
    pub via_relay: Option<String>,
    pub last_seen: Option<i64>,
}

/// The other nodes.
#[derive(Debug)]
pub struct PeersResponse {
    pub peers: Vec<PeerEntry>,
}

/// A sign of life.
#[derive(Debug)]
pub struct HeartbeatRequest {
    pub endpoint: String,
    pub via_relay: Option<String>,
    pub timestamp: i64,
    pub signature: String,
}

/// A request whose signature covers its kind and its timestamp.
#[derive(Debug)]
pub struct SignedRequest {
    pub timestamp: i64,
    pub signature: String,
}

/// The answer to a request for a new token.
#[derive(Debug, Clone)]
pub struct RefreshResponse {
    pub auth_token: String,
    pub auth_token_expires_at: i64,
    pub old_token_expires_at: i64,
}

/// The key that a text encodes, or why it encodes none.
pub open spec fn pubkey_of(s: Seq<char>) -> Result<Seq<u8>, Refusal> {
    match encoding::base64_decoded(s) {
        Decoded::Bytes(b) => if b.len() == 32 {
            Ok(b)
        } else {
            Err(Refusal::InvalidPubkey)
        },
        Decoded::Refused(t) => Err(Refusal::Base64(t)),
    }
}

/// The signature that a text encodes, or why it encodes none.
pub open spec fn signature_of(s: Seq<char>) -> Result<Seq<u8>, Refusal> {
    match encoding::base64_decoded(s) {
        Decoded::Bytes(b) => if b.len() == 64 {
            Ok(b)
        } else {
            Err(Refusal::InvalidRequest("invalid signature length"@))
        },
        Decoded::Refused(t) => Err(Refusal::Base64(t)),
    }
}

/// The token in an `Authorization` header.
pub open spec fn bearer_of(header: Option<Seq<char>>) -> Option<Seq<char>> {
    match header {
        Some(h) => if "Bearer "@.is_prefix_of(h) {
            Some(h.skip("Bearer "@.len() as int))
        } else {
            None
        },
        None => None,
    }
}

/// Why a signed message is refused, if it is.
pub open spec fn signed_refusal(
    public: Seq<u8>,
    msg: Seq<u8>,
    signature: Seq<char>,
    timestamp: i64,
    now: i64,
) -> Option<Refusal> {
    match signature_of(signature) {
        Err(f) => Some(f),
        Ok(sig) => if !auth::is_recent(timestamp, now) {
            Some(Refusal::InvalidTimestamp(300))
        } else if !auth::signed_by(public, msg, sig) {
            Some(Refusal::InvalidSignature)
        } else {
            None
        },
    }
}

/// Why a registration is refused before an address is looked for, if it is.
pub open spec fn register_refusal(req: RegisterRequest, now: i64) -> Option<Refusal> {
    match (pubkey_of(req.identity_pubkey@), pubkey_of(req.wg_pubkey@)) {
        (Err(f), _) => Some(f),
        (_, Err(f)) => Some(f),
        (Ok(id), Ok(wg)) => signed_refusal(
            id,
            auth::register_message(req.timestamp, id, wg),
            req.signature@,
            req.timestamp,
            now,
        ),
    }
}

/// A node as others see it, in mathematical terms.
pub open spec fn shown(e: PeerEntry, n: NodeView) -> bool {
    &&& e.node_id@ == n.node_id
    &&& e.wg_pubkey@ == encoding::base64_text(n.wg)
    &&& encoding::base64_decoded(e.wg_pubkey@) == Decoded::Bytes(n.wg)
    &&& e.ip@ == n.ip
    &&& db::chars_of(e.last_endpoint) == n.last_endpoint
    &&& db::chars_of(e.via_relay) == n.via_relay
    &&& e.last_seen == n.last_seen
}

/// Calls `Uuid::new_v4` and `to_string`. The identifier is random; its text has
/// 36 characters.
#[verifier::external_body]
fn new_node_id() -> (r: String)
    ensures
        r@.len() == 36,
{
    Uuid::new_v4().to_string()
}

/// Whether a text has the form of a token: that of 32 bytes.
pub open spec fn is_token(t: Seq<char>) -> bool {
    encoding::base64_decoded(t) matches Decoded::Bytes(b) && b.len() == 32
}

/// A fresh random token.
fn generate_token() -> (r: String)
    ensures
        is_token(r@),
{
    let bytes: [u8; 32] = keys::random_bytes();
    encoding::base64_encode(&bytes)
}

/// Says that the server is up.
pub fn health() -> (r: &'static str)
    ensures
        r@ == "ok"@,
{
    "ok"
}

/// Reads a key from its base64 text.
pub fn decode_pubkey(s: &str) -> (r: Result<[u8; 32], Error>)
    ensures
        match r {
            Ok(k) => pubkey_of(s@) == Ok::<Seq<u8>, Refusal>(k@),
            Err(e) => pubkey_of(s@) == Err::<Seq<u8>, Refusal>(e@),
        },
{
    match encoding::base64_decode(s) {
        Ok(b) => {
            if b.len() != 32 {
                return Err(Error::InvalidPubkey);
            }
            let k: [u8; 32] = bytes::take_array(b.as_slice(), 0);
            assert(k@ =~= b@);
            Ok(k)
        },
        Err(t) => Err(Error::Base64(t)),
    }
}

/// Reads a signature from its base64 text.
pub fn decode_signature(s: &str) -> (r: Result<[u8; 64], Error>)
    ensures
        match r {
            Ok(k) => signature_of(s@) == Ok::<Seq<u8>, Refusal>(k@),
            Err(e) => signature_of(s@) == Err::<Seq<u8>, Refusal>(e@),
        },
{
    match encoding::base64_decode(s) {
        Ok(b) => {
            if b.len() != 64 {
                return Err(Error::InvalidRequest("invalid signature length".to_string()));
            }
            let k: [u8; 64] = bytes::take_array(b.as_slice(), 0);
            assert(k@ =~= b@);
            Ok(k)
        },
        Err(t) => Err(Error::Base64(t)),
    }
}

/// Takes the token out of an `Authorization` header.
pub fn extract_bearer(header: Option<&str>) -> (r: Result<String, Error>)
    ensures
        match r {
            Ok(t) => bearer_of(auth::text_of(header)) == Some(t@),
            Err(e) => bearer_of(auth::text_of(header)) is None && e@ == Refusal::InvalidAuthToken,
        },
{
    match header {
        Some(h) => {
            if text::starts_with(h, "Bearer ") {
                let from: usize = "Bearer ".unicode_len();
                let to: usize = h.unicode_len();
                let token = h.substring_char(from, to);
                assert(token@ =~= h@.skip("Bearer "@.len() as int));
                Ok(token.to_string())
            } else {
                Err(Error::InvalidAuthToken)
            }
        },
        None => Err(Error::InvalidAuthToken),
    }
}

fn check_signed(
    public: &[u8],
    msg: &[u8],
    signature: &str,
    timestamp: i64,
    now: i64,
) -> (r: Result<(), Error>)
    ensures
        match r {
            Ok(_) => signed_refusal(public@, msg@, signature@, timestamp, now) is None,
            Err(e) => signed_refusal(public@, msg@, signature@, timestamp, now) == Some(e@),
        },
{
    let sig = match decode_signature(signature) {
        Ok(s) => s,
        Err(e) => return Err(e),
    };
    match auth::validate_timestamp(timestamp, now) {
        Ok(_) => {},
        Err(e) => return Err(e),
    }
    if public.len() != 32 {
        return Err(Error::InvalidSignature);
    }
    let key: [u8; 32] = bytes::take_array(public, 0);
    assert(key@ =~= public@);
    auth::verify_signature(&key, msg, &sig)
}

impl AppState {
    /// Whether a request was counted, and nothing else about the limiter changed.
    pub open spec fn counted(
        self,
        peer: IpAddress,
        bucket: Bucket,
        at: Instant,
        after: AppState,
    ) -> bool {
        &&& after.rate_limiter.log(peer, bucket) == rate_limit::logged(
            self.rate_limiter.log(peer, bucket),
            bucket.spec_limit(),
            at,
        )
        &&& forall|p: IpAddress, b: Bucket|
            p != peer || b != bucket ==> #[trigger] after.rate_limiter.log(p, b)
                == self.rate_limiter.log(p, b)
        &&& after.token_ttl_secs == self.token_ttl_secs
    }

    /// Whether a request gets past the limiter.
    pub open spec fn admits(self, peer: IpAddress, bucket: Bucket, at: Instant) -> bool {
        rate_limit::admits(self.rate_limiter.log(peer, bucket), bucket.spec_limit(), at)
    }

    /// After how many seconds a caller that made too many requests may try again:
    /// at least one.
    pub open spec fn retry_seconds(self, peer: IpAddress, bucket: Bucket, at: Instant) -> u64 {
        let kept = rate_limit::in_window(
            self.rate_limiter.log(peer, bucket),
            bucket.spec_limit().window,
            at,
        );
        let secs = (60_050_000_000 - at.since(kept[0])) / 1_000_000_000;
        if secs < 1 {
            1
        } else {
            secs as u64
        }
    }

    /// Whether a request was turned away by the limiter.
    pub open spec fn throttled(
        self,
        peer: IpAddress,
        bucket: Bucket,
        at: Instant,
        after: AppState,
        e: Error,
    ) -> bool {
        &&& e@ == Refusal::RateLimited(self.retry_seconds(peer, bucket, at))
        &&& after.db == self.db
        &&& after.ip_alloc == self.ip_alloc
    }

    fn check_rate_limit(&mut self, peer: IpAddress, bucket: Bucket, at: Instant) -> (r: Result<
        (),
        Error,
    >)
        requires
            old(self).wf(),
        ensures
            final(self).wf(),
            old(self).counted(peer, bucket, at, *final(self)),
            final(self).db == old(self).db,
            final(self).ip_alloc == old(self).ip_alloc,
            match r {
                Ok(_) => old(self).admits(peer, bucket, at),
                Err(e) => !old(self).admits(peer, bucket, at) && e@ == Refusal::RateLimited(
                    old(self).retry_seconds(peer, bucket, at),
                ),
            },
    {
        match self.rate_limiter.check(peer, bucket, at) {
            Ok(_) => Ok(()),
            Err(wait) => {
                let secs: u64 = wait.nanos / 1_000_000_000;
                Err(
                    Error::RateLimited(
                        if secs < 1 {
                            1
                        } else {
                            secs
                        },
                    ),
                )
            },
        }
    }

    /// The node that a request speaks for.
    pub open spec fn caller_of(self, header: Option<Seq<char>>, now: i64) -> Option<NodeView> {
        match bearer_of(header) {
            Some(t) => self.db.holder(t, now),
            None => None,
        }
    }

    fn find_caller(&self, header: Option<&str>, now: i64) -> (r: Result<NodeRecord, Error>)
        requires
            self.wf(),
        ensures
            match r {
                Ok(n) => self.caller_of(auth::text_of(header), now) == Some(n@),
                Err(e) => self.caller_of(auth::text_of(header), now) is None && e@
                    == Refusal::InvalidAuthToken,
            },
    {
        let token = match extract_bearer(header) {
            Ok(t) => t,
            Err(e) => return Err(e),
        };
        match self.db.get_node_by_token(token.as_str(), now) {
            Some(n) => Ok(n),
            None => Err(Error::InvalidAuthToken),
        }
    }

    /// The record of a node that registers.
    pub open spec fn record_for(
        req: RegisterRequest,
        node_id: Seq<char>,
        ip: Seq<u8>,
        now: i64,
    ) -> NodeView {
        NodeView {
            node_id,
            identity: pubkey_of(req.identity_pubkey@)->Ok_0,
            wg: pubkey_of(req.wg_pubkey@)->Ok_0,
            ip: text::dotted(ip),
            last_endpoint: None,
            via_relay: None,
            last_seen: None,
            created_at: now,
        }
    }

    /// What a registration leads to, given the identifier and the token that were
    /// drawn for it. The lowest free address is taken first; a node or token that
    /// clashes is then refused without giving the address back.
    pub open spec fn registered(
        self,
        peer: IpAddress,
        req: RegisterRequest,
        node_id: Seq<char>,
        token: Seq<char>,
        at: Instant,
        now: i64,
        after: AppState,
        r: Result<RegisterResponse, Error>,
    ) -> bool {
        &&& self.counted(peer, Bucket::Register, at, after)
        &&& if !self.admits(peer, Bucket::Register, at) {
            r matches Err(e) && self.throttled(peer, Bucket::Register, at, after, e)
        } else if register_refusal(req, now) is Some {
            &&& r matches Err(e)
            &&& e@ == register_refusal(req, now)->0
            &&& after.db == self.db
            &&& after.ip_alloc == self.ip_alloc
        } else if forall|n: u32|
            crate::coord::ip_alloc::in_pool(n) ==> #[trigger] self.ip_alloc.taken().contains(n) {
            &&& r matches Err(e)
            &&& e@ == Refusal::IpPoolExhausted
            &&& after.db == self.db
            &&& after.ip_alloc.taken() == self.ip_alloc.taken()
        } else {
            exists|ip: [u8; 4]| #[trigger]
                self.registered_at(ip, req, node_id, token, now, after, r)
        }
    }

    /// What a registration leads to that gets the address `ip`.
    pub open spec fn registered_at(
        self,
        ip: [u8; 4],
        req: RegisterRequest,
        node_id: Seq<char>,
        token: Seq<char>,
        now: i64,
        after: AppState,
        r: Result<RegisterResponse, Error>,
    ) -> bool {
        let n = bytes::from_be32(ip@);
        let record = Self::record_for(req, node_id, ip@, now);
        &&& self.ip_alloc.lowest_free(n)
        &&& after.ip_alloc.taken() == self.ip_alloc.taken().insert(n)
        &&& if self.db.clashes(record) {
            &&& r matches Err(e) && e@ is Database
            &&& after.db.nodes() == self.db.nodes()
            &&& after.db.tokens() == self.db.tokens()
        } else {
            &&& after.db.nodes() == self.db.nodes().push(record)
            &&& if self.db.has_token(token) {
                &&& r matches Err(e) && e@ is Database
                &&& after.db.tokens() == self.db.tokens()
            } else {
                &&& after.db.tokens() == self.db.tokens().push(
                    db::issued(token, node_id, now, self.token_ttl_secs),
                )
                &&& r matches Ok(resp)
                &&& resp.node_id@ == node_id
                &&& resp.ip@ == record.ip
                &&& resp.auth_token@ == token
                &&& resp.auth_token_expires_at == now + self.token_ttl_secs
                &&& resp.derp_url@ == ""@
            }
        }
    }

    /// Registers a node under the identifier and the token that were drawn for it.
    pub fn register_as(
        &mut self,
        peer: IpAddress,
        req: &RegisterRequest,
        node_id: String,
        auth_token: String,
        at: Instant,
        now: i64,
    ) -> (r: Result<RegisterResponse, Error>)
        requires
            old(self).wf(),
            i64::MIN <= now + old(self).token_ttl_secs <= i64::MAX,
        ensures
            final(self).wf(),
            old(self).registered(peer, *req, node_id@, auth_token@, at, now, *final(self), r),
            old(self).addresses_tracked() ==> final(self).addresses_tracked(),
    {
        match self.check_rate_limit(peer, Bucket::Register, at) {
            Ok(_) => {},
            Err(e) => return Err(e),
        }
        let identity_pubkey = match decode_pubkey(req.identity_pubkey.as_str()) {
            Ok(k) => k,
            Err(e) => return Err(e),
        };
        let wg_pubkey = match decode_pubkey(req.wg_pubkey.as_str()) {
            Ok(k) => k,
            Err(e) => return Err(e),
        };
        let msg = auth::build_register_message(req.timestamp, &identity_pubkey, &wg_pubkey);
        match check_signed(
            &identity_pubkey,
            msg.as_slice(),
            req.signature.as_str(),
            req.timestamp,
            now,
        ) {
            Ok(_) => {},
            Err(e) => return Err(e),
        }
        assert(register_refusal(*req, now) is None);
        let ip_bytes = match self.ip_alloc.allocate() {
            Ok(ip) => ip,
            Err(e) => return Err(e),
        };
        let ip = text::dotted_text(&ip_bytes);
        let ttl: i64 = self.token_ttl_secs;
        let record = NodeRecord {
            node_id: node_id.clone(),
            identity_pubkey: vstd::slice::slice_to_vec(&identity_pubkey),
            wg_pubkey: vstd::slice::slice_to_vec(&wg_pubkey),
            ip: ip.clone(),
            last_endpoint: None,
            via_relay: None,
            last_seen: None,
            created_at: now,
        };
        let ghost view = Self::record_for(*req, node_id@, ip_bytes@, now);
        assert(record@ =~= view);
        let inserted = self.db.insert_node(&record, auth_token.as_str(), ttl);
        proof {
            let n = bytes::from_be32(ip_bytes@);
            assert(old(self).ip_alloc.lowest_free(n));
            assert(!(forall|m: u32|
                crate::coord::ip_alloc::in_pool(m) ==> #[trigger] old(
                    self,
                ).ip_alloc.taken().contains(m)));
            if old(self).addresses_tracked() {
                text::law_dotted_round_trip(ip_bytes);
                assert forall|j: int| 0 <= j < self.db.nodes().len() implies {
                    let a = (#[trigger] self.db.nodes()[j]).ip;
                    text::is_dotted(a) && self.ip_alloc.taken().contains(
                        bytes::from_be32(text::lenient_ip(a)),
                    )
                } by {
                    if j < old(self).db.nodes().len() {
                        assert(self.db.nodes()[j] == old(self).db.nodes()[j]);
                    } else {
                        assert(self.db.nodes()[j].ip == text::dotted(ip_bytes@));
                    }
                }
            }
        }
        let r = match inserted {
            Ok(_) => Ok(
                RegisterResponse {
                    node_id,
                    ip,
                    auth_token,
                    auth_token_expires_at: now + ttl,
                    derp_url: "".to_string(),
                },
            ),
            Err(e) => Err(e),
        };
        assert(old(self).registered_at(
            ip_bytes,
            *req,
            node_id@,
            auth_token@,
            now,
            *self,
            r,
        ));
        r
    }

    /// Registers a node under a random identifier and with a random token.
    pub fn register(&mut self, peer: IpAddress, req: &RegisterRequest, at: Instant, now: i64) -> (r:
        Result<RegisterResponse, Error>)
        requires
            old(self).wf(),
            i64::MIN <= now + old(self).token_ttl_secs <= i64::MAX,
        ensures
            final(self).wf(),
            exists|node_id: Seq<char>, token: Seq<char>|
                node_id.len() == 36 && is_token(token) && #[trigger] old(self).registered(
                    peer,
                    *req,
                    node_id,
                    token,
                    at,
                    now,
                    *final(self),
                    r,
                ),
            old(self).addresses_tracked() ==> final(self).addresses_tracked(),
    {
        let node_id = new_node_id();
        let token = generate_token();
        self.register_as(peer, req, node_id, token, at, now)
    }

    /// What asking for the other nodes leads to: they are shown in the order of
    /// their registration, and nothing changes but the count of requests.
    pub open spec fn listed(
        self,
        peer: IpAddress,
        header: Option<Seq<char>>,
        at: Instant,
        now: i64,
        after: AppState,
        r: Result<PeersResponse, Error>,
    ) -> bool {
        let caller = self.caller_of(header, now);
        &&& self.counted(peer, Bucket::Default, at, after)
        &&& after.db == self.db
        &&& after.ip_alloc == self.ip_alloc
        &&& if !self.admits(peer, Bucket::Default, at) {
            r matches Err(e) && self.throttled(peer, Bucket::Default, at, after, e)
        } else if caller is None {
            r matches Err(e) && e@ == Refusal::InvalidAuthToken
        } else {
            let others = db::nodes_without(self.db.nodes(), caller->0.node_id);
            &&& r matches Ok(resp)
            &&& resp.peers@.len() == others.len()
            &&& forall|j: int|
                0 <= j < others.len() ==> shown(#[trigger] resp.peers@[j], others[j])
        }
    }

    /// Shows the caller all other nodes, in the order of their registration.
    pub fn peers(&mut self, peer: IpAddress, header: Option<&str>, at: Instant, now: i64) -> (r:
        Result<PeersResponse, Error>)
        requires
            old(self).wf(),
        ensures
            final(self).wf(),
            old(self).listed(peer, auth::text_of(header), at, now, *final(self), r),
            old(self).addresses_tracked() ==> final(self).addresses_tracked(),
    {
        match self.check_rate_limit(peer, Bucket::Default, at) {
            Ok(_) => {},
            Err(e) => return Err(e),
        }
        let caller = match self.find_caller(header, now) {
            Ok(n) => n,
            Err(e) => return Err(e),
        };
        let nodes = self.db.list_peers(Some(caller.node_id.as_str()));
        let ghost others = db::nodes_without(self.db.nodes(), caller.node_id@);
        proof {
            db::lemma_nodes_without(self.db.nodes(), caller.node_id@);
            assert forall|k: int| 0 <= k < others.len() implies db::storable(
                #[trigger] others[k],
            ) by {
                assert(others.contains(others[k]));
            }
        }
        let mut peers: Vec<PeerEntry> = Vec::new();
        let mut j: usize = 0;
        while j < nodes.len()
            invariant
                j <= nodes@.len(),
                others == db::node_views(nodes@),
                forall|k: int| 0 <= k < others.len() ==> db::storable(#[trigger] others[k]),
                peers@.len() == j,
                forall|k: int| 0 <= k < j ==> shown(#[trigger] peers@[k], others[k]),
            decreases nodes@.len() - j,
        {
            let n = &nodes[j];
            assert(others[j as int] == n@);
            peers.push(
                PeerEntry {
                    node_id: n.node_id.clone(),
                    wg_pubkey: encoding::base64_encode(n.wg_pubkey.as_slice()),
                    ip: n.ip.clone(),
                    last_endpoint: db::copy_text(&n.last_endpoint),
                    via_relay: db::copy_text(&n.via_relay),
                    last_seen: n.last_seen,
                },
            );
            j = j + 1;
        }
        Ok(PeersResponse { peers })
    }

    /// Why a heartbeat is refused once its caller is known, if it is. Whether the
    /// relay is an address is found out by the caller of this library.
    pub open spec fn heartbeat_refusal(
        caller: NodeView,
        req: HeartbeatRequest,
        relay_is_address: bool,
        now: i64,
    ) -> Option<Refusal> {
        let relay = db::chars_of(req.via_relay);
        match signed_refusal(
            caller.identity,
            auth::heartbeat_message(req.timestamp, req.endpoint@, relay),
            req.signature@,
            req.timestamp,
            now,
        ) {
            Some(f) => Some(f),
            None => if relay is Some && !relay_is_address {
                Some(
                    Refusal::InvalidRequest(
                        "via_relay "@ + text::quoted_text(relay->0) + " is not a valid ip:port"@,
                    ),
                )
            } else {
                None
            },
        }
    }

    /// What a heartbeat leads to: the caller is noted where it says that it is, and
    /// no other node and no token changes.
    pub open spec fn noted(
        self,
        peer: IpAddress,
        header: Option<Seq<char>>,
        req: HeartbeatRequest,
        relay_is_address: bool,
        at: Instant,
        now: i64,
        after: AppState,
        r: Result<(), Error>,
    ) -> bool {
        let caller = self.caller_of(header, now);
        &&& self.counted(peer, Bucket::Heartbeat, at, after)
        &&& after.ip_alloc == self.ip_alloc
        &&& if !self.admits(peer, Bucket::Heartbeat, at) {
            r matches Err(e) && self.throttled(peer, Bucket::Heartbeat, at, after, e)
        } else if caller is None {
            &&& r matches Err(e) && e@ == Refusal::InvalidAuthToken
            &&& after.db == self.db
        } else {
            match Self::heartbeat_refusal(caller->0, req, relay_is_address, now) {
                Some(f) => {
                    &&& r matches Err(e) && e@ == f
                    &&& after.db == self.db
                },
                None => {
                    &&& r is Ok
                    &&& after.db.nodes() == db::nodes_seen(
                        self.db.nodes(),
                        caller->0.node_id,
                        req.endpoint@,
                        db::chars_of(req.via_relay),
                        now,
                    )
                    &&& after.db.tokens() == self.db.tokens()
                },
            }
        }
    }

    /// Records a sign of life of the caller. `relay_is_address` says whether the
    /// relay of the request is an address and a port.
    pub fn heartbeat(
        &mut self,
        peer: IpAddress,
        header: Option<&str>,
        req: &HeartbeatRequest,
        relay_is_address: bool,
        at: Instant,
        now: i64,
    ) -> (r: Result<(), Error>)
        requires
            old(self).wf(),
        ensures
            final(self).wf(),
            old(self).noted(
                peer,
                auth::text_of(header),
                *req,
                relay_is_address,
                at,
                now,
                *final(self),
                r,
            ),
            old(self).addresses_tracked() ==> final(self).addresses_tracked(),
    {
        match self.check_rate_limit(peer, Bucket::Heartbeat, at) {
            Ok(_) => {},
            Err(e) => return Err(e),
        }
        let caller = match self.find_caller(header, now) {
            Ok(n) => n,
            Err(e) => return Err(e),
        };
        let relay = match &req.via_relay {
            Some(t) => Some(t.as_str()),
            None => None,
        };
        assert(auth::text_of(relay) == db::chars_of(req.via_relay));
        let msg = auth::build_heartbeat_message(req.timestamp, req.endpoint.as_str(), relay);
        match check_signed(
            caller.identity_pubkey.as_slice(),
            msg.as_slice(),
            req.signature.as_str(),
            req.timestamp,
            now,
        ) {
            Ok(_) => {},
            Err(e) => return Err(e),
        }
        if let Some(t) = relay {
            if !relay_is_address {
                return Err(
                    Error::InvalidRequest(
                        "via_relay ".to_string().concat(text::quoted(t).as_str()).concat(
                            " is not a valid ip:port",
                        ),
                    ),
                );
            }
        }
        self.db.update_heartbeat(caller.node_id.as_str(), req.endpoint.as_str(), relay, now);
        proof {
            if old(self).addresses_tracked() {
                assert forall|j: int| 0 <= j < self.db.nodes().len() implies {
                    let a = (#[trigger] self.db.nodes()[j]).ip;
                    text::is_dotted(a) && self.ip_alloc.taken().contains(
                        bytes::from_be32(text::lenient_ip(a)),
                    )
                } by {
                    assert(self.db.nodes()[j].ip == old(self).db.nodes()[j].ip);
                }
            }
        }
        Ok(())
    }

    /// What exchanging a token leads to, given the new token that was drawn. All
    /// tokens of the caller are taken back before the new one is issued.
    pub open spec fn refreshed(
        self,
        peer: IpAddress,
        header: Option<Seq<char>>,
        req: SignedRequest,
        token: Seq<char>,
        at: Instant,
        now: i64,
        after: AppState,
        r: Result<RefreshResponse, Error>,
    ) -> bool {
        let caller = self.caller_of(header, now);
        &&& self.counted(peer, Bucket::Token, at, after)
        &&& after.ip_alloc == self.ip_alloc
        &&& after.db.nodes() == self.db.nodes()
        &&& if !self.admits(peer, Bucket::Token, at) {
            r matches Err(e) && self.throttled(peer, Bucket::Token, at, after, e)
        } else if caller is None {
            &&& r matches Err(e) && e@ == Refusal::InvalidAuthToken
            &&& after.db == self.db
        } else {
            match signed_refusal(
                caller->0.identity,
                auth::refresh_message(req.timestamp),
                req.signature@,
                req.timestamp,
                now,
            ) {
                Some(f) => {
                    &&& r matches Err(e) && e@ == f
                    &&& after.db == self.db
                },
                None => {
                    let revoked = db::tokens_revoked(self.db.tokens(), caller->0.node_id);
                    if self.db.has_token(token) {
                        &&& r matches Err(e) && e@ is Database
                        &&& after.db.tokens() == revoked
                    } else {
                        &&& r matches Ok(resp)
                        &&& resp.auth_token@ == token
                        &&& resp.auth_token_expires_at == now + self.token_ttl_secs
                        &&& resp.old_token_expires_at == now + self.token_ttl_secs
                        &&& after.db.tokens() == revoked.push(
                            db::issued(token, caller->0.node_id, now, self.token_ttl_secs),
                        )
                    }
                },
            }
        }
    }

    /// Exchanges the caller's token for the one that was drawn.
    pub fn refresh_token_as(
        &mut self,
        peer: IpAddress,
        header: Option<&str>,
        req: &SignedRequest,
        new_token: String,
        at: Instant,
        now: i64,
    ) -> (r: Result<RefreshResponse, Error>)
        requires
            old(self).wf(),
            i64::MIN <= now + old(self).token_ttl_secs <= i64::MAX,
        ensures
            final(self).wf(),
            old(self).refreshed(
                peer,
                auth::text_of(header),
                *req,
                new_token@,
                at,
                now,
                *final(self),
                r,
            ),
            old(self).addresses_tracked() ==> final(self).addresses_tracked(),
    {
        match self.check_rate_limit(peer, Bucket::Token, at) {
            Ok(_) => {},
            Err(e) => return Err(e),
        }
        let caller = match self.find_caller(header, now) {
            Ok(n) => n,
            Err(e) => return Err(e),
        };
        let msg = auth::build_refresh_message(req.timestamp);
        match check_signed(
            caller.identity_pubkey.as_slice(),
            msg.as_slice(),
            req.signature.as_str(),
            req.timestamp,
            now,
        ) {
            Ok(_) => {},
            Err(e) => return Err(e),
        }
        self.db.revoke_all_tokens_for_node(caller.node_id.as_str());
        let ttl: i64 = self.token_ttl_secs;
        proof {
            old(self).db.lemma_revoked_tokens(self.db, caller@.node_id, new_token@);
            old(self).db.lemma_holder_is_node(
                bearer_of(auth::text_of(header))->0,
                now,
                self.db,
            );
        }
        let issued = self.db.create_token(caller.node_id.as_str(), new_token.as_str(), now, ttl);
        match issued {
            Ok(_) => Ok(
                RefreshResponse {
                    auth_token: new_token,
                    auth_token_expires_at: now + ttl,
                    old_token_expires_at: now + ttl,
                },
            ),
            Err(e) => Err(e),
        }
    }

    /// Exchanges the caller's token for a random one.
    pub fn refresh_token(
        &mut self,
        peer: IpAddress,
        header: Option<&str>,
        req: &SignedRequest,
        at: Instant,
        now: i64,
    ) -> (r: Result<RefreshResponse, Error>)
        requires
            old(self).wf(),
            i64::MIN <= now + old(self).token_ttl_secs <= i64::MAX,
        ensures
            final(self).wf(),
            exists|token: Seq<char>|
                is_token(token) && #[trigger] old(self).refreshed(
                    peer,
                    auth::text_of(header),
                    *req,
                    token,
                    at,
                    now,
                    *final(self),
                    r,
                ),
            old(self).addresses_tracked() ==> final(self).addresses_tracked(),
    {
        let token = generate_token();
        self.refresh_token_as(peer, header, req, token, at, now)
    }

    /// What deleting the caller leads to: the node and its tokens go, and its
    /// address returns to the pool where it is a proper one.
    pub open spec fn deleted(
        self,
        peer: IpAddress,
        header: Option<Seq<char>>,
        req: SignedRequest,
        at: Instant,
        now: i64,
        after: AppState,
        r: Result<(), Error>,
    ) -> bool {
        let caller = self.caller_of(header, now);
        &&& self.counted(peer, Bucket::Token, at, after)
        &&& if !self.admits(peer, Bucket::Token, at) {
            r matches Err(e) && self.throttled(peer, Bucket::Token, at, after, e)
        } else if caller is None {
            &&& r matches Err(e) && e@ == Refusal::InvalidAuthToken
            &&& after.db == self.db
            &&& after.ip_alloc == self.ip_alloc
        } else {
            match signed_refusal(
                caller->0.identity,
                auth::delete_node_message(req.timestamp),
                req.signature@,
                req.timestamp,
                now,
            ) {
                Some(f) => {
                    &&& r matches Err(e) && e@ == f
                    &&& after.db == self.db
                    &&& after.ip_alloc == self.ip_alloc
                },
                None => {
                    let id = caller->0.node_id;
                    let ip = caller->0.ip;
                    &&& r is Ok
                    &&& after.db.nodes() == db::nodes_without(self.db.nodes(), id)
                    &&& after.db.tokens() == db::tokens_without(self.db.tokens(), id)
                    &&& after.ip_alloc.taken() == if text::is_dotted(ip) {
                        self.ip_alloc.taken().remove(bytes::from_be32(text::lenient_ip(ip)))
                    } else {
                        self.ip_alloc.taken()
                    }
                },
            }
        }
    }

    /// Deletes the caller.
    pub fn delete_node(
        &mut self,
        peer: IpAddress,
        header: Option<&str>,
        req: &SignedRequest,
        at: Instant,
        now: i64,
    ) -> (r: Result<(), Error>)
        requires
            old(self).wf(),
        ensures
            final(self).wf(),
            old(self).deleted(peer, auth::text_of(header), *req, at, now, *final(self), r),
            old(self).addresses_tracked() ==> final(self).addresses_tracked(),
    {
        match self.check_rate_limit(peer, Bucket::Token, at) {
            Ok(_) => {},
            Err(e) => return Err(e),
        }
        let caller = match self.find_caller(header, now) {
            Ok(n) => n,
            Err(e) => return Err(e),
        };
        let msg = auth::build_delete_node_message(req.timestamp);
        match check_signed(
            caller.identity_pubkey.as_slice(),
            msg.as_slice(),
            req.signature.as_str(),
            req.timestamp,
            now,
        ) {
            Ok(_) => {},
            Err(e) => return Err(e),
        }
        proof {
            self.db.lemma_holder_is_node(bearer_of(auth::text_of(header))->0, now, self.db);
        }
        if let Some(ip) = self.db.delete_node(caller.node_id.as_str()) {
            assert(ip@ == caller@.ip);
            if let Some(octets) = text::parse_ipv4(ip.as_str()) {
                proof {
                    text::law_dotted_round_trip(octets);
                }
                self.ip_alloc.release(&octets);
            }
        }
        proof {
            if old(self).addresses_tracked() {
                old(self).lemma_still_tracked(*self, caller@);
            }
        }
        Ok(())
    }

    /// Giving the address of a deleted node back leaves the others' taken.
    proof fn lemma_still_tracked(self, after: AppState, gone: NodeView)
        requires
            self.wf(),
            self.addresses_tracked(),
            self.db.nodes().contains(gone),
            after.db.nodes() == db::nodes_without(self.db.nodes(), gone.node_id),
            after.ip_alloc.taken() == self.ip_alloc.taken().remove(
                bytes::from_be32(text::lenient_ip(gone.ip)),
            ) || after.ip_alloc.taken() == self.ip_alloc.taken(),
        ensures
            after.addresses_tracked(),
    {
        db::lemma_nodes_without(self.db.nodes(), gone.node_id);
        let g = choose|g: int| 0 <= g < self.db.nodes().len() && self.db.nodes()[g] == gone;
        assert forall|j: int| 0 <= j < after.db.nodes().len() implies {
            let a = (#[trigger] after.db.nodes()[j]).ip;
            text::is_dotted(a) && after.ip_alloc.taken().contains(
                bytes::from_be32(text::lenient_ip(a)),
            )
        } by {
            let n = after.db.nodes()[j];
            assert(db::nodes_without(self.db.nodes(), gone.node_id).contains(n));
            let k = choose|k: int| 0 <= k < self.db.nodes().len() && self.db.nodes()[k] == n;
            assert(text::is_dotted(self.db.nodes()[k].ip));
            assert(text::is_dotted(self.db.nodes()[g].ip));
            assert(n.ip != gone.ip) by {
                if k < g {
                    assert(!db::clash(self.db.nodes()[k], self.db.nodes()[g]));
                } else {
                    assert(!db::clash(self.db.nodes()[g], self.db.nodes()[k]));
                }
            }
            lemma_addresses_differ(n.ip, gone.ip);
        }
    }
}

/// Different dotted addresses are different numbers.
proof fn lemma_addresses_differ(a: Seq<char>, b: Seq<char>)
    requires
        text::is_dotted(a),
        text::is_dotted(b),
        a != b,
    ensures
        bytes::from_be32(text::lenient_ip(a)) != bytes::from_be32(text::lenient_ip(b)),
{
    let x = choose|x: [u8; 4]| a == #[trigger] text::dotted(x@);
    let y = choose|y: [u8; 4]| b == #[trigger] text::dotted(y@);
    text::law_dotted_round_trip(x);
    text::law_dotted_round_trip(y);
    if bytes::from_be32(x@) == bytes::from_be32(y@) {
        bytes::lemma_from_be32_injective(x@, y@);
        assert(x@ =~= y@);
    }
}

/// Once a node has exchanged its token, no earlier token of the node counts for
/// anybody, that of the request among them, and the new one, which is another,
/// counts for the node until it expires.
pub proof fn law_refresh_replaces_token(
    s: AppState,
    peer: IpAddress,
    header: Option<Seq<char>>,
    req: SignedRequest,
    token: Seq<char>,
    at: Instant,
    now: i64,
    after: AppState,
    r: Result<RefreshResponse, Error>,
    t: i64,
)
    requires
        s.wf(),
        after.wf(),
        i64::MIN <= now + s.token_ttl_secs <= i64::MAX,
        s.refreshed(peer, header, req, token, at, now, after, r),
        r is Ok,
    ensures
        bearer_of(header) is Some,
        after.db.holder(bearer_of(header)->0, t) is None,
        forall|k: int|
            0 <= k < s.db.tokens().len() && (#[trigger] s.db.tokens()[k]).node_id == s.caller_of(
                header,
                now,
            )->0.node_id ==> after.db.holder(s.db.tokens()[k].token, t) is None,
        token != bearer_of(header)->0,
        after.db.holder(token, t) == if t < now + s.token_ttl_secs {
            s.caller_of(header, now)
        } else {
            None
        },
{
    let old_token = bearer_of(header)->0;
    let (i, j) = choose|i: int, j: int| s.db.grants(i, j, old_token, now);
    assert(s.db.grants(i, j, old_token, now));
    let n = s.db.nodes()[j];
    let k = s.db.tokens().len() as int;
    assert(after.db.tokens()[i].token == old_token);
    assert(after.db.tokens()[i].revoked);
    db::law_revoked_token_is_rejected(after.db, old_token, t, i);
    assert(s.db.has_token(old_token));
    assert forall|x: int|
        0 <= x < s.db.tokens().len() && (#[trigger] s.db.tokens()[x]).node_id == s.caller_of(
            header,
            now,
        )->0.node_id implies after.db.holder(s.db.tokens()[x].token, t) is None by {
        assert(after.db.tokens()[x].token == s.db.tokens()[x].token);
        assert(after.db.tokens()[x].revoked);
        db::law_revoked_token_is_rejected(after.db, s.db.tokens()[x].token, t, x);
    }
    assert(after.db.tokens()[k] == db::issued(token, n.node_id, now, s.token_ttl_secs));
    db::law_issued_token_counts(after.db, k, j, t);
}

/// An exchange that is refused leaves every token as it was.
pub proof fn law_refused_exchange_changes_nothing(
    s: AppState,
    peer: IpAddress,
    header: Option<Seq<char>>,
    req: SignedRequest,
    token: Seq<char>,
    at: Instant,
    now: i64,
    after: AppState,
    e: Error,
)
    requires
        s.refreshed(peer, header, req, token, at, now, after, Err(e)),
        !(e@ is Database),
    ensures
        after.db == s.db,
{
}

/// Once a node is deleted, none of its tokens counts any more, nobody sees it,
/// and its address is handed out again before any higher one.
pub proof fn law_deleted_node_is_gone(
    s: AppState,
    peer: IpAddress,
    header: Option<Seq<char>>,
    req: SignedRequest,
    at: Instant,
    now: i64,
    after: AppState,
    r: Result<(), Error>,
    token: Seq<char>,
    t: i64,
    next: u32,
)
    requires
        s.wf(),
        after.wf(),
        s.addresses_tracked(),
        s.deleted(peer, header, req, at, now, after, r),
        r is Ok,
        exists|i: int|
            0 <= i < s.db.tokens().len() && (#[trigger] s.db.tokens()[i]).token == token
                && s.db.tokens()[i].node_id == s.caller_of(header, now)->0.node_id,
        after.ip_alloc.lowest_free(next),
    ensures
        after.db.holder(token, t) is None,
        !after.db.has_node(s.caller_of(header, now)->0.node_id),
        ({
            let n = bytes::from_be32(text::lenient_ip(s.caller_of(header, now)->0.ip));
            crate::coord::ip_alloc::in_pool(n) ==> next <= n
        }),
{
    let gone = s.caller_of(header, now)->0;
    db::lemma_nodes_without(s.db.nodes(), gone.node_id);
    db::lemma_tokens_without(s.db.tokens(), gone.node_id);
    if after.db.has_node(gone.node_id) {
        let j = choose|j: int|
            0 <= j < after.db.nodes().len() && (#[trigger] after.db.nodes()[j]).node_id
                == gone.node_id;
        assert(db::nodes_without(s.db.nodes(), gone.node_id).contains(after.db.nodes()[j]));
    }
    let i = choose|i: int|
        0 <= i < s.db.tokens().len() && (#[trigger] s.db.tokens()[i]).token == token
            && s.db.tokens()[i].node_id == gone.node_id;
    assert forall|a: int, b: int| !after.db.grants(a, b, token, t) by {
        if after.db.grants(a, b, token, t) {
            let v = after.db.tokens()[a];
            assert(db::tokens_without(s.db.tokens(), gone.node_id).contains(v));
            let m = choose|m: int| 0 <= m < s.db.tokens().len() && s.db.tokens()[m] == v;
            if m < i {
                assert(s.db.tokens()[m].token != s.db.tokens()[i].token);
            } else if i < m {
                assert(s.db.tokens()[i].token != s.db.tokens()[m].token);
            }
        }
    }
    let bearer = bearer_of(header)->0;
    s.db.lemma_holder_is_node(bearer, now, s.db);
    let g = choose|g: int| 0 <= g < s.db.nodes().len() && s.db.nodes()[g] == gone;
    assert(text::is_dotted(s.db.nodes()[g].ip));
    let n = bytes::from_be32(text::lenient_ip(gone.ip));
    assert(!after.ip_alloc.taken().contains(n));
}

/// A node that has registered is seen by every other node but not by itself, and
/// its token counts for it until it expires.
pub proof fn law_registered_node_is_seen(
    s: AppState,
    ip: [u8; 4],
    req: RegisterRequest,
    node_id: Seq<char>,
    token: Seq<char>,
    now: i64,
    after: AppState,
    r: Result<RegisterResponse, Error>,
    other: Seq<char>,
    t: i64,
)
    requires
        s.wf(),
        after.wf(),
        i64::MIN <= now + s.token_ttl_secs <= i64::MAX,
        s.registered_at(ip, req, node_id, token, now, after, r),
        r is Ok,
    ensures
        ({
            let record = AppState::record_for(req, node_id, ip@, now);
            &&& db::nodes_without(after.db.nodes(), other).contains(record) == (other != node_id)
            &&& after.db.holder(token, t) == if t < now + s.token_ttl_secs {
                Some(record)
            } else {
                None
            }
        }),
{
    let record = AppState::record_for(req, node_id, ip@, now);
    let j = s.db.nodes().len() as int;
    let i = s.db.tokens().len() as int;
    assert(after.db.nodes()[j] == record);
    assert(after.db.tokens()[i] == db::issued(token, node_id, now, s.token_ttl_secs));
    db::lemma_nodes_without(after.db.nodes(), other);
    db::law_issued_token_counts(after.db, i, j, t);
}

/// A new node never gets the address of another one.
pub proof fn law_new_address_is_unused(s: AppState, ip: [u8; 4], j: int)
    requires
        s.addresses_tracked(),
        s.ip_alloc.lowest_free(bytes::from_be32(ip@)),
        0 <= j < s.db.nodes().len(),
    ensures
        s.db.nodes()[j].ip != text::dotted(ip@),
{
    text::law_dotted_round_trip(ip);
    assert(text::is_dotted(s.db.nodes()[j].ip));
}

/// A heartbeat is what the other nodes see afterwards of the node that sent it,
/// and they see nothing else changed.
pub proof fn law_heartbeat_is_seen(
    nodes: Seq<NodeView>,
    id: Seq<char>,
    endpoint: Seq<char>,
    via_relay: Option<Seq<char>>,
    now: i64,
    j: int,
)
    requires
        0 <= j < nodes.len(),
    ensures
        ({
            let after = db::nodes_seen(nodes, id, endpoint, via_relay, now);
            &&& after.len() == nodes.len()
            &&& nodes[j].node_id != id ==> after[j] == nodes[j]
            &&& nodes[j].node_id == id ==> {
                &&& after[j].last_endpoint == Some(endpoint)
                &&& after[j].last_seen == Some(now)
                &&& after[j].via_relay == if via_relay is Some {
                    via_relay
                } else {
                    nodes[j].via_relay
                }
                &&& after[j].ip == nodes[j].ip && after[j].wg == nodes[j].wg
            }
        }),
{
}

} // verus!
