//! What the server owes its callers: who is let in, what is stored of them, and
//! what the others get to see.

use crate::bytes;
use crate::coord::db;
use crate::coord::db::{NodeView, TokenView};
use crate::coord::error::{Error, Refusal};
use crate::coord::rate_limit;
use crate::coord::rate_limit::Bucket;
use crate::coord::routes::{
    HeartbeatRequest, PeerEntry, PeersResponse, RefreshResponse, RegisterRequest, RegisterResponse,
    SignedRequest,
};
use crate::coord::state::AppState;
use crate::crypto::identity;
use crate::encoding;
use crate::encoding::Decoded;
use crate::net::IpAddress;
use crate::text;
use crate::time::Instant;
use vstd::prelude::*;
use vstd::utf8::*;

verus! {

/// Whether a header holds the `i`th token, which counts at `now` and belongs to
/// the `c`th node.
pub open spec fn speaks(
    s: AppState,
    header: Option<Seq<char>>,
    now: i64,
    i: int,
    c: int,
) -> bool {
    &&& 0 <= i < s.db.tokens().len()
    &&& 0 <= c < s.db.nodes().len()
    &&& header == Some("Bearer "@ + s.db.tokens()[i].token)
    &&& !s.db.tokens()[i].revoked
    &&& now < s.db.tokens()[i].expires_at
    &&& s.db.tokens()[i].node_id == s.db.nodes()[c].node_id
}

/// Whether the holder of an identity signed a message not more than five minutes
/// away from `now`.
pub open spec fn well_signed(
    public: Seq<u8>,
    msg: Seq<u8>,
    signature: Seq<char>,
    timestamp: i64,
    now: i64,
) -> bool {
    &&& now - 300 <= timestamp <= now + 300
    &&& public.len() == 32
    &&& identity::ed25519_is_point(public)
    &&& encoding::base64_decoded(signature) matches Decoded::Bytes(sig) && sig.len() == 64
        && identity::ed25519_accepts(public, msg, sig)
}

/// A header speaks for the node whose token it holds, as long as that token
/// counts.
pub proof fn law_token_names_its_node(
    s: AppState,
    header: Option<Seq<char>>,
    now: i64,
    i: int,
    c: int,
)
    requires
        s.wf(),
        speaks(s, header, now, i, c),
    ensures
        s.caller_of(header, now) == Some(s.db.nodes()[c]),
{
    let token = s.db.tokens()[i].token;
    assert(("Bearer "@ + token).skip("Bearer "@.len() as int) =~= token);
    db::law_issued_token_counts(s.db, i, c, now);
}

/// A header that speaks for a node holds a token that counts and belongs to it.
pub proof fn law_no_other_token_speaks(s: AppState, header: Option<Seq<char>>, now: i64)
    requires
        s.wf(),
        s.caller_of(header, now) is Some,
    ensures
        exists|i: int, c: int| #[trigger]
            speaks(s, header, now, i, c) && s.caller_of(header, now) == Some(s.db.nodes()[c]),
{
    let h = header->0;
    let token = h.skip("Bearer "@.len() as int);
    assert(h =~= "Bearer "@ + token);
    let (i, c) = choose|i: int, c: int| s.db.grants(i, c, token, now);
    assert(s.db.grants(i, c, token, now));
    assert(speaks(s, header, now, i, c));
}

/// How many requests of a kind are admitted within a minute.
pub open spec fn most(bucket: Bucket) -> int {
    match bucket {
        Bucket::Register => 5,
        Bucket::Heartbeat => 30,
        Bucket::Token => 10,
        Bucket::Default => 120,
    }
}

proof fn lemma_window_is_tail(log: Seq<Instant>, limit: rate_limit::Limit, now: Instant)
    ensures
        rate_limit::in_window(log, limit.window, now).len() <= log.len(),
    decreases log.len(),
{
    if log.len() > 0 && now.since(log[0]) >= limit.window.nanos {
        lemma_window_is_tail(log.skip(1), limit, now);
    }
}

/// A caller with fewer requests behind it than its limit is admitted. One whose
/// limit is used up within the last minute is not, and is told to wait until the
/// first of those requests is a minute old, and for a second at the least.
pub proof fn law_who_is_admitted(s: AppState, peer: IpAddress, bucket: Bucket, at: Instant)
    ensures
        ({
            let log = s.rate_limiter.log(peer, bucket);
            &&& log.len() < most(bucket) ==> s.admits(peer, bucket, at)
            &&& log.len() >= most(bucket) && log[0].nanos <= at.nanos < log[0].nanos
                + 60_000_000_000 ==> {
                &&& !s.admits(peer, bucket, at)
                &&& s.retry_seconds(peer, bucket, at) >= 1
                &&& s.retry_seconds(peer, bucket, at) == 1 || s.retry_seconds(peer, bucket, at)
                    == (log[0].nanos + 60_050_000_000 - at.nanos) / 1_000_000_000
                &&& at.nanos + s.retry_seconds(peer, bucket, at) * 1_000_000_000
                    > log[0].nanos + 59_050_000_000
            }
        }),
{
    lemma_window_is_tail(s.rate_limiter.log(peer, bucket), bucket.spec_limit(), at);
}

/// Whether a request of a caller was counted as one of a kind, and as nothing else.
pub open spec fn counts_once(
    s: AppState,
    peer: IpAddress,
    bucket: Bucket,
    at: Instant,
    after: AppState,
) -> bool {
    let log = after.rate_limiter.log(peer, bucket);
    &&& 0 < log.len() <= s.rate_limiter.log(peer, bucket).len() + 1
    &&& log.last() == at
    &&& forall|p: IpAddress, b: Bucket|
        p != peer || b != bucket ==> #[trigger] after.rate_limiter.log(p, b)
            == s.rate_limiter.log(p, b)
}

proof fn lemma_all_pass(nodes: Seq<NodeView>, id: Seq<char>)
    requires
        forall|j: int| 0 <= j < nodes.len() ==> (#[trigger] nodes[j]).node_id != id,
    ensures
        db::nodes_without(nodes, id) == nodes,
    decreases nodes.len(),
{
    reveal(Seq::filter);
    if nodes.len() > 0 {
        let front = nodes.drop_last();
        assert forall|j: int| 0 <= j < front.len() implies (#[trigger] front[j]).node_id != id by {
            assert(front[j] == nodes[j]);
        }
        lemma_all_pass(front, id);
        assert(nodes[nodes.len() - 1].node_id != id);
        assert(front.push(nodes.last()) =~= nodes);
    } else {
        assert(db::nodes_without(nodes, id) =~= nodes);
    }
}

proof fn lemma_one_left_out(nodes: Seq<NodeView>, c: int)
    requires
        0 <= c < nodes.len(),
        forall|j: int|
            0 <= j < nodes.len() && j != c ==> (#[trigger] nodes[j]).node_id != nodes[c].node_id,
    ensures
        db::nodes_without(nodes, nodes[c].node_id) == nodes.remove(c),
    decreases nodes.len(),
{
    reveal(Seq::filter);
    let id = nodes[c].node_id;
    let front = nodes.drop_last();
    assert forall|j: int| 0 <= j < front.len() && j != c implies (#[trigger] front[j]).node_id
        != id by {
        assert(front[j] == nodes[j]);
    }
    if c == nodes.len() - 1 {
        lemma_all_pass(front, id);
        assert(nodes.remove(c) =~= front);
    } else {
        lemma_one_left_out(front, c);
        assert(nodes[nodes.len() - 1].node_id != id);
        assert(front.remove(c).push(nodes.last()) =~= nodes.remove(c));
    }
}

proof fn lemma_others(d: db::Directory, c: int)
    requires
        d.wf(),
        0 <= c < d.nodes().len(),
    ensures
        db::nodes_without(d.nodes(), d.nodes()[c].node_id) == d.nodes().remove(c),
        forall|j: int|
            0 <= j < d.nodes().len() && j != c ==> (#[trigger] d.nodes()[j]).node_id
                != d.nodes()[c].node_id,
{
    assert forall|j: int| 0 <= j < d.nodes().len() && j != c implies (
    #[trigger] d.nodes()[j]).node_id != d.nodes()[c].node_id by {
        if j < c {
            assert(!db::clash(d.nodes()[j], d.nodes()[c]));
        } else {
            assert(!db::clash(d.nodes()[c], d.nodes()[j]));
        }
    }
    lemma_one_left_out(d.nodes(), c);
}

/// Whether an entry tells of a node what the directory holds of it.
pub open spec fn tells(e: PeerEntry, n: NodeView) -> bool {
    &&& e.node_id@ == n.node_id
    &&& encoding::base64_decoded(e.wg_pubkey@) == Decoded::Bytes(n.wg)
    &&& e.ip@ == n.ip
    &&& match e.last_endpoint {
        Some(t) => n.last_endpoint == Some(t@),
        None => n.last_endpoint is None,
    }
    &&& match e.via_relay {
        Some(t) => n.via_relay == Some(t@),
        None => n.via_relay is None,
    }
    &&& e.last_seen == n.last_seen
}

/// A caller that is admitted and whose token counts is shown every other node, in
/// the order of registration and with all that is known of it, and never itself.
pub proof fn law_others_are_listed(
    s: AppState,
    peer: IpAddress,
    header: Option<Seq<char>>,
    at: Instant,
    now: i64,
    after: AppState,
    r: Result<PeersResponse, Error>,
    i: int,
    c: int,
)
    requires
        s.wf(),
        s.listed(peer, header, at, now, after, r),
        s.rate_limiter.log(peer, Bucket::Default).len() < 120,
        speaks(s, header, now, i, c),
    ensures
        counts_once(s, peer, Bucket::Default, at, after),
        r matches Ok(resp) && {
            &&& resp.peers@.len() == s.db.nodes().len() - 1
            &&& forall|j: int|
                0 <= j < c ==> tells(#[trigger] resp.peers@[j], s.db.nodes()[j])
            &&& forall|j: int|
                c <= j < resp.peers@.len() ==> tells(
                    #[trigger] resp.peers@[j],
                    s.db.nodes()[j + 1],
                )
            &&& forall|j: int|
                0 <= j < resp.peers@.len() ==> (#[trigger] resp.peers@[j]).node_id@
                    != s.db.nodes()[c].node_id
        },
        after.db == s.db,
        after.ip_alloc == s.ip_alloc,
{
    law_token_names_its_node(s, header, now, i, c);
    lemma_window_is_tail(
        s.rate_limiter.log(peer, Bucket::Default),
        Bucket::Default.spec_limit(),
        at,
    );
    law_who_is_admitted(s, peer, Bucket::Default, at);
    lemma_others(s.db, c);
    let resp = r->Ok_0;
    let others = s.db.nodes().remove(c);
    assert forall|j: int| 0 <= j < c implies tells(
        #[trigger] resp.peers@[j],
        s.db.nodes()[j],
    ) by {
        assert(others[j] == s.db.nodes()[j]);
    }
    assert forall|j: int| c <= j < resp.peers@.len() implies tells(
        #[trigger] resp.peers@[j],
        s.db.nodes()[j + 1],
    ) by {
        assert(others[j] == s.db.nodes()[j + 1]);
    }
    assert forall|j: int| 0 <= j < resp.peers@.len() implies (
    #[trigger] resp.peers@[j]).node_id@ != s.db.nodes()[c].node_id by {
        assert(others[j].node_id != s.db.nodes()[c].node_id);
    }
}

/// A list is handed out only to a caller whose token counts.
pub proof fn law_list_needs_a_token(
    s: AppState,
    peer: IpAddress,
    header: Option<Seq<char>>,
    at: Instant,
    now: i64,
    after: AppState,
    r: Result<PeersResponse, Error>,
)
    requires
        s.wf(),
        s.listed(peer, header, at, now, after, r),
        forall|i: int, c: int| !#[trigger] speaks(s, header, now, i, c),
    ensures
        r matches Err(e) && (e@ == Refusal::InvalidAuthToken || e@ is RateLimited),
        s.rate_limiter.log(peer, Bucket::Default).len() < 120 ==> r->Err_0@
            == Refusal::InvalidAuthToken,
{
    law_who_is_admitted(s, peer, Bucket::Default, at);
    if s.caller_of(header, now) is Some {
        law_no_other_token_speaks(s, header, now);
    }
}

/// What a node signs with a heartbeat.
pub open spec fn heartbeat_bytes(req: HeartbeatRequest) -> Seq<u8> {
    encode_utf8("heartbeat"@) + bytes::be64(req.timestamp as u64) + encode_utf8(req.endpoint@)
        + match req.via_relay {
        Some(r) => seq![0u8] + encode_utf8(r@),
        None => seq![1u8],
    }
}

/// A heartbeat that is signed and whose relay, where it names one, is an address
/// is accepted from a caller whose token counts. It leaves the caller's endpoint
/// and the moment in the directory, and the relay where it names one, and changes
/// nothing else.
pub proof fn law_heartbeat_is_stored(
    s: AppState,
    peer: IpAddress,
    header: Option<Seq<char>>,
    req: HeartbeatRequest,
    relay_is_address: bool,
    at: Instant,
    now: i64,
    after: AppState,
    r: Result<(), Error>,
    i: int,
    c: int,
)
    requires
        s.wf(),
        s.noted(peer, header, req, relay_is_address, at, now, after, r),
        s.rate_limiter.log(peer, Bucket::Heartbeat).len() < 30,
        speaks(s, header, now, i, c),
        well_signed(
            s.db.nodes()[c].identity,
            heartbeat_bytes(req),
            req.signature@,
            req.timestamp,
            now,
        ),
        req.via_relay is None || relay_is_address,
    ensures
        counts_once(s, peer, Bucket::Heartbeat, at, after),
        r is Ok,
        after.db.tokens() == s.db.tokens(),
        after.ip_alloc == s.ip_alloc,
        after.db.nodes().len() == s.db.nodes().len(),
        forall|j: int|
            0 <= j < s.db.nodes().len() && j != c ==> #[trigger] after.db.nodes()[j]
                == s.db.nodes()[j],
        ({
            let m = after.db.nodes()[c];
            let n = s.db.nodes()[c];
            &&& m.last_endpoint == Some(req.endpoint@)
            &&& m.last_seen == Some(now)
            &&& match req.via_relay {
                Some(x) => m.via_relay == Some(x@),
                None => m.via_relay == n.via_relay,
            }
            &&& m.node_id == n.node_id
            &&& m.identity == n.identity
            &&& m.wg == n.wg
            &&& m.ip == n.ip
            &&& m.created_at == n.created_at
        }),
{
    law_token_names_its_node(s, header, now, i, c);
    lemma_window_is_tail(
        s.rate_limiter.log(peer, Bucket::Heartbeat),
        Bucket::Heartbeat.spec_limit(),
        at,
    );
    law_who_is_admitted(s, peer, Bucket::Heartbeat, at);
    lemma_others(s.db, c);
    assert(heartbeat_bytes(req) == crate::coord::auth::heartbeat_message(
        req.timestamp,
        req.endpoint@,
        db::chars_of(req.via_relay),
    ));
}

/// A heartbeat is accepted only where the caller's token counts, the caller signed
/// it, and a relay that it names is an address. One that is refused changes
/// nothing in the directory.
pub proof fn law_heartbeat_is_checked(
    s: AppState,
    peer: IpAddress,
    header: Option<Seq<char>>,
    req: HeartbeatRequest,
    relay_is_address: bool,
    at: Instant,
    now: i64,
    after: AppState,
    r: Result<(), Error>,
)
    requires
        s.wf(),
        s.noted(peer, header, req, relay_is_address, at, now, after, r),
    ensures
        r is Ok ==> {
            &&& req.via_relay is None || relay_is_address
            &&& exists|i: int, c: int| #[trigger]
                speaks(s, header, now, i, c) && well_signed(
                    s.db.nodes()[c].identity,
                    heartbeat_bytes(req),
                    req.signature@,
                    req.timestamp,
                    now,
                )
        },
        r is Err ==> after.db == s.db && after.ip_alloc == s.ip_alloc,
{
    if s.caller_of(header, now) is Some {
        law_no_other_token_speaks(s, header, now);
        assert(heartbeat_bytes(req) == crate::coord::auth::heartbeat_message(
            req.timestamp,
            req.endpoint@,
            db::chars_of(req.via_relay),
        ));
    }
}

/// A signed request is refused for its signature where that is no base64 or has not 64
/// bytes, then for its time, and then where its signer is not the one that it should be.
pub proof fn law_why_signed_requests_are_refused(
    public: Seq<u8>,
    msg: Seq<u8>,
    signature: Seq<char>,
    timestamp: i64,
    now: i64,
)
    ensures
        ({
            let f = crate::coord::routes::signed_refusal(public, msg, signature, timestamp, now);
            let close = now - 300 <= timestamp <= now + 300;
            match encoding::base64_decoded(signature) {
                Decoded::Refused(words) => f == Some(Refusal::Base64(words)),
                Decoded::Bytes(sig) => if sig.len() != 64 {
                    f == Some(Refusal::InvalidRequest("invalid signature length"@))
                } else if !close {
                    f == Some(Refusal::InvalidTimestamp(300))
                } else if public.len() == 32 && identity::ed25519_is_point(public)
                    && identity::ed25519_accepts(public, msg, sig) {
                    f is None
                } else {
                    f == Some(Refusal::InvalidSignature)
                },
            }
        }),
{
}

/// A heartbeat that is not accepted is answered with its fault: too many requests, a
/// token that does not count, a signature that is not good, or a relay that is no
/// address.
pub proof fn law_why_heartbeats_are_refused(
    s: AppState,
    peer: IpAddress,
    header: Option<Seq<char>>,
    req: HeartbeatRequest,
    relay_is_address: bool,
    at: Instant,
    now: i64,
    after: AppState,
    e: Error,
)
    requires
        s.wf(),
        s.noted(peer, header, req, relay_is_address, at, now, after, Err(e)),
        s.rate_limiter.log(peer, Bucket::Heartbeat).len() < 30,
    ensures
        (forall|i: int, c: int| !#[trigger] speaks(s, header, now, i, c)) ==> e@
            == Refusal::InvalidAuthToken,
        forall|i: int, c: int| #[trigger]
            speaks(s, header, now, i, c) ==> match crate::coord::routes::signed_refusal(
                s.db.nodes()[c].identity,
                heartbeat_bytes(req),
                req.signature@,
                req.timestamp,
                now,
            ) {
                Some(f) => e@ == f,
                None => req.via_relay is Some && !relay_is_address && e@ is InvalidRequest,
            },
{
    law_who_is_admitted(s, peer, Bucket::Heartbeat, at);
    if s.caller_of(header, now) is Some {
        law_no_other_token_speaks(s, header, now);
    }
    assert(heartbeat_bytes(req) == crate::coord::auth::heartbeat_message(
        req.timestamp,
        req.endpoint@,
        db::chars_of(req.via_relay),
    ));
    assert forall|i: int, c: int| #[trigger] speaks(s, header, now, i, c) implies match
        crate::coord::routes::signed_refusal(
        s.db.nodes()[c].identity,
        heartbeat_bytes(req),
        req.signature@,
        req.timestamp,
        now,
    ) {
        Some(f) => e@ == f,
        None => req.via_relay is Some && !relay_is_address && e@ is InvalidRequest,
    } by {
        law_token_names_its_node(s, header, now, i, c);
    }
}

/// After a heartbeat that is accepted, every other caller is shown the node with
/// the endpoint of the heartbeat, its moment, and the relay that it names, or the
/// one that was known before where it names none.
pub proof fn law_heartbeat_is_shown(
    s: AppState,
    peer: IpAddress,
    header: Option<Seq<char>>,
    req: HeartbeatRequest,
    relay_is_address: bool,
    at: Instant,
    now: i64,
    after: AppState,
    n: NodeView,
    other: IpAddress,
    other_header: Option<Seq<char>>,
    later: Instant,
    then_at: i64,
    end: AppState,
    resp: PeersResponse,
)
    requires
        s.wf(),
        after.wf(),
        s.noted(peer, header, req, relay_is_address, at, now, after, Ok(())),
        s.caller_of(header, now) == Some(n),
        after.listed(other, other_header, later, then_at, end, Ok(resp)),
        after.caller_of(other_header, then_at)->0.node_id != n.node_id,
    ensures
        exists|k: int|
            0 <= k < resp.peers@.len() && {
                let e = #[trigger] resp.peers@[k];
                &&& e.node_id@ == n.node_id
                &&& e.ip@ == n.ip
                &&& encoding::base64_decoded(e.wg_pubkey@) == Decoded::Bytes(n.wg)
                &&& e.last_endpoint matches Some(t) && t@ == req.endpoint@
                &&& e.last_seen == Some(now)
                &&& match (req.via_relay, e.via_relay) {
                    (Some(x), Some(y)) => x@ == y@,
                    (None, Some(y)) => n.via_relay == Some(y@),
                    (None, None) => n.via_relay is None,
                    (Some(_), None) => false,
                }
            },
        forall|k: int|
            0 <= k < resp.peers@.len() && (#[trigger] resp.peers@[k]).node_id@ == n.node_id
                ==> (resp.peers@[k].last_endpoint matches Some(t) && t@ == req.endpoint@),
{
    law_no_other_token_speaks(s, header, now);
    let (i, c) = choose|i: int, c: int| #[trigger]
        speaks(s, header, now, i, c) && s.caller_of(header, now) == Some(s.db.nodes()[c]);
    law_no_other_token_speaks(after, other_header, then_at);
    let (oi, oc) = choose|oi: int, oc: int| #[trigger]
        speaks(after, other_header, then_at, oi, oc) && after.caller_of(other_header, then_at)
            == Some(after.db.nodes()[oc]);
    lemma_others(s.db, c);
    lemma_others(after.db, oc);
    lemma_others(after.db, c);
    let m = after.db.nodes()[c];
    assert(m.node_id == n.node_id);
    let k = if c < oc {
        c
    } else {
        c - 1
    };
    let others = after.db.nodes().remove(oc);
    assert(others[k] == m);
    assert(crate::coord::routes::shown(resp.peers@[k], others[k]));
    assert forall|q: int|
        0 <= q < resp.peers@.len() && (#[trigger] resp.peers@[q]).node_id@
            == n.node_id implies (resp.peers@[q].last_endpoint matches Some(t) && t@
        == req.endpoint@) by {
        assert(crate::coord::routes::shown(resp.peers@[q], others[q]));
        let back = if q < oc {
            q
        } else {
            q + 1
        };
        assert(others[q] == after.db.nodes()[back]);
        assert(back == c);
    }
}

/// What a node signs to register.
pub open spec fn register_bytes(req: RegisterRequest, identity: Seq<u8>, wg: Seq<u8>) -> Seq<u8> {
    encode_utf8("register"@) + bytes::be64(req.timestamp as u64) + identity + wg
}

/// Whether an address is one of the hosts from 100.100.0.1 to 100.100.255.254.
pub open spec fn is_host(n: u32) -> bool {
    0x6464_0001 <= n <= 0x6464_fffe
}

/// Whether nothing that must be unique in the directory is shared with a new node.
pub open spec fn is_new(
    s: AppState,
    node_id: Seq<char>,
    identity: Seq<u8>,
    wg: Seq<u8>,
    token: Seq<char>,
) -> bool {
    &&& forall|j: int|
        0 <= j < s.db.nodes().len() ==> {
            let n = #[trigger] s.db.nodes()[j];
            n.node_id != node_id && n.identity != identity && n.wg != wg
        }
    &&& forall|i: int| 0 <= i < s.db.tokens().len() ==> (#[trigger] s.db.tokens()[i]).token != token
}

/// A registration that its identity signed is accepted while a host is free. The
/// new node is the last of the directory, with the two keys of the request and the
/// lowest free address, with no endpoint, no relay and no sign of life. Its token
/// is the last one, and lives as long as tokens do. The answer says the same.
pub proof fn law_registration_is_stored(
    s: AppState,
    peer: IpAddress,
    req: RegisterRequest,
    identity: Seq<u8>,
    wg: Seq<u8>,
    node_id: Seq<char>,
    token: Seq<char>,
    at: Instant,
    now: i64,
    after: AppState,
    r: Result<RegisterResponse, Error>,
    free: u32,
)
    requires
        s.wf(),
        s.addresses_tracked(),
        i64::MIN <= now + s.token_ttl_secs <= i64::MAX,
        s.registered(peer, req, node_id, token, at, now, after, r),
        s.rate_limiter.log(peer, Bucket::Register).len() < 5,
        encoding::base64_decoded(req.identity_pubkey@) == Decoded::Bytes(identity),
        encoding::base64_decoded(req.wg_pubkey@) == Decoded::Bytes(wg),
        wg.len() == 32,
        well_signed(
            identity,
            register_bytes(req, identity, wg),
            req.signature@,
            req.timestamp,
            now,
        ),
        is_host(free),
        !s.ip_alloc.taken().contains(free),
        is_new(s, node_id, identity, wg, token),
    ensures
        counts_once(s, peer, Bucket::Register, at, after),
        after.db.nodes().len() == s.db.nodes().len() + 1,
        after.db.tokens().len() == s.db.tokens().len() + 1,
        forall|j: int|
            0 <= j < s.db.nodes().len() ==> #[trigger] after.db.nodes()[j] == s.db.nodes()[j],
        forall|i: int|
            0 <= i < s.db.tokens().len() ==> #[trigger] after.db.tokens()[i] == s.db.tokens()[i],
        ({
            let n = after.db.nodes().last();
            &&& n.node_id == node_id
            &&& n.identity == identity
            &&& n.wg == wg
            &&& n.last_endpoint is None
            &&& n.via_relay is None
            &&& n.last_seen is None
            &&& n.created_at == now
            &&& exists|ip: [u8; 4]|
                n.ip == #[trigger] text::dotted(ip@) && {
                    let host = bytes::from_be32(ip@);
                    &&& is_host(host)
                    &&& !s.ip_alloc.taken().contains(host)
                    &&& forall|m: u32|
                        is_host(m) && m < host ==> #[trigger] s.ip_alloc.taken().contains(m)
                    &&& after.ip_alloc.taken() == s.ip_alloc.taken().insert(host)
                }
        }),
        ({
            let t = after.db.tokens().last();
            &&& t.token == token
            &&& t.node_id == node_id
            &&& t.created_at == now
            &&& t.expires_at == now + s.token_ttl_secs
            &&& !t.revoked
        }),
        r matches Ok(resp) && {
            &&& resp.node_id@ == node_id
            &&& resp.auth_token@ == token
            &&& resp.ip@ == after.db.nodes().last().ip
            &&& resp.auth_token_expires_at == now + s.token_ttl_secs
            &&& resp.derp_url@ == ""@
        },
{
    lemma_window_is_tail(
        s.rate_limiter.log(peer, Bucket::Register),
        Bucket::Register.spec_limit(),
        at,
    );
    law_who_is_admitted(s, peer, Bucket::Register, at);
    assert(register_bytes(req, identity, wg) == crate::coord::auth::register_message(
        req.timestamp,
        identity,
        wg,
    ));
    assert(crate::coord::routes::register_refusal(req, now) is None);
    assert(crate::coord::ip_alloc::in_pool(free));
    let ip = choose|ip: [u8; 4]| #[trigger]
        s.registered_at(ip, req, node_id, token, now, after, r);
    assert(s.registered_at(ip, req, node_id, token, now, after, r));
    let record = AppState::record_for(req, node_id, ip@, now);
    if s.db.clashes(record) {
        let j = choose|j: int|
            0 <= j < s.db.nodes().len() && db::clash(#[trigger] s.db.nodes()[j], record);
        crate::coord::routes::law_new_address_is_unused(s, ip, j);
    }
    let host = bytes::from_be32(ip@);
    assert forall|m: u32| is_host(m) && m < host implies #[trigger] s.ip_alloc.taken().contains(
        m,
    ) by {
        assert(crate::coord::ip_alloc::in_pool(m));
    }
    assert(after.db.nodes().last().ip == text::dotted(ip@));
}

/// A registration is accepted only where both keys have the length of a key, its
/// identity signed it, a host is free, and nothing about the node stands in the
/// directory already.
pub proof fn law_registration_is_checked(
    s: AppState,
    peer: IpAddress,
    req: RegisterRequest,
    node_id: Seq<char>,
    token: Seq<char>,
    at: Instant,
    now: i64,
    after: AppState,
    resp: RegisterResponse,
)
    requires
        s.wf(),
        s.registered(peer, req, node_id, token, at, now, after, Ok(resp)),
    ensures
        exists|identity: Seq<u8>, wg: Seq<u8>|
            #![trigger register_bytes(req, identity, wg)]
            {
                &&& encoding::base64_decoded(req.identity_pubkey@) == Decoded::Bytes(identity)
                &&& encoding::base64_decoded(req.wg_pubkey@) == Decoded::Bytes(wg)
                &&& wg.len() == 32
                &&& well_signed(
                    identity,
                    register_bytes(req, identity, wg),
                    req.signature@,
                    req.timestamp,
                    now,
                )
                &&& is_new(s, node_id, identity, wg, token)
                &&& after.db.nodes().last().identity == identity
                &&& after.db.nodes().last().wg == wg
            },
        after.db.nodes().last().last_endpoint is None,
        after.db.nodes().last().via_relay is None,
        after.db.nodes().last().last_seen is None,
        exists|n: u32| is_host(n) && !#[trigger] s.ip_alloc.taken().contains(n),
{
    let ip = choose|ip: [u8; 4]| #[trigger]
        s.registered_at(ip, req, node_id, token, now, after, Ok(resp));
    let record = AppState::record_for(req, node_id, ip@, now);
    assert(!s.db.clashes(record));
    let identity = record.identity;
    let wg = record.wg;
    assert(register_bytes(req, identity, wg) == crate::coord::auth::register_message(
        req.timestamp,
        identity,
        wg,
    ));
    assert forall|j: int| 0 <= j < s.db.nodes().len() implies {
        let n = #[trigger] s.db.nodes()[j];
        n.node_id != node_id && n.identity != identity && n.wg != wg
    } by {
        assert(!db::clash(s.db.nodes()[j], record));
    }
    assert(is_new(s, node_id, identity, wg, token));
    assert(is_host(bytes::from_be32(ip@)));
}

/// A registration that is not accepted is answered with its fault, in this order: a key
/// that is no base64 or has not 32 bytes, a signature that is not good, and a pool
/// without a free host. It is refused for a clash only past all of these.
pub proof fn law_why_registrations_are_refused(
    s: AppState,
    peer: IpAddress,
    req: RegisterRequest,
    node_id: Seq<char>,
    token: Seq<char>,
    at: Instant,
    now: i64,
    after: AppState,
    e: Error,
)
    requires
        s.registered(peer, req, node_id, token, at, now, after, Err(e)),
        s.rate_limiter.log(peer, Bucket::Register).len() < 5,
    ensures
        match (
            encoding::base64_decoded(req.identity_pubkey@),
            encoding::base64_decoded(req.wg_pubkey@),
        ) {
            (Decoded::Refused(words), _) => e@ == Refusal::Base64(words),
            (Decoded::Bytes(id), Decoded::Refused(words)) => if id.len() != 32 {
                e@ == Refusal::InvalidPubkey
            } else {
                e@ == Refusal::Base64(words)
            },
            (Decoded::Bytes(id), Decoded::Bytes(wg)) => if id.len() != 32 || wg.len() != 32 {
                e@ == Refusal::InvalidPubkey
            } else {
                match crate::coord::routes::signed_refusal(
                    id,
                    register_bytes(req, id, wg),
                    req.signature@,
                    req.timestamp,
                    now,
                ) {
                    Some(f) => e@ == f,
                    None => if forall|n: u32|
                        is_host(n) ==> #[trigger] s.ip_alloc.taken().contains(n) {
                        e@ == Refusal::IpPoolExhausted
                    } else {
                        e@ is Database
                    },
                }
            },
        },
{
    law_who_is_admitted(s, peer, Bucket::Register, at);
    if let (Decoded::Bytes(id), Decoded::Bytes(wg)) = (
        encoding::base64_decoded(req.identity_pubkey@),
        encoding::base64_decoded(req.wg_pubkey@),
    ) {
        assert(register_bytes(req, id, wg) == crate::coord::auth::register_message(
            req.timestamp,
            id,
            wg,
        ));
    }
    assert forall|n: u32| is_host(n) == crate::coord::ip_alloc::in_pool(n) by {}
    assert((forall|n: u32| is_host(n) ==> #[trigger] s.ip_alloc.taken().contains(n)) == (forall|
        n: u32,
    |
        crate::coord::ip_alloc::in_pool(n) ==> #[trigger] s.ip_alloc.taken().contains(n)));
}

/// A registration that is refused adds no token, and no node either unless its
/// token was there already. Where the signature, a key or the number of requests
/// is the reason, no address is taken.
pub proof fn law_refused_registration_adds_no_token(
    s: AppState,
    peer: IpAddress,
    req: RegisterRequest,
    node_id: Seq<char>,
    token: Seq<char>,
    at: Instant,
    now: i64,
    after: AppState,
    e: Error,
)
    requires
        s.registered(peer, req, node_id, token, at, now, after, Err(e)),
    ensures
        after.db.tokens() == s.db.tokens(),
        (forall|i: int|
            0 <= i < s.db.tokens().len() ==> (#[trigger] s.db.tokens()[i]).token != token)
            ==> after.db.nodes() == s.db.nodes(),
        !(e@ is Database) ==> after.db == s.db && after.ip_alloc.taken() == s.ip_alloc.taken(),
{
}

/// A node that has just registered is shown to every other caller with its key and
/// its address, and with no endpoint, no relay and no sign of life.
pub proof fn law_new_node_is_shown(
    s: AppState,
    peer: IpAddress,
    req: RegisterRequest,
    node_id: Seq<char>,
    token: Seq<char>,
    at: Instant,
    now: i64,
    after: AppState,
    answer: RegisterResponse,
    other: IpAddress,
    header: Option<Seq<char>>,
    later: Instant,
    then_at: i64,
    end: AppState,
    resp: PeersResponse,
)
    requires
        s.wf(),
        after.wf(),
        s.registered(peer, req, node_id, token, at, now, after, Ok(answer)),
        after.listed(other, header, later, then_at, end, Ok(resp)),
        after.caller_of(header, then_at)->0.node_id != node_id,
    ensures
        resp.peers@.len() > 0,
        ({
            let e = resp.peers@.last();
            &&& e.node_id@ == answer.node_id@
            &&& e.ip@ == answer.ip@
            &&& encoding::base64_decoded(e.wg_pubkey@) == encoding::base64_decoded(req.wg_pubkey@)
            &&& e.last_endpoint is None
            &&& e.via_relay is None
            &&& e.last_seen is None
        }),
{
    law_registration_is_checked(s, peer, req, node_id, token, at, now, after, answer);
    let c = after.db.nodes().len() - 1;
    law_no_other_token_speaks(after, header, then_at);
    let (oi, oc) = choose|oi: int, oc: int| #[trigger]
        speaks(after, header, then_at, oi, oc) && after.caller_of(header, then_at) == Some(
            after.db.nodes()[oc],
        );
    lemma_others(after.db, oc);
    let others = after.db.nodes().remove(oc);
    assert(after.db.nodes()[c].node_id == node_id);
    assert(others[c - 1] == after.db.nodes()[c]);
    assert(crate::coord::routes::shown(resp.peers@[c - 1], others[c - 1]));
}

/// An exchange that the caller signed is accepted from a caller whose token counts.
/// It takes back every token that the caller has, touches no other, and adds the
/// new one, which belongs to the caller and lives as long as tokens do.
pub proof fn law_exchange_is_stored(
    s: AppState,
    peer: IpAddress,
    header: Option<Seq<char>>,
    req: SignedRequest,
    token: Seq<char>,
    at: Instant,
    now: i64,
    after: AppState,
    r: Result<RefreshResponse, Error>,
    i: int,
    c: int,
)
    requires
        s.wf(),
        i64::MIN <= now + s.token_ttl_secs <= i64::MAX,
        s.refreshed(peer, header, req, token, at, now, after, r),
        s.rate_limiter.log(peer, Bucket::Token).len() < 10,
        speaks(s, header, now, i, c),
        well_signed(
            s.db.nodes()[c].identity,
            encode_utf8("token_refresh"@) + bytes::be64(req.timestamp as u64),
            req.signature@,
            req.timestamp,
            now,
        ),
        forall|k: int| 0 <= k < s.db.tokens().len() ==> (#[trigger] s.db.tokens()[k]).token != token,
    ensures
        counts_once(s, peer, Bucket::Token, at, after),
        after.db.nodes() == s.db.nodes(),
        after.ip_alloc == s.ip_alloc,
        after.db.tokens().len() == s.db.tokens().len() + 1,
        forall|k: int|
            0 <= k < s.db.tokens().len() ==> {
                let t = #[trigger] after.db.tokens()[k];
                let u = s.db.tokens()[k];
                &&& t.token == u.token
                &&& t.node_id == u.node_id
                &&& t.created_at == u.created_at
                &&& t.expires_at == u.expires_at
                &&& t.revoked == (u.revoked || u.node_id == s.db.nodes()[c].node_id)
            },
        ({
            let t = after.db.tokens().last();
            &&& t.token == token
            &&& t.node_id == s.db.nodes()[c].node_id
            &&& t.created_at == now
            &&& t.expires_at == now + s.token_ttl_secs
            &&& !t.revoked
        }),
        r matches Ok(resp) && {
            &&& resp.auth_token@ == token
            &&& resp.auth_token_expires_at == now + s.token_ttl_secs
            &&& resp.old_token_expires_at == now + s.token_ttl_secs
        },
{
    law_token_names_its_node(s, header, now, i, c);
    lemma_window_is_tail(
        s.rate_limiter.log(peer, Bucket::Token),
        Bucket::Token.spec_limit(),
        at,
    );
    law_who_is_admitted(s, peer, Bucket::Token, at);
}

/// An exchange is accepted only from a caller whose token counts and who signed it.
pub proof fn law_exchange_is_checked(
    s: AppState,
    peer: IpAddress,
    header: Option<Seq<char>>,
    req: SignedRequest,
    token: Seq<char>,
    at: Instant,
    now: i64,
    after: AppState,
    resp: RefreshResponse,
)
    requires
        s.wf(),
        s.refreshed(peer, header, req, token, at, now, after, Ok(resp)),
    ensures
        exists|i: int, c: int| #[trigger]
            speaks(s, header, now, i, c) && well_signed(
                s.db.nodes()[c].identity,
                encode_utf8("token_refresh"@) + bytes::be64(req.timestamp as u64),
                req.signature@,
                req.timestamp,
                now,
            ),
{
    law_no_other_token_speaks(s, header, now);
}

/// A deletion that the caller signed is accepted from a caller whose token counts.
/// The caller goes out of the directory with all its tokens, its address is free
/// again, and everything else stays as it was.
pub proof fn law_deletion_is_stored(
    s: AppState,
    peer: IpAddress,
    header: Option<Seq<char>>,
    req: SignedRequest,
    at: Instant,
    now: i64,
    after: AppState,
    r: Result<(), Error>,
    i: int,
    c: int,
    ip: [u8; 4],
)
    requires
        s.wf(),
        s.deleted(peer, header, req, at, now, after, r),
        s.rate_limiter.log(peer, Bucket::Token).len() < 10,
        speaks(s, header, now, i, c),
        well_signed(
            s.db.nodes()[c].identity,
            encode_utf8("delete_node"@) + bytes::be64(req.timestamp as u64),
            req.signature@,
            req.timestamp,
            now,
        ),
        s.db.nodes()[c].ip == text::dotted(ip@),
    ensures
        counts_once(s, peer, Bucket::Token, at, after),
        r is Ok,
        after.db.nodes() == s.db.nodes().remove(c),
        forall|t: TokenView| #[trigger]
            after.db.tokens().contains(t) <==> s.db.tokens().contains(t) && t.node_id
                != s.db.nodes()[c].node_id,
        after.ip_alloc.taken() == s.ip_alloc.taken().remove(bytes::from_be32(ip@)),
{
    law_token_names_its_node(s, header, now, i, c);
    lemma_window_is_tail(
        s.rate_limiter.log(peer, Bucket::Token),
        Bucket::Token.spec_limit(),
        at,
    );
    law_who_is_admitted(s, peer, Bucket::Token, at);
    lemma_others(s.db, c);
    db::lemma_tokens_without(s.db.tokens(), s.db.nodes()[c].node_id);
    text::law_dotted_round_trip(ip);
}

/// A deletion is accepted only from a caller whose token counts and who signed it.
/// One that is refused changes nothing in the directory and takes no address back.
pub proof fn law_deletion_is_checked(
    s: AppState,
    peer: IpAddress,
    header: Option<Seq<char>>,
    req: SignedRequest,
    at: Instant,
    now: i64,
    after: AppState,
    r: Result<(), Error>,
)
    requires
        s.wf(),
        s.deleted(peer, header, req, at, now, after, r),
    ensures
        r is Ok ==> exists|i: int, c: int| #[trigger]
            speaks(s, header, now, i, c) && well_signed(
                s.db.nodes()[c].identity,
                encode_utf8("delete_node"@) + bytes::be64(req.timestamp as u64),
                req.signature@,
                req.timestamp,
                now,
            ),
        r is Err ==> after.db == s.db && after.ip_alloc == s.ip_alloc,
{
    if s.caller_of(header, now) is Some {
        law_no_other_token_speaks(s, header, now);
    }
}

/// A node that shares nothing unique with another is added as the last one, under its
/// keys, its address, its relay and its moment of registration, and as one that was
/// not seen yet; its token is added unless it is there already. A node that shares its
/// identifier, a key or its address with another is refused, and nothing is added.
pub proof fn law_inserted_node_is_last(
    d: db::Directory,
    node: NodeView,
    token: Seq<char>,
    ttl_secs: i64,
    after: db::Directory,
    r: Result<(), Error>,
)
    requires
        d.inserted(node, token, ttl_secs, after, r),
        i64::MIN <= node.created_at + ttl_secs <= i64::MAX,
    ensures
        ({
            let clashes = exists|j: int|
                0 <= j < d.nodes().len() && {
                    let n = #[trigger] d.nodes()[j];
                    n.node_id == node.node_id || n.identity == node.identity || n.wg == node.wg
                        || n.ip == node.ip
                };
            let known = exists|i: int|
                0 <= i < d.tokens().len() && (#[trigger] d.tokens()[i]).token == token;
            &&& r is Ok <==> !clashes && !known
            &&& clashes ==> after.nodes() == d.nodes() && after.tokens() == d.tokens()
            &&& !clashes ==> {
                let n = after.nodes().last();
                &&& after.nodes().len() == d.nodes().len() + 1
                &&& after.nodes().drop_last() == d.nodes()
                &&& n.node_id == node.node_id && n.identity == node.identity && n.wg == node.wg
                &&& n.ip == node.ip && n.via_relay == node.via_relay
                &&& n.created_at == node.created_at
                &&& n.last_endpoint is None && n.last_seen is None
            }
            &&& r is Ok ==> {
                let t = after.tokens().last();
                &&& after.tokens().len() == d.tokens().len() + 1
                &&& after.tokens().drop_last() == d.tokens()
                &&& t.token == token && t.node_id == node.node_id && !t.revoked
                &&& t.created_at == node.created_at
                &&& t.expires_at == node.created_at + ttl_secs
            }
            &&& r is Err ==> after.tokens() == d.tokens()
        }),
{
    if d.clashes(node) {
        let j = choose|j: int|
            0 <= j < d.nodes().len() && db::clash(#[trigger] d.nodes()[j], node);
        assert(db::clash(d.nodes()[j], node));
    } else {
        assert forall|j: int| 0 <= j < d.nodes().len() implies !{
            let n = #[trigger] d.nodes()[j];
            n.node_id == node.node_id || n.identity == node.identity || n.wg == node.wg || n.ip
                == node.ip
        } by {
            assert(!db::clash(d.nodes()[j], node));
        }
        assert(after.nodes().drop_last() =~= d.nodes());
        if r is Ok {
            assert(after.tokens().drop_last() =~= d.tokens());
        }
    }
}

/// Which tokens of a node are not taken back.
pub open spec fn stands(id: Seq<char>) -> spec_fn(TokenView) -> bool {
    |t: TokenView| t.node_id == id && !t.revoked
}

/// As many tokens count as taken back as the node had that were not yet. Afterwards it
/// has none, and the others' tokens are as they were.
pub proof fn law_tokens_are_taken_back(tokens: Seq<TokenView>, id: Seq<char>, i: int)
    requires
        0 <= i < tokens.len(),
    ensures
        db::count_unrevoked(tokens, id) == tokens.filter(stands(id)).len(),
        db::tokens_revoked(tokens, id).len() == tokens.len(),
        tokens[i].node_id == id ==> db::tokens_revoked(tokens, id)[i].revoked,
        tokens[i].node_id != id ==> db::tokens_revoked(tokens, id)[i] == tokens[i],
        db::tokens_revoked(tokens, id)[i].token == tokens[i].token,
{
    lemma_stands(tokens, id);
}

proof fn lemma_stands(tokens: Seq<TokenView>, id: Seq<char>)
    ensures
        db::count_unrevoked(tokens, id) == tokens.filter(stands(id)).len(),
    decreases tokens.len(),
{
    reveal(Seq::filter);
    if tokens.len() > 0 {
        lemma_stands(tokens.drop_last(), id);
    }
}

/// Tokens live for thirty days, or for as long as the environment says in seconds.
pub proof fn law_how_long_tokens_live(n: i64)
    ensures
        crate::coord::state::ttl_of(None) == 30 * 24 * 60 * 60,
        crate::coord::state::ttl_of(Some(text::signed_decimal(n as int))) == n,
{
    text::law_number_round_trip(n);
}

/// An error is answered with the status of its kind: 401 where the caller is not known
/// or did not sign, 400 where the request makes no sense, 404, 429 and 503 where a node,
/// patience or an address is lacking, and 500 for all else.
pub proof fn law_status_of_errors(f: Refusal)
    ensures
        f is InvalidSignature || f is InvalidAuthToken || f is TokenExpired <==> f.status() == 401,
        f is InvalidRequest || f is InvalidPubkey || f is InvalidTimestamp <==> f.status() == 400,
        f is NodeNotFound <==> f.status() == 404,
        f is RateLimited <==> f.status() == 429,
        f is IpPoolExhausted <==> f.status() == 503,
        f is Database || f is Base64 || f is Json || f is Crypto <==> f.status() == 500,
{
}

/// A time counts as close to another up to five minutes on either side.
pub proof fn law_which_times_are_close(timestamp: i64, now: i64)
    ensures
        crate::coord::auth::is_recent(timestamp, now) <==> now <= timestamp + 300 && timestamp
            <= now + 300,
{
}

/// Whether a request was turned away because the caller made too many of them since
/// `first`: it is told to wait, for a second at the least, and nothing is stored.
pub open spec fn turned_away(
    s: AppState,
    first: Instant,
    at: Instant,
    after: AppState,
    e: Error,
) -> bool {
    &&& e@ matches Refusal::RateLimited(secs)
    &&& secs >= 1
    &&& secs == 1 || secs == (first.nanos + 60_050_000_000 - at.nanos) / 1_000_000_000
    &&& at.nanos + secs * 1_000_000_000 > first.nanos + 59_050_000_000
    &&& after.db == s.db
    &&& after.ip_alloc == s.ip_alloc
}

/// After five registrations of a caller within a minute, the next registration is turned away.
pub proof fn law_throttled_registration(
    s: AppState,
    peer: IpAddress,
    req: RegisterRequest,
    node_id: Seq<char>,
    token: Seq<char>,
    at: Instant,
    now: i64,
    after: AppState,
    r: Result<RegisterResponse, Error>,
)
    requires
        s.registered(peer, req, node_id, token, at, now, after, r),
        s.rate_limiter.log(peer, Bucket::Register).len() >= 5,
        s.rate_limiter.log(peer, Bucket::Register)[0].nanos <= at.nanos,
        at.nanos < s.rate_limiter.log(peer, Bucket::Register)[0].nanos + 60_000_000_000,
    ensures
        r matches Err(e) && turned_away(
            s,
            s.rate_limiter.log(peer, Bucket::Register)[0],
            at,
            after,
            e,
        ),
{
    law_who_is_admitted(s, peer, Bucket::Register, at);
}

/// After 120 requests for the list of a caller within a minute, the next request for it is turned away.
pub proof fn law_throttled_list(
    s: AppState,
    peer: IpAddress,
    header: Option<Seq<char>>,
    at: Instant,
    now: i64,
    after: AppState,
    r: Result<PeersResponse, Error>,
)
    requires
        s.listed(peer, header, at, now, after, r),
        s.rate_limiter.log(peer, Bucket::Default).len() >= 120,
        s.rate_limiter.log(peer, Bucket::Default)[0].nanos <= at.nanos,
        at.nanos < s.rate_limiter.log(peer, Bucket::Default)[0].nanos + 60_000_000_000,
    ensures
        r matches Err(e) && turned_away(
            s,
            s.rate_limiter.log(peer, Bucket::Default)[0],
            at,
            after,
            e,
        ),
{
    law_who_is_admitted(s, peer, Bucket::Default, at);
}

/// After thirty heartbeats of a caller within a minute, the next heartbeat is turned away.
pub proof fn law_throttled_heartbeat(
    s: AppState,
    peer: IpAddress,
    header: Option<Seq<char>>,
    req: HeartbeatRequest,
    relay_is_address: bool,
    at: Instant,
    now: i64,
    after: AppState,
    r: Result<(), Error>,
)
    requires
        s.noted(peer, header, req, relay_is_address, at, now, after, r),
        s.rate_limiter.log(peer, Bucket::Heartbeat).len() >= 30,
        s.rate_limiter.log(peer, Bucket::Heartbeat)[0].nanos <= at.nanos,
        at.nanos < s.rate_limiter.log(peer, Bucket::Heartbeat)[0].nanos + 60_000_000_000,
    ensures
        r matches Err(e) && turned_away(
            s,
            s.rate_limiter.log(peer, Bucket::Heartbeat)[0],
            at,
            after,
            e,
        ),
{
    law_who_is_admitted(s, peer, Bucket::Heartbeat, at);
}

/// After ten exchanges and deletions of a caller within a minute, the next exchange is turned away.
pub proof fn law_throttled_exchange(
    s: AppState,
    peer: IpAddress,
    header: Option<Seq<char>>,
    req: SignedRequest,
    token: Seq<char>,
    at: Instant,
    now: i64,
    after: AppState,
    r: Result<RefreshResponse, Error>,
)
    requires
        s.refreshed(peer, header, req, token, at, now, after, r),
        s.rate_limiter.log(peer, Bucket::Token).len() >= 10,
        s.rate_limiter.log(peer, Bucket::Token)[0].nanos <= at.nanos,
        at.nanos < s.rate_limiter.log(peer, Bucket::Token)[0].nanos + 60_000_000_000,
    ensures
        r matches Err(e) && turned_away(
            s,
            s.rate_limiter.log(peer, Bucket::Token)[0],
            at,
            after,
            e,
        ),
{
    law_who_is_admitted(s, peer, Bucket::Token, at);
}

/// After ten exchanges and deletions of a caller within a minute, the next deletion is turned away.
pub proof fn law_throttled_deletion(
    s: AppState,
    peer: IpAddress,
    header: Option<Seq<char>>,
    req: SignedRequest,
    at: Instant,
    now: i64,
    after: AppState,
    r: Result<(), Error>,
)
    requires
        s.deleted(peer, header, req, at, now, after, r),
        s.rate_limiter.log(peer, Bucket::Token).len() >= 10,
        s.rate_limiter.log(peer, Bucket::Token)[0].nanos <= at.nanos,
        at.nanos < s.rate_limiter.log(peer, Bucket::Token)[0].nanos + 60_000_000_000,
    ensures
        r matches Err(e) && turned_away(
            s,
            s.rate_limiter.log(peer, Bucket::Token)[0],
            at,
            after,
            e,
        ),
{
    law_who_is_admitted(s, peer, Bucket::Token, at);
}

/// An exchange that is not accepted is answered with its fault: a token that does not count,
/// or a signature that is not good, or a new token that is there already.
pub proof fn law_why_exchanges_are_refused(
    s: AppState,
    peer: IpAddress,
    header: Option<Seq<char>>,
    req: SignedRequest,
    token: Seq<char>,
    at: Instant,
    now: i64,
    after: AppState,
    e: Error,
)
    requires
        s.wf(),
        s.refreshed(peer, header, req, token, at, now, after, Err(e)),
        s.rate_limiter.log(peer, Bucket::Token).len() < 10,
    ensures
        (forall|i: int, c: int| !#[trigger] speaks(s, header, now, i, c)) ==> e@
            == Refusal::InvalidAuthToken,
        forall|i: int, c: int| #[trigger]
            speaks(s, header, now, i, c) ==> match crate::coord::routes::signed_refusal(
                s.db.nodes()[c].identity,
                encode_utf8("token_refresh"@) + bytes::be64(req.timestamp as u64),
                req.signature@,
                req.timestamp,
                now,
            ) {
                Some(f) => e@ == f,
                None => e@ is Database && exists|k: int|
                    0 <= k < s.db.tokens().len() && (#[trigger] s.db.tokens()[k]).token == token,
            },
{
    law_who_is_admitted(s, peer, Bucket::Token, at);
    if s.caller_of(header, now) is Some {
        law_no_other_token_speaks(s, header, now);
        let (i, c) = choose|i: int, c: int| #[trigger]
            speaks(s, header, now, i, c) && s.caller_of(header, now) == Some(s.db.nodes()[c]);
        assert(speaks(s, header, now, i, c));
    }
    assert forall|i: int, c: int| #[trigger] speaks(s, header, now, i, c) implies
        s.caller_of(header, now) == Some(s.db.nodes()[c]) by {
        law_token_names_its_node(s, header, now, i, c);
    }
}

/// A deletion that is not accepted is answered with its fault: a token that does not count,
/// or a signature that is not good.
pub proof fn law_why_deletions_are_refused(
    s: AppState,
    peer: IpAddress,
    header: Option<Seq<char>>,
    req: SignedRequest,
    at: Instant,
    now: i64,
    after: AppState,
    e: Error,
)
    requires
        s.wf(),
        s.deleted(peer, header, req, at, now, after, Err(e)),
        s.rate_limiter.log(peer, Bucket::Token).len() < 10,
    ensures
        (forall|i: int, c: int| !#[trigger] speaks(s, header, now, i, c)) ==> e@
            == Refusal::InvalidAuthToken,
        forall|i: int, c: int| #[trigger]
            speaks(s, header, now, i, c) ==> match crate::coord::routes::signed_refusal(
                s.db.nodes()[c].identity,
                encode_utf8("delete_node"@) + bytes::be64(req.timestamp as u64),
                req.signature@,
                req.timestamp,
                now,
            ) {
                Some(f) => e@ == f,
                None => false,
            },
{
    law_who_is_admitted(s, peer, Bucket::Token, at);
    if s.caller_of(header, now) is Some {
        law_no_other_token_speaks(s, header, now);
        let (i, c) = choose|i: int, c: int| #[trigger]
            speaks(s, header, now, i, c) && s.caller_of(header, now) == Some(s.db.nodes()[c]);
        assert(speaks(s, header, now, i, c));
    }
    assert forall|i: int, c: int| #[trigger] speaks(s, header, now, i, c) implies
        s.caller_of(header, now) == Some(s.db.nodes()[c]) by {
        law_token_names_its_node(s, header, now, i, c);
    }
}

/// A stored token without an end ends thirty days after it was issued; any other keeps
/// its end. Nothing else about it changes.
pub proof fn law_old_tokens_get_an_end(t: TokenView)
    requires
        t.created_at + 2_592_000 <= i64::MAX,
    ensures
        ({
            let u = db::backfilled(t);
            &&& t.expires_at == 0 ==> u.expires_at == t.created_at + 30 * 24 * 60 * 60
            &&& t.expires_at != 0 ==> u.expires_at == t.expires_at
            &&& u.token == t.token && u.node_id == t.node_id
            &&& u.created_at == t.created_at && u.revoked == t.revoked
        }),
{
}

/// A server that goes on with a stored directory knows the same nodes and tokens, has
/// exactly the addresses of the nodes taken, counts no request against anybody, and
/// issues tokens for thirty days unless it is told otherwise.
pub proof fn law_server_goes_on(
    s: AppState,
    d: db::Directory,
    setting: Option<Seq<char>>,
    n: u32,
    ttl: i64,
    peer: IpAddress,
    bucket: Bucket,
)
    requires
        s.resumes(d, setting),
        setting is None || setting == Some(text::signed_decimal(ttl as int)),
    ensures
        s.db.nodes() == d.nodes() && s.db.tokens() == d.tokens(),
        s.ip_alloc.taken().contains(n) <==> exists|j: int|
            0 <= j < d.nodes().len() && n == bytes::from_be32(
                text::lenient_ip((#[trigger] d.nodes()[j]).ip),
            ),
        s.rate_limiter.log(peer, bucket).len() == 0,
        s.token_ttl_secs == if setting is None {
            2_592_000
        } else {
            ttl
        },
{
    crate::coord::state::law_stored_addresses_are_taken(d.nodes(), n);
    text::law_number_round_trip(ttl);
    assert(s.rate_limiter.log(peer, bucket) == Seq::<Instant>::empty());
}

} // verus!
