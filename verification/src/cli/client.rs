//! What a node sends to the coordination server.

use crate::coord::auth;
use crate::coord::db;
use crate::coord::routes;
use crate::coord::routes::{HeartbeatRequest, RegisterRequest, SignedRequest};
use crate::coord::state::AppState;
use crate::crypto::identity;
use crate::crypto::identity::Identity;
use crate::encoding;
use crate::text;
use vstd::prelude::*;

verus! {

/// Whether an identity can sign for itself.
pub open spec fn can_sign(id: Identity) -> bool {
    id.matched() && identity::ed25519_is_point(id.public_key())
}

/// The address of a server without slashes at its end.
pub fn base_url(url: &str) -> (r: String)
    ensures
        r@ == text::trimmed(url@, '/'),
{
    let cs = text::characters(url);
    let n = text::trimmed_len(&cs, cs.len(), '/');
    assert(url@.take(url@.len() as int) =~= url@);
    let kept = url.substring_char(0, n);
    assert(kept@ =~= url@.take(n as int));
    kept.to_string()
}

/// Whether a request is the registration of a node. A server whose clock is close
/// accepts it.
pub open spec fn asks_to_register(
    id: Identity,
    wg_pubkey: Seq<u8>,
    timestamp: i64,
    r: RegisterRequest,
) -> bool {
    &&& r.timestamp == timestamp
    &&& r.identity_pubkey@ == encoding::base64_text(id.public_key())
    &&& r.wg_pubkey@ == encoding::base64_text(wg_pubkey)
    &&& r.signature@ == encoding::base64_text(
        identity::ed25519_signature(
            id.secret(),
            auth::register_message(timestamp, id.public_key(), wg_pubkey),
        ),
    )
    &&& routes::pubkey_of(r.identity_pubkey@) == Ok::<Seq<u8>, crate::coord::error::Refusal>(
        id.public_key(),
    )
    &&& routes::pubkey_of(r.wg_pubkey@) == Ok::<Seq<u8>, crate::coord::error::Refusal>(wg_pubkey)
    &&& can_sign(id) ==> forall|now: i64|
        auth::is_recent(timestamp, now) ==> #[trigger] routes::register_refusal(r, now) is None
}

/// The registration of a node. A server whose clock is close accepts it.
pub fn register_request(id: &Identity, wg_pubkey: &[u8; 32], timestamp: i64) -> (r: RegisterRequest)
    ensures
        asks_to_register(*id, wg_pubkey@, timestamp, r),
{
    let public = id.public();
    let msg = auth::build_register_message(timestamp, &public, wg_pubkey);
    let sig = id.sign(msg.as_slice());
    RegisterRequest {
        identity_pubkey: id.public_base64(),
        wg_pubkey: encoding::base64_encode(wg_pubkey),
        timestamp,
        signature: encoding::base64_encode(&sig),
    }
}

/// Whether a request is a sign of life of a node. A server whose clock is close accepts
/// it from the node, where the relay is an address.
pub open spec fn shows_life(
    id: Identity,
    endpoint: Seq<char>,
    via_relay: Option<Seq<char>>,
    timestamp: i64,
    r: HeartbeatRequest,
) -> bool {
    &&& r.timestamp == timestamp
    &&& r.endpoint@ == endpoint
    &&& db::chars_of(r.via_relay) == via_relay
    &&& r.signature@ == encoding::base64_text(
        identity::ed25519_signature(
            id.secret(),
            auth::heartbeat_message(timestamp, endpoint, via_relay),
        ),
    )
    &&& can_sign(id) ==> forall|caller: db::NodeView, now: i64|
        auth::is_recent(timestamp, now) && caller.identity == id.public_key()
            ==> #[trigger] AppState::heartbeat_refusal(caller, r, true, now) is None
}

/// A sign of life of a node. A server whose clock is close accepts it from the
/// node, where the relay is an address.
pub fn heartbeat_request(id: &Identity, endpoint: &str, via_relay: Option<&str>, timestamp: i64) -> (r:
    HeartbeatRequest)
    ensures
        shows_life(*id, endpoint@, auth::text_of(via_relay), timestamp, r),
{
    proof {
        id.lemma_key_sizes();
    }
    let msg = auth::build_heartbeat_message(timestamp, endpoint, via_relay);
    let sig = id.sign(msg.as_slice());
    let relay = match via_relay {
        Some(t) => Some(t.to_string()),
        None => None,
    };
    HeartbeatRequest {
        endpoint: endpoint.to_string(),
        via_relay: relay,
        timestamp,
        signature: encoding::base64_encode(&sig),
    }
}

/// Whether a request is a request for a new token. A server whose clock is close accepts
/// it from the node.
pub open spec fn asks_for_token(id: Identity, timestamp: i64, r: SignedRequest) -> bool {
    &&& r.timestamp == timestamp
    &&& r.signature@ == encoding::base64_text(
        identity::ed25519_signature(id.secret(), auth::refresh_message(timestamp)),
    )
    &&& can_sign(id) ==> forall|now: i64|
        auth::is_recent(timestamp, now) ==> #[trigger] routes::signed_refusal(
            id.public_key(),
            auth::refresh_message(timestamp),
            r.signature@,
            timestamp,
            now,
        ) is None
}

/// A request for a new token. A server whose clock is close accepts it from the
/// node.
pub fn refresh_request(id: &Identity, timestamp: i64) -> (r: SignedRequest)
    ensures
        asks_for_token(*id, timestamp, r),
{
    proof {
        id.lemma_key_sizes();
    }
    let msg = auth::build_refresh_message(timestamp);
    let sig = id.sign(msg.as_slice());
    SignedRequest { timestamp, signature: encoding::base64_encode(&sig) }
}

/// Whether a request is a request to be deleted. A server whose clock is close accepts
/// it from the node.
pub open spec fn asks_to_be_deleted(id: Identity, timestamp: i64, r: SignedRequest) -> bool {
    &&& r.timestamp == timestamp
    &&& r.signature@ == encoding::base64_text(
        identity::ed25519_signature(id.secret(), auth::delete_node_message(timestamp)),
    )
    &&& can_sign(id) ==> forall|now: i64|
        auth::is_recent(timestamp, now) ==> #[trigger] routes::signed_refusal(
            id.public_key(),
            auth::delete_node_message(timestamp),
            r.signature@,
            timestamp,
            now,
        ) is None
}

/// A request to be deleted. A server whose clock is close accepts it from the
/// node.
pub fn delete_node_request(id: &Identity, timestamp: i64) -> (r: SignedRequest)
    ensures
        asks_to_be_deleted(*id, timestamp, r),
{
    proof {
        id.lemma_key_sizes();
    }
    let msg = auth::build_delete_node_message(timestamp);
    let sig = id.sign(msg.as_slice());
    SignedRequest { timestamp, signature: encoding::base64_encode(&sig) }
}

} // verus!
