//! Signed requests: what is signed, and how old a signature may be.

use crate::bytes;
use crate::coord::error::{Error, Refusal};
use crate::crypto::identity;
use crate::crypto::identity::Identity;
use crate::crypto::timestamp;
use vstd::prelude::*;
use vstd::utf8::*;

verus! {

/// What a registration's signature starts with.
pub const REGISTER_TAG: &'static str = "register";

/// What a heartbeat's signature starts with.
pub const HEARTBEAT_TAG: &'static str = "heartbeat";

/// What a token refresh's signature starts with.
pub const REFRESH_TAG: &'static str = "token_refresh";

/// What a node deletion's signature starts with.
pub const DELETE_NODE_TAG: &'static str = "delete_node";

/// How far a timestamp may lie from the server's clock.
pub const TIMESTAMP_WINDOW_SECONDS: i64 = 300;

/// The current Unix time in seconds, or `None` while the clock stands before the
/// epoch or too far ahead to be represented.
pub fn current_timestamp() -> (r: Option<i64>)
    ensures
        r matches Some(t) ==> t >= 0,
{
    timestamp_of(timestamp::unix_clock())
}

/// The seconds of a reading of the wall clock, in seconds and nanoseconds of Unix
/// time; `None` where there is none or it is too far ahead to be represented.
pub fn timestamp_of(reading: Option<(u64, u32)>) -> (r: Option<i64>)
    ensures
        match reading {
            Some((s, _)) => if s <= i64::MAX {
                r == Some(s as i64)
            } else {
                r is None
            },
            None => r is None,
        },
{
    match reading {
        Some((s, _)) => {
            if s <= i64::MAX as u64 {
                Some(s as i64)
            } else {
                None
            }
        },
        None => None,
    }
}

/// Whether a timestamp lies within the window around a moment.
pub open spec fn is_recent(timestamp: i64, now: i64) -> bool {
    -300 <= now - timestamp <= 300
}

/// Refuses a timestamp outside the window.
pub fn validate_timestamp(timestamp: i64, now: i64) -> (r: Result<(), Error>)
    ensures
        match r {
            Ok(_) => is_recent(timestamp, now),
            Err(e) => !is_recent(timestamp, now) && e@ == Refusal::InvalidTimestamp(300),
        },
{
    let diff: i128 = now as i128 - timestamp as i128;
    let window: i128 = TIMESTAMP_WINDOW_SECONDS as i128;
    if diff > window || diff < -window {
        return Err(Error::InvalidTimestamp(TIMESTAMP_WINDOW_SECONDS));
    }
    Ok(())
}

/// A tag followed by a timestamp, most significant byte first.
pub open spec fn stamped(tag: Seq<char>, timestamp: i64) -> Seq<u8> {
    encode_utf8(tag) + bytes::be64(timestamp as u64)
}

/// What a node signs to register.
pub open spec fn register_message(timestamp: i64, identity: Seq<u8>, wg: Seq<u8>) -> Seq<u8> {
    stamped(REGISTER_TAG@, timestamp) + identity + wg
}

/// What a node signs with a heartbeat: a zero byte announces a relay, a one says
/// that there is none.
pub open spec fn heartbeat_message(
    timestamp: i64,
    endpoint: Seq<char>,
    via_relay: Option<Seq<char>>,
) -> Seq<u8> {
    stamped(HEARTBEAT_TAG@, timestamp) + encode_utf8(endpoint) + match via_relay {
        Some(r) => seq![0u8] + encode_utf8(r),
        None => seq![1u8],
    }
}

/// What a node signs to exchange its token.
pub open spec fn refresh_message(timestamp: i64) -> Seq<u8> {
    stamped(REFRESH_TAG@, timestamp)
}

/// What a node signs to be deleted.
pub open spec fn delete_node_message(timestamp: i64) -> Seq<u8> {
    stamped(DELETE_NODE_TAG@, timestamp)
}

/// The text of an optional string.
pub open spec fn text_of(s: Option<&str>) -> Option<Seq<char>> {
    match s {
        Some(t) => Some(t@),
        None => None,
    }
}

/// Whether a signature counts under a public key.
pub open spec fn signed_by(public: Seq<u8>, msg: Seq<u8>, sig: Seq<u8>) -> bool {
    public.len() == 32 && identity::ed25519_is_point(public) && identity::ed25519_accepts(public, msg, sig)
}

fn stamp(tag: &str, timestamp: i64) -> (r: Vec<u8>)
    ensures
        r@ == stamped(tag@, timestamp),
{
    let mut msg: Vec<u8> = Vec::new();
    msg.extend_from_slice(tag.as_bytes());
    let t = bytes::u64_to_be(timestamp as u64);
    msg.extend_from_slice(&t);
    assert(msg@ =~= stamped(tag@, timestamp));
    msg
}

/// What a node signs to register.
pub fn build_register_message(
    timestamp: i64,
    identity_pubkey: &[u8; 32],
    wg_pubkey: &[u8; 32],
) -> (r: Vec<u8>)
    ensures
        r@ == register_message(timestamp, identity_pubkey@, wg_pubkey@),
{
    let mut msg = stamp(REGISTER_TAG, timestamp);
    msg.extend_from_slice(identity_pubkey);
    msg.extend_from_slice(wg_pubkey);
    assert(msg@ =~= register_message(timestamp, identity_pubkey@, wg_pubkey@));
    msg
}

/// What a node signs with a heartbeat.
pub fn build_heartbeat_message(timestamp: i64, endpoint: &str, via_relay: Option<&str>) -> (r: Vec<
    u8,
>)
    ensures
        r@ == heartbeat_message(timestamp, endpoint@, text_of(via_relay)),
{
    let mut msg = stamp(HEARTBEAT_TAG, timestamp);
    msg.extend_from_slice(endpoint.as_bytes());
    match via_relay {
        Some(r) => {
            msg.push(0);
            msg.extend_from_slice(r.as_bytes());
        },
        None => {
            msg.push(1);
        },
    }
    assert(msg@ =~= heartbeat_message(timestamp, endpoint@, text_of(via_relay)));
    msg
}

/// What a node signs to exchange its token.
pub fn build_refresh_message(timestamp: i64) -> (r: Vec<u8>)
    ensures
        r@ == refresh_message(timestamp),
{
    stamp(REFRESH_TAG, timestamp)
}

/// What a node signs to be deleted.
pub fn build_delete_node_message(timestamp: i64) -> (r: Vec<u8>)
    ensures
        r@ == delete_node_message(timestamp),
{
    stamp(DELETE_NODE_TAG, timestamp)
}

/// Refuses a message that the holder of `pubkey` did not sign.
pub fn verify_signature(pubkey: &[u8; 32], msg: &[u8], signature: &[u8; 64]) -> (r: Result<
    (),
    Error,
>)
    ensures
        match r {
            Ok(_) => signed_by(pubkey@, msg@, signature@),
            Err(e) => !signed_by(pubkey@, msg@, signature@) && e@ == Refusal::InvalidSignature,
        },
{
    if Identity::verify(pubkey, msg, signature) {
        Ok(())
    } else {
        Err(Error::InvalidSignature)
    }
}

/// Refuses a registration that its identity did not sign.
pub fn verify_register_signature(
    identity_pubkey: &[u8; 32],
    wg_pubkey: &[u8; 32],
    timestamp: i64,
    signature: &[u8; 64],
) -> (r: Result<(), Error>)
    ensures
        ({
            let msg = register_message(timestamp, identity_pubkey@, wg_pubkey@);
            match r {
                Ok(_) => signed_by(identity_pubkey@, msg, signature@),
                Err(e) => !signed_by(identity_pubkey@, msg, signature@) && e@
                    == Refusal::InvalidSignature,
            }
        }),
{
    let msg = build_register_message(timestamp, identity_pubkey, wg_pubkey);
    verify_signature(identity_pubkey, msg.as_slice(), signature)
}

/// Refuses a heartbeat that its identity did not sign.
pub fn verify_heartbeat_signature(
    identity_pubkey: &[u8; 32],
    endpoint: &str,
    via_relay: Option<&str>,
    timestamp: i64,
    signature: &[u8; 64],
) -> (r: Result<(), Error>)
    ensures
        ({
            let msg = heartbeat_message(timestamp, endpoint@, text_of(via_relay));
            match r {
                Ok(_) => signed_by(identity_pubkey@, msg, signature@),
                Err(e) => !signed_by(identity_pubkey@, msg, signature@) && e@
                    == Refusal::InvalidSignature,
            }
        }),
{
    let msg = build_heartbeat_message(timestamp, endpoint, via_relay);
    verify_signature(identity_pubkey, msg.as_slice(), signature)
}

} // verus!
