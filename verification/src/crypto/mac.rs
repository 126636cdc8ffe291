//! Message authentication codes of the handshake messages, over BLAKE2s.

use blake2::digest::typenum::U16;
use blake2::digest::{KeyInit, Mac};
use blake2::{Blake2s256, Blake2sMac, Digest};
use vstd::prelude::*;
use vstd::utf8::*;

verus! {

/// The label under which the first code's key is derived.
pub open spec fn mac1_label() -> Seq<u8> {
    encode_utf8("mac1----"@)
}

/// The label under which the cookie key is derived.
pub open spec fn cookie_label() -> Seq<u8> {
    encode_utf8("cookie--"@)
}

/// The unkeyed BLAKE2s-256 digest of a byte string.
pub uninterp spec fn blake2s(input: Seq<u8>) -> Seq<u8>;

/// The keyed BLAKE2s code of a byte string, 16 bytes long.
pub uninterp spec fn blake2s_mac(key: Seq<u8>, input: Seq<u8>) -> Seq<u8>;

/// The key of the first code of messages to the holder of `public`.
pub open spec fn mac1_key_of(public: Seq<u8>) -> Seq<u8> {
    blake2s(mac1_label() + public)
}

/// Calls `Blake2s256::digest`. The digest depends on the input alone.
#[verifier::external_body]
fn blake2s_digest(input: &[u8]) -> (r: [u8; 32])
    ensures
        r@ == blake2s(input@),
{
    Blake2s256::digest(input).into()
}

/// Calls `Blake2sMac::<U16>::new_from_slice`, `update` and `finalize`. The code
/// depends on the key and the input alone. Keys of up to 32 bytes are accepted.
#[verifier::external_body]
fn blake2s_keyed(key: &[u8], input: &[u8]) -> (r: [u8; 16])
    requires
        key@.len() <= 32,
    ensures
        r@ == blake2s_mac(key@, input@),
{
    let mut mac = <Blake2sMac<U16> as KeyInit>::new_from_slice(key).expect("key of at most 32 bytes");
    Mac::update(&mut mac, input);
    mac.finalize().into_bytes().into()
}

/// The BLAKE2s-256 digest of a label and a public key.
pub fn hash1(label_and_responder_pub: &[u8]) -> (r: [u8; 32])
    ensures
        r@ == blake2s(label_and_responder_pub@),
{
    blake2s_digest(label_and_responder_pub)
}

fn labelled(label: &str, public: &[u8; 32]) -> (r: Vec<u8>)
    ensures
        r@ == encode_utf8(label@) + public@,
{
    let mut buf: Vec<u8> = Vec::new();
    buf.extend_from_slice(label.as_bytes());
    buf.extend_from_slice(public);
    assert(buf@ =~= encode_utf8(label@) + public@);
    buf
}

/// The key of the first code of messages to the holder of `responder_pub`.
pub fn mac1_key(responder_pub: &[u8; 32]) -> (r: [u8; 32])
    ensures
        r@ == mac1_key_of(responder_pub@),
{
    hash1(labelled("mac1----", responder_pub).as_slice())
}

/// The key under which cookies for the holder of `responder_pub` are sealed.
pub fn cookie_key(responder_pub: &[u8; 32]) -> (r: [u8; 32])
    ensures
        r@ == blake2s(cookie_label() + responder_pub@),
{
    hash1(labelled("cookie--", responder_pub).as_slice())
}

/// The first code of a message: over everything in front of the code.
pub fn compute_mac1(key: &[u8; 32], msg_before_mac: &[u8]) -> (r: [u8; 16])
    ensures
        r@ == blake2s_mac(key@, msg_before_mac@),
{
    blake2s_keyed(key, msg_before_mac)
}

/// The second code of a message: the echo of a cookie.
pub fn compute_mac2(cookie: &[u8; 16], msg: &[u8]) -> (r: [u8; 16])
    ensures
        r@ == blake2s_mac(cookie@, msg@),
{
    blake2s_keyed(cookie, msg)
}

/// The BLAKE2s-256 digest of a byte string.
pub fn hash_bytes(input: &[u8]) -> (r: [u8; 32])
    ensures
        r@ == blake2s(input@),
{
    blake2s_digest(input)
}

} // verus!
