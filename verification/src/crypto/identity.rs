//! The Ed25519 identity with which a node signs its requests.

use crate::crypto::keys;
use crate::encoding;
use ed25519_dalek::{Signature, Signer, SigningKey, Verifier, VerifyingKey};
use vstd::prelude::*;

verus! {

/// The Ed25519 public key of a secret.
pub uninterp spec fn ed25519_public(secret: Seq<u8>) -> Seq<u8>;

/// The Ed25519 signature of a message under a secret.
pub uninterp spec fn ed25519_signature(secret: Seq<u8>, msg: Seq<u8>) -> Seq<u8>;

/// Whether 32 bytes encode a point of the curve, and so can be a public key.
pub uninterp spec fn ed25519_is_point(public: Seq<u8>) -> bool;

/// Whether a signature is valid for a message under a public key.
pub uninterp spec fn ed25519_accepts(public: Seq<u8>, msg: Seq<u8>, sig: Seq<u8>) -> bool;

/// Calls `SigningKey::from_bytes` and `verifying_key`. The key depends on the
/// secret alone and is a point of the curve.
#[verifier::external_body]
fn derive_public(secret: &[u8; 32]) -> (r: [u8; 32])
    ensures
        r@ == ed25519_public(secret@),
        ed25519_is_point(r@),
{
    SigningKey::from_bytes(secret).verifying_key().to_bytes()
}

/// Calls `SigningKey::sign`. Ed25519 signing is deterministic, and the signature
/// is valid under the secret's own public key.
#[verifier::external_body]
fn sign_with(secret: &[u8; 32], msg: &[u8]) -> (r: [u8; 64])
    ensures
        r@ == ed25519_signature(secret@, msg@),
        ed25519_accepts(ed25519_public(secret@), msg@, r@),
{
    SigningKey::from_bytes(secret).sign(msg).to_bytes()
}

/// Calls `VerifyingKey::from_bytes`: it succeeds exactly where the bytes encode a
/// point of the curve, and keeps them as they are.
#[verifier::external_body]
fn is_point(public: &[u8; 32]) -> (r: bool)
    ensures
        r == ed25519_is_point(public@),
{
    VerifyingKey::from_bytes(public).is_ok()
}

/// Calls `VerifyingKey::verify`, for bytes that are a key. The answer depends on
/// the three byte strings alone.
#[verifier::external_body]
fn verify_with(public: &[u8; 32], msg: &[u8], sig: &[u8; 64]) -> (r: bool)
    requires
        ed25519_is_point(public@),
    ensures
        r == ed25519_accepts(public@, msg@, sig@),
{
    let key = VerifyingKey::from_bytes(public).expect("a point of the curve");
    key.verify(msg, &Signature::from_bytes(sig)).is_ok()
}

/// An Ed25519 identity. One made from a public key alone carries the all-zero
/// secret.
pub struct Identity {
    private: [u8; 32],
    public: [u8; 32],
}

impl Clone for Identity {
    fn clone(&self) -> (r: Self)
        ensures
            r == *self,
    {
        Self { private: self.private, public: self.public }
    }
}

impl Identity {
    /// The secret bytes.
    pub closed spec fn secret(self) -> Seq<u8> {
        self.private@
    }

    /// The public bytes.
    pub closed spec fn public_key(self) -> Seq<u8> {
        self.public@
    }

    /// Whether the public bytes belong to the secret.
    pub open spec fn matched(self) -> bool {
        self.public_key() == ed25519_public(self.secret())
    }

    /// An identity from the operating system's random generator.
    pub fn generate() -> (r: Self)
        ensures
            r.matched(),
            ed25519_is_point(r.public_key()),
    {
        Self::from_bytes(keys::random_bytes())
    }

    /// Keys are 32 bytes long.
    pub proof fn lemma_key_sizes(self)
        ensures
            self.secret().len() == 32,
            self.public_key().len() == 32,
    {
    }

    /// The identity of a secret.
    pub fn from_bytes(private: [u8; 32]) -> (r: Self)
        ensures
            r.secret() == private@,
            r.matched(),
            ed25519_is_point(r.public_key()),
    {
        let public = derive_public(&private);
        Self { private, public }
    }

    /// An identity that can be named but not used for signing, where the bytes
    /// are a public key at all.
    pub fn from_public(pubkey: [u8; 32]) -> (r: Option<Self>)
        ensures
            r is Some <==> ed25519_is_point(pubkey@),
            r matches Some(id) ==> id.public_key() == pubkey@ && id.secret() == Seq::new(
                32,
                |i: int| 0u8,
            ),
    {
        if is_point(&pubkey) {
            let private = [0u8; 32];
            assert(private@ =~= Seq::new(32, |i: int| 0u8));
            Some(Self { private, public: pubkey })
        } else {
            None
        }
    }

    /// The public key.
    pub fn public(&self) -> (r: [u8; 32])
        ensures
            r@ == self.public_key(),
    {
        self.public
    }

    /// The public key in base64.
    pub fn public_base64(&self) -> (r: String)
        ensures
            r@ == encoding::base64_text(self.public_key()),
            encoding::base64_decoded(r@) == encoding::Decoded::Bytes(self.public_key()),
    {
        encoding::base64_encode(&self.public)
    }

    /// The secret bytes.
    pub fn private_bytes(&self) -> (r: [u8; 32])
        ensures
            r@ == self.secret(),
    {
        self.private
    }

    /// Signs a message with the secret.
    pub fn sign(&self, msg: &[u8]) -> (r: [u8; 64])
        ensures
            r@ == ed25519_signature(self.secret(), msg@),
            ed25519_accepts(ed25519_public(self.secret()), msg@, r@),
    {
        sign_with(&self.private, msg)
    }

    /// Whether `sig` is a valid signature of `msg` under `pubkey`. Bytes that are
    /// no public key verify nothing.
    pub fn verify(pubkey: &[u8; 32], msg: &[u8], sig: &[u8; 64]) -> (r: bool)
        ensures
            r == (ed25519_is_point(pubkey@) && ed25519_accepts(pubkey@, msg@, sig@)),
    {
        is_point(pubkey) && verify_with(pubkey, msg, sig)
    }

    /// Wipes the secret and keeps the public key.
    pub fn zeroize(&mut self)
        ensures
            final(self).secret() == Seq::new(32, |i: int| 0u8),
            final(self).public_key() == old(self).public_key(),
    {
        keys::wipe_32(&mut self.private);
    }
}

} // verus!
