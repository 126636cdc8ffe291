//! The static X25519 keypair of a node.

use rand_core::{OsRng, RngCore};
use vstd::prelude::*;
use x25519_dalek::{PublicKey, StaticSecret};
use zeroize::Zeroize;

verus! {

/// The X25519 public key of a secret: the clamped secret times the base point.
pub uninterp spec fn x25519_public(secret: Seq<u8>) -> Seq<u8>;

/// Calls `PublicKey::from(&StaticSecret)`. The result depends on the 32 secret
/// bytes alone.
#[verifier::external_body]
fn derive_public(secret: &[u8; 32]) -> (r: [u8; 32])
    ensures
        r@ == x25519_public(secret@),
{
    *PublicKey::from(&StaticSecret::from(*secret)).as_bytes()
}

/// Calls `OsRng::fill_bytes`. Nothing is claimed of what the operating system's
/// generator hands out; where the system has none, the call does not return.
#[verifier::external_body]
pub(crate) fn random_bytes<const N: usize>() -> (r: [u8; N])
{
    let mut bytes = [0u8; N];
    OsRng.fill_bytes(&mut bytes);
    bytes
}

/// Calls `Zeroize::zeroize` on 32 bytes: all of them are zero afterwards.
#[verifier::external_body]
pub(crate) fn wipe_32(bytes: &mut [u8; 32])
    ensures
        final(bytes)@ == Seq::new(32, |i: int| 0u8),
{
    bytes.zeroize();
}

/// A static X25519 keypair. The secret is kept as it was given; clamping happens
/// where it is used.
pub struct Keypair {
    secret: [u8; 32],
    public: [u8; 32],
}

impl Clone for Keypair {
    fn clone(&self) -> (r: Self)
        ensures
            r == *self,
    {
        Self { secret: self.secret, public: self.public }
    }
}

impl Keypair {
    /// The secret bytes.
    pub closed spec fn secret(self) -> Seq<u8> {
        self.secret@
    }

    /// The public bytes that the keypair reports.
    pub closed spec fn public_key(self) -> Seq<u8> {
        self.public@
    }

    /// Whether the public bytes belong to the secret. Every keypair starts out
    /// this way and stays so until it is wiped.
    pub open spec fn matched(self) -> bool {
        self.public_key() == x25519_public(self.secret())
    }

    /// A keypair from the operating system's random generator.
    pub fn generate() -> (r: Self)
        ensures
            r.matched(),
    {
        Self::from_bytes(random_bytes())
    }

    /// The keypair of a secret.
    pub fn from_bytes(private: [u8; 32]) -> (r: Self)
        ensures
            r.secret() == private@,
            r.matched(),
    {
        let public = derive_public(&private);
        Self { secret: private, public }
    }

    /// The public key.
    pub fn public(&self) -> (r: &[u8; 32])
        ensures
            r@ == self.public_key(),
    {
        &self.public
    }

    /// The secret bytes, as they were given.
    pub fn secret_bytes(&self) -> (r: [u8; 32])
        ensures
            r@ == self.secret(),
    {
        self.secret
    }

    /// Wipes the public key and leaves the secret as it is.
    pub fn zeroize(&mut self)
        ensures
            final(self).public_key() == Seq::new(32, |i: int| 0u8),
            final(self).secret() == old(self).secret(),
    {
        wipe_32(&mut self.public);
    }
}

/// Both halves of a keypair have the length of a key.
pub proof fn law_key_lengths(k: Keypair)
    ensures
        k.secret().len() == 32,
        k.public_key().len() == 32,
{
}

} // verus!
