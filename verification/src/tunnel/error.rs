//! What can go wrong in the tunnel.

use crate::crypto;
use crate::text;
use vstd::prelude::*;

verus! {

/// An error of the tunnel.
#[derive(Debug)]
pub enum Error {
    /// The tunnel device failed, in its own words.
    Tun(String),
    /// The socket failed, in its own words.
    Io(String),
    /// The handshake or the transport refused.
    Crypto(crypto::error::Error),
    /// A packet does not fit into a buffer.
    BufferTooSmall { needed: usize, actual: usize },
    /// The handshake did not finish in time.
    HandshakeTimeout,
    /// The other end is gone.
    NotReady,
    /// A packet or a configuration makes no sense.
    InvalidConfig(String),
}

impl Error {
    /// The error in words.
    pub open spec fn text(self) -> Seq<char> {
        match self {
            Error::Tun(t) => "tun device error: "@ + t@,
            Error::Io(t) => "io error: "@ + t@,
            Error::Crypto(e) => "crypto error: "@ + e.text(),
            Error::BufferTooSmall { needed, actual } => "buffer too small: need "@ + text::decimal(
                needed as nat,
            ) + " bytes, have "@ + text::decimal(actual as nat),
            Error::HandshakeTimeout => "handshake timeout"@,
            Error::NotReady => "tunnel not ready"@,
            Error::InvalidConfig(t) => "invalid config: "@ + t@,
        }
    }

    /// Whether the error is an invalid configuration for the given reason.
    pub open spec fn is_invalid(self, reason: Seq<char>) -> bool {
        self matches Error::InvalidConfig(t) && t@ == reason
    }

    /// The error in words.
    pub fn message(&self) -> (r: String)
        ensures
            r@ == self.text(),
    {
        match self {
            Error::Tun(t) => "tun device error: ".to_string().concat(t.as_str()),
            Error::Io(t) => "io error: ".to_string().concat(t.as_str()),
            Error::Crypto(e) => "crypto error: ".to_string().concat(e.message().as_str()),
            Error::BufferTooSmall { needed, actual } => "buffer too small: need ".to_string().concat(
                text::decimal_text(*needed as u64).as_str(),
            ).concat(" bytes, have ").concat(text::decimal_text(*actual as u64).as_str()),
            Error::HandshakeTimeout => "handshake timeout".to_string(),
            Error::NotReady => "tunnel not ready".to_string(),
            Error::InvalidConfig(t) => "invalid config: ".to_string().concat(t.as_str()),
        }
    }
}

/// An invalid configuration with its reason.
pub fn invalid(reason: &str) -> (r: Error)
    ensures
        r.is_invalid(reason@),
{
    Error::InvalidConfig(reason.to_string())
}

} // verus!
