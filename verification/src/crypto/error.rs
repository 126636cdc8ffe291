//! What can go wrong in the handshake and on the transport.

use crate::text;
use vstd::prelude::*;

verus! {

/// Why a Noise operation was refused.
#[derive(Debug, Clone, Copy, PartialEq, Eq, Structural)]
pub enum NoiseFailure {
    /// A message was to be written out of turn.
    NotTurnToWrite,
    /// A message was to be read out of turn.
    NotTurnToRead,
    /// The handshake has not finished yet.
    HandshakeNotFinished,
    /// The handshake has already finished.
    HandshakeAlreadyFinished,
    /// The nonce counter is used up.
    Exhausted,
    /// A message or a buffer has an impossible size.
    Input,
    /// A message did not authenticate.
    Decrypt,
    /// Any other failure of the Noise layer.
    Other,
}

impl NoiseFailure {
    /// The failure in words.
    pub open spec fn text(self) -> Seq<char> {
        match self {
            NoiseFailure::NotTurnToWrite => "state error: NotTurnToWrite"@,
            NoiseFailure::NotTurnToRead => "state error: NotTurnToRead"@,
            NoiseFailure::HandshakeNotFinished => "state error: HandshakeNotFinished"@,
            NoiseFailure::HandshakeAlreadyFinished => "state error: HandshakeAlreadyFinished"@,
            NoiseFailure::Exhausted => "state error: Exhausted"@,
            NoiseFailure::Input => "input error"@,
            NoiseFailure::Decrypt => "decrypt error"@,
            NoiseFailure::Other => "protocol error"@,
        }
    }

    /// The failure in words.
    pub fn message(&self) -> (r: String)
        ensures
            r@ == self.text(),
    {
        let r = match self {
            NoiseFailure::NotTurnToWrite => "state error: NotTurnToWrite",
            NoiseFailure::NotTurnToRead => "state error: NotTurnToRead",
            NoiseFailure::HandshakeNotFinished => "state error: HandshakeNotFinished",
            NoiseFailure::HandshakeAlreadyFinished => "state error: HandshakeAlreadyFinished",
            NoiseFailure::Exhausted => "state error: Exhausted",
            NoiseFailure::Input => "input error",
            NoiseFailure::Decrypt => "decrypt error",
            NoiseFailure::Other => "protocol error",
        };
        r.to_string()
    }
}

/// An error of the handshake or the transport.
#[derive(Debug)]
pub enum Error {
    /// The Noise layer refused.
    Noise(NoiseFailure),
    /// The peer's static key is not known yet.
    HandshakeIncomplete,
    /// A message is too short.
    InvalidLength { expected: usize, actual: usize },
    /// A message carries an unexpected type byte or receiver.
    InvalidMessageType(u8),
    /// A timestamp lies outside the replay window.
    InvalidTimestamp,
    /// A message was seen before.
    ReplayDetected,
    /// The first message authentication code is wrong.
    MacInvalid,
    /// The peer must echo a cookie first.
    CookieRequired,
    /// An output buffer is too small.
    BufferTooSmall { needed: usize, actual: usize },
    /// Anything else on the transport.
    Transport(String),
}

impl Error {
    /// The error in words.
    pub open spec fn text(self) -> Seq<char> {
        match self {
            Error::Noise(n) => "noise protocol error: "@ + n.text(),
            Error::HandshakeIncomplete => "handshake incomplete"@,
            Error::InvalidLength { expected, actual } =>
                "invalid message length: expected at least "@ + text::decimal(expected as nat)
                    + " bytes, got "@ + text::decimal(actual as nat),
            Error::InvalidMessageType(b) => "invalid message type byte: 0x"@ + text::hex_byte(b),
            Error::InvalidTimestamp => "timestamp is too old or invalid"@,
            Error::ReplayDetected => "replay detected"@,
            Error::MacInvalid => "mac validation failed"@,
            Error::CookieRequired => "cookie required"@,
            Error::BufferTooSmall { needed, actual } => "buffer too small: need "@ + text::decimal(
                needed as nat,
            ) + " bytes, have "@ + text::decimal(actual as nat),
            Error::Transport(t) => "transport error: "@ + t@,
        }
    }

    /// The error in words.
    pub fn message(&self) -> (r: String)
        ensures
            r@ == self.text(),
    {
        match self {
            Error::Noise(n) => "noise protocol error: ".to_string().concat(n.message().as_str()),
            Error::HandshakeIncomplete => "handshake incomplete".to_string(),
            Error::InvalidLength { expected, actual } => {
                "invalid message length: expected at least ".to_string().concat(
                    text::decimal_text(*expected as u64).as_str(),
                ).concat(" bytes, got ").concat(text::decimal_text(*actual as u64).as_str())
            },
            Error::InvalidMessageType(b) => "invalid message type byte: 0x".to_string().concat(
                text::hex_byte_text(*b).as_str(),
            ),
            Error::InvalidTimestamp => "timestamp is too old or invalid".to_string(),
            Error::ReplayDetected => "replay detected".to_string(),
            Error::MacInvalid => "mac validation failed".to_string(),
            Error::CookieRequired => "cookie required".to_string(),
            Error::BufferTooSmall { needed, actual } => "buffer too small: need ".to_string().concat(
                text::decimal_text(*needed as u64).as_str(),
            ).concat(" bytes, have ").concat(text::decimal_text(*actual as u64).as_str()),
            Error::Transport(t) => "transport error: ".to_string().concat(t.as_str()),
        }
    }
}

} // verus!
