//! The Noise IKpsk2 handshake, its transport framing, and the node's keys.

pub mod error;
pub mod handshake;
pub mod identity;
pub mod keys;
pub mod laws;
pub mod mac;
pub mod noise;
pub mod timestamp;
pub mod transport;

pub use error::Error;
pub use handshake::{
    Initiator, Responder, COOKIE_SIZE, INIT_SIZE, MESSAGE_TYPE_COOKIE, MESSAGE_TYPE_INIT,
    MESSAGE_TYPE_RELAY, MESSAGE_TYPE_RESPONSE, RESPONSE_SIZE,
};
pub use identity::Identity;
pub use keys::Keypair;
pub use timestamp::Tai64N;
pub use transport::{Transport, MESSAGE_TYPE_TRANSPORT, TRANSPORT_HEADER_SIZE};
