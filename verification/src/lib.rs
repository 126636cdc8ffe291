//! A mesh VPN core: the WireGuard-style handshake and transport framing, the
//! per-peer tunnel state machine, the coordination server's rules, and the
//! node-side planning and key storage.

pub mod bytes;
pub mod cli;
pub mod coord;
pub mod crypto;
pub mod encoding;
pub mod net;
pub mod table;
pub mod text;
pub mod time;
pub mod tunnel;
