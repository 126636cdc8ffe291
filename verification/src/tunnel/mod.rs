//! The tunnel: per-peer sessions over UDP, relaying, keepalives and rekeying.

pub mod device;
pub mod duties;
pub mod error;
pub mod laws;
pub mod manager;
pub mod packet;
pub mod runs;
pub mod session;

pub use device::{Device, LoopbackDevice};
pub use error::Error;
pub use manager::{Command, Outcome, Progress, TunnelManager, Wait};
pub use session::{ManagerConfig, ManagerTimings, PeerConfig};
