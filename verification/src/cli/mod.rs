//! The node's side: its keys, its configuration, what it asks of the coordination
//! server and how it plans its tunnels.

pub mod client;
pub mod config;
pub mod error;
pub mod heartbeat;
pub mod identity;
pub mod init;
pub mod keystore;
pub mod laws;
pub mod platform;
pub mod state;
pub mod up;
