//! The coordination server: who may register, who sees whom, and how often.

pub mod auth;
pub mod db;
pub mod error;
pub mod ip_alloc;
pub mod laws;
pub mod rate_limit;
pub mod routes;
pub mod state;

pub use error::Error;
pub use state::AppState;
