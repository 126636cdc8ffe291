//! The node's configuration.

use vstd::prelude::*;

verus! {

/// Which coordination server the node uses.
#[derive(Debug, Clone)]
pub struct ServerConfig {
    /// Where the server is.
    pub url: String,
}

/// The node's configuration.
#[derive(Debug, Clone)]
pub struct Config {
    /// The coordination server.
    pub server: ServerConfig,
}

impl Config {
    /// The configuration for a server.
    pub fn default_with_server(url: &str) -> (r: Self)
        ensures
            r.server.url@ == url@,
    {
        Config { server: ServerConfig { url: url.to_string() } }
    }
}

} // verus!
