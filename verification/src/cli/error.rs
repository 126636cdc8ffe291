//! What can go wrong on a node.

use crate::crypto;
use crate::tunnel;
use vstd::prelude::*;

verus! {

/// An error of the node.
#[derive(Debug)]
pub enum Error {
    /// The file system or a process failed, in its own words.
    Io(String),
    /// The cryptography refused.
    Crypto(crypto::error::Error),
    /// The tunnel refused.
    Tunnel(tunnel::error::Error),
    /// There is no place for the configuration.
    NoConfigDir,
    /// A file makes no sense.
    BadConfig(String),
    /// There are no keys in a directory.
    NotInitialized(String),
    /// The server or something that it said is no good.
    Server(String),
    /// The connection to the server failed, in its own words.
    Http(String),
    /// A text is no JSON, in the parser's words.
    Json(String),
    /// A text is no base64, in the decoder's words.
    Base64(String),
    /// A text is no TOML, in the parser's words.
    TomlDe(String),
    /// A value cannot be written as TOML, in the writer's words.
    TomlSer(String),
    /// There is no configuration.
    ConfigMissing,
}

/// An error, with its texts as sequences of characters.
pub enum Failure {
    Io(Seq<char>),
    Crypto(crypto::error::Error),
    Tunnel(tunnel::error::Error),
    NoConfigDir,
    BadConfig(Seq<char>),
    NotInitialized(Seq<char>),
    Server(Seq<char>),
    Http(Seq<char>),
    Json(Seq<char>),
    Base64(Seq<char>),
    TomlDe(Seq<char>),
    TomlSer(Seq<char>),
    ConfigMissing,
}

impl View for Error {
    type V = Failure;

    open spec fn view(&self) -> Failure {
        match *self {
            Error::Io(t) => Failure::Io(t@),
            Error::Crypto(e) => Failure::Crypto(e),
            Error::Tunnel(e) => Failure::Tunnel(e),
            Error::NoConfigDir => Failure::NoConfigDir,
            Error::BadConfig(t) => Failure::BadConfig(t@),
            Error::NotInitialized(t) => Failure::NotInitialized(t@),
            Error::Server(t) => Failure::Server(t@),
            Error::Http(t) => Failure::Http(t@),
            Error::Json(t) => Failure::Json(t@),
            Error::Base64(t) => Failure::Base64(t@),
            Error::TomlDe(t) => Failure::TomlDe(t@),
            Error::TomlSer(t) => Failure::TomlSer(t@),
            Error::ConfigMissing => Failure::ConfigMissing,
        }
    }
}

impl Failure {
    /// The error in words.
    pub open spec fn text(self) -> Seq<char> {
        match self {
            Failure::Io(t) => "io error: "@ + t,
            Failure::Crypto(e) => "crypto error: "@ + e.text(),
            Failure::Tunnel(e) => "tunnel error: "@ + e.text(),
            Failure::NoConfigDir => "config directory not found"@,
            Failure::BadConfig(t) => "config file malformed: "@ + t,
            Failure::NotInitialized(t) => "identity not initialized in "@ + t
                + ": run `naboscale --config-dir "@ + t + " init` first"@,
            Failure::Server(t) => "server error: "@ + t,
            Failure::Http(t) => "http error: "@ + t,
            Failure::Json(t) => "json error: "@ + t,
            Failure::Base64(t) => "base64 decode error: "@ + t,
            Failure::TomlDe(t) => "toml deserialize error: "@ + t,
            Failure::TomlSer(t) => "toml serialize error: "@ + t,
            Failure::ConfigMissing => "config not initialized: run `naboscale init` first"@,
        }
    }
}

impl Error {
    /// The error in words.
    pub fn message(&self) -> (r: String)
        ensures
            r@ == self@.text(),
    {
        match self {
            Error::Io(t) => "io error: ".to_string().concat(t.as_str()),
            Error::Crypto(e) => "crypto error: ".to_string().concat(e.message().as_str()),
            Error::Tunnel(e) => "tunnel error: ".to_string().concat(e.message().as_str()),
            Error::NoConfigDir => "config directory not found".to_string(),
            Error::BadConfig(t) => "config file malformed: ".to_string().concat(t.as_str()),
            Error::NotInitialized(t) => {
                "identity not initialized in ".to_string().concat(t.as_str()).concat(
                    ": run `naboscale --config-dir ",
                ).concat(t.as_str()).concat(" init` first")
            },
            Error::Server(t) => "server error: ".to_string().concat(t.as_str()),
            Error::Http(t) => "http error: ".to_string().concat(t.as_str()),
            Error::Json(t) => "json error: ".to_string().concat(t.as_str()),
            Error::Base64(t) => "base64 decode error: ".to_string().concat(t.as_str()),
            Error::TomlDe(t) => "toml deserialize error: ".to_string().concat(t.as_str()),
            Error::TomlSer(t) => "toml serialize error: ".to_string().concat(t.as_str()),
            Error::ConfigMissing => "config not initialized: run `naboscale init` first".to_string(),
        }
    }
}

} // verus!
