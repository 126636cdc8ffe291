//! How the coordination server refuses a request.

use crate::crypto;
use crate::text;
use vstd::prelude::*;

verus! {

/// An error of the coordination server.
#[derive(Debug)]
pub enum Error {
    /// A record clashes with one that is stored, or the store failed.
    Database(String),
    /// Every address of the pool is taken.
    IpPoolExhausted,
    /// A signature does not verify.
    InvalidSignature,
    /// A timestamp lies too far from the server's clock.
    InvalidTimestamp(i64),
    /// A public key has the wrong length.
    InvalidPubkey,
    /// A token is unknown, revoked or expired, or missing.
    InvalidAuthToken,
    /// A token has expired.
    TokenExpired(i64),
    /// The caller makes too many requests.
    RateLimited(u64),
    /// A request makes no sense.
    InvalidRequest(String),
    /// There is no such node.
    NodeNotFound,
    /// A text is no base64, in the decoder's words.
    Base64(String),
    /// A text is no JSON, in the parser's words.
    Json(String),
    /// The cryptography refused.
    Crypto(crypto::error::Error),
}

/// An error, with its texts as sequences of characters.
pub enum Refusal {
    Database(Seq<char>),
    IpPoolExhausted,
    InvalidSignature,
    InvalidTimestamp(i64),
    InvalidPubkey,
    InvalidAuthToken,
    TokenExpired(i64),
    RateLimited(u64),
    InvalidRequest(Seq<char>),
    NodeNotFound,
    Base64(Seq<char>),
    Json(Seq<char>),
    Crypto(crypto::error::Error),
}

impl View for Error {
    type V = Refusal;

    open spec fn view(&self) -> Refusal {
        match *self {
            Error::Database(t) => Refusal::Database(t@),
            Error::IpPoolExhausted => Refusal::IpPoolExhausted,
            Error::InvalidSignature => Refusal::InvalidSignature,
            Error::InvalidTimestamp(w) => Refusal::InvalidTimestamp(w),
            Error::InvalidPubkey => Refusal::InvalidPubkey,
            Error::InvalidAuthToken => Refusal::InvalidAuthToken,
            Error::TokenExpired(t) => Refusal::TokenExpired(t),
            Error::RateLimited(s) => Refusal::RateLimited(s),
            Error::InvalidRequest(t) => Refusal::InvalidRequest(t@),
            Error::NodeNotFound => Refusal::NodeNotFound,
            Error::Base64(t) => Refusal::Base64(t@),
            Error::Json(t) => Refusal::Json(t@),
            Error::Crypto(e) => Refusal::Crypto(e),
        }
    }
}

impl Refusal {
    /// The error in words.
    pub open spec fn text(self) -> Seq<char> {
        match self {
            Refusal::Database(t) => "database error: "@ + t,
            Refusal::IpPoolExhausted => "ip pool exhausted"@,
            Refusal::InvalidSignature => "invalid signature"@,
            Refusal::InvalidTimestamp(w) => "invalid timestamp: drift exceeds "@
                + text::signed_decimal(w as int) + " seconds"@,
            Refusal::InvalidPubkey => "invalid public key"@,
            Refusal::InvalidAuthToken => "invalid auth token"@,
            Refusal::TokenExpired(t) => "token expired at "@ + text::signed_decimal(t as int),
            Refusal::RateLimited(s) => "rate limit exceeded; retry after "@ + text::decimal(
                s as nat,
            ) + "s"@,
            Refusal::InvalidRequest(t) => "invalid request: "@ + t,
            Refusal::NodeNotFound => "node not found"@,
            Refusal::Base64(t) => "base64 decode error: "@ + t,
            Refusal::Json(t) => "json error: "@ + t,
            Refusal::Crypto(e) => "crypto error: "@ + e.text(),
        }
    }

    /// The HTTP status with which the server answers.
    pub open spec fn status(self) -> u16 {
        match self {
            Refusal::InvalidSignature | Refusal::InvalidAuthToken | Refusal::TokenExpired(_) => 401,
            Refusal::NodeNotFound => 404,
            Refusal::InvalidRequest(_) | Refusal::InvalidPubkey | Refusal::InvalidTimestamp(_) =>
                400,
            Refusal::IpPoolExhausted => 503,
            Refusal::RateLimited(_) => 429,
            _ => 500,
        }
    }
}

impl Error {
    /// The error in words.
    pub fn message(&self) -> (r: String)
        ensures
            r@ == self@.text(),
    {
        match self {
            Error::Database(t) => "database error: ".to_string().concat(t.as_str()),
            Error::IpPoolExhausted => "ip pool exhausted".to_string(),
            Error::InvalidSignature => "invalid signature".to_string(),
            Error::InvalidTimestamp(w) => {
                "invalid timestamp: drift exceeds ".to_string().concat(
                    text::signed_decimal_text(*w).as_str(),
                ).concat(" seconds")
            },
            Error::InvalidPubkey => "invalid public key".to_string(),
            Error::InvalidAuthToken => "invalid auth token".to_string(),
            Error::TokenExpired(t) => "token expired at ".to_string().concat(
                text::signed_decimal_text(*t).as_str(),
            ),
            Error::RateLimited(s) => "rate limit exceeded; retry after ".to_string().concat(
                text::decimal_text(*s).as_str(),
            ).concat("s"),
            Error::InvalidRequest(t) => "invalid request: ".to_string().concat(t.as_str()),
            Error::NodeNotFound => "node not found".to_string(),
            Error::Base64(t) => "base64 decode error: ".to_string().concat(t.as_str()),
            Error::Json(t) => "json error: ".to_string().concat(t.as_str()),
            Error::Crypto(e) => "crypto error: ".to_string().concat(e.message().as_str()),
        }
    }

    /// The HTTP status with which the server answers.
    pub fn status(&self) -> (r: u16)
        ensures
            r == self@.status(),
    {
        match self {
            Error::InvalidSignature | Error::InvalidAuthToken | Error::TokenExpired(_) => 401,
            Error::NodeNotFound => 404,
            Error::InvalidRequest(_) | Error::InvalidPubkey | Error::InvalidTimestamp(_) => 400,
            Error::IpPoolExhausted => 503,
            Error::RateLimited(_) => 429,
            _ => 500,
        }
    }

    /// After how many seconds the caller may try again, where it made too many
    /// requests.
    pub fn retry_after(&self) -> (r: Option<u64>)
        ensures
            r == (match self@ {
                Refusal::RateLimited(s) => Some(s),
                _ => None,
            }),
    {
        match self {
            Error::RateLimited(s) => Some(*s),
            _ => None,
        }
    }
}

} // verus!
