//! Base64, in which keys and signatures travel.

use base64::engine::general_purpose::STANDARD;
use base64::Engine;
use vstd::prelude::*;

verus! {

/// What decoding makes of a text: the bytes, or the reason of the refusal in
/// words.
pub enum Decoded {
    /// The decoded bytes.
    Bytes(Seq<u8>),
    /// Why the text is no base64.
    Refused(Seq<char>),
}

/// The standard padded base64 text of a byte string.
pub uninterp spec fn base64_text(data: Seq<u8>) -> Seq<char>;

/// What standard padded base64 decoding makes of a text.
pub uninterp spec fn base64_decoded(text: Seq<char>) -> Decoded;

/// Calls `STANDARD.encode`, for bytes whose text has a length that a machine can
/// hold. The text depends on the bytes alone, and decoding it gives the bytes
/// back.
#[verifier::external_body]
pub(crate) fn base64_encode(data: &[u8]) -> (r: String)
    requires
        data@.len() <= 1_000_000_000,
    ensures
        r@ == base64_text(data@),
        base64_decoded(r@) == Decoded::Bytes(data@),
{
    STANDARD.encode(data)
}

/// Calls `STANDARD.decode`, and renders a refusal with the error's own words.
/// Both depend on the text alone.
#[verifier::external_body]
pub(crate) fn base64_decode(text: &str) -> (r: Result<Vec<u8>, String>)
    ensures
        match r {
            Ok(data) => base64_decoded(text@) == Decoded::Bytes(data@),
            Err(reason) => base64_decoded(text@) == Decoded::Refused(reason@),
        },
{
    STANDARD.decode(text).map_err(|e| e.to_string())
}

} // verus!
