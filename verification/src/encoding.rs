//! The URL-safe, unpadded base64 that offsets and signed payloads travel in,
//! as the `base64` crate computes it.

use vstd::prelude::*;

verus! {

/// `base64::DecodeError`, which a refused decoding carries.
#[verifier::external_type_specification]
#[verifier::external_body]
pub struct ExDecodeError(base64::DecodeError);

/// The URL-safe, unpadded base64 text of `bytes`.
pub uninterp spec fn b64_encoded(bytes: Seq<u8>) -> Seq<char>;

/// The bytes the URL-safe, unpadded base64 text `text` spells, or `None`
/// where it spells none.
pub uninterp spec fn b64_decoded(text: Seq<char>) -> Option<Seq<u8>>;

/// Encodes bytes as URL-safe, unpadded base64, by
/// `base64::engine::general_purpose::URL_SAFE_NO_PAD.encode`. Claimed: the
/// text is a function of the bytes alone, named `b64_encoded`, and decoding
/// it with the same engine gives the bytes back (the engine writes no padding
/// and its decoder requires none). The crate panics when the encoded length
/// overflows `usize`, which `requires` rules out.
#[verifier::external_body]
pub(crate) fn encode(bytes: &[u8]) -> (text: String)
    requires
        bytes@.len() / 3 * 4 + 4 <= usize::MAX,
    ensures
        text@ == b64_encoded(bytes@),
        b64_decoded(text@) == Some(bytes@),
{
    base64::Engine::encode(&base64::engine::general_purpose::URL_SAFE_NO_PAD, bytes)
}

/// Decodes URL-safe, unpadded base64, by
/// `base64::engine::general_purpose::URL_SAFE_NO_PAD.decode`. Claimed: the
/// outcome is a function of the text alone, named `b64_decoded`: the bytes
/// when it is `Some`, an error exactly when it is `None`.
#[verifier::external_body]
pub(crate) fn decode(text: &str) -> (bytes: Result<Vec<u8>, base64::DecodeError>)
    ensures
        bytes is Err <==> b64_decoded(text@) is None,
        bytes matches Ok(b) ==> b64_decoded(text@) == Some(b@),
{
    base64::Engine::decode(&base64::engine::general_purpose::URL_SAFE_NO_PAD, text.as_bytes())
}

} // verus!
