use vstd::prelude::*;

use crate::errors::DecryptError;

verus! {

/// The text that the standard base64 alphabet, with canonical padding,
/// assigns to a byte sequence.
pub uninterp spec fn base64_encoding(b: Seq<u8>) -> Seq<char>;

/// What decoding a text yields: the byte sequence the text canonically
/// encodes, or nothing when the text is not valid standard base64.
pub uninterp spec fn base64_decoding(s: Seq<char>) -> Option<Seq<u8>>;

/// Relies on base64's `Engine::decode` with the `STANDARD` engine:
/// standard alphabet, canonical padding required, trailing bits refused.
/// Under that configuration decoding accepts exactly the canonical
/// encodings and inverts `Engine::encode`; no two byte sequences share
/// an encoding.
#[verifier::external_body]
fn base64_decode_call(text: &str) -> (r: Option<Vec<u8>>)
    ensures
        match r {
            Some(b) => base64_decoding(text@) == Some(b@) && text@ == base64_encoding(b@)
                && (forall|x: Seq<u8>| text@ == base64_encoding(x) ==> x == b@),
            None => base64_decoding(text@) is None && (forall|x: Seq<u8>|
                text@ != base64_encoding(x)),
        },
{
    match base64::Engine::decode(&base64::engine::general_purpose::STANDARD, text) {
        Ok(b) => Some(b),
        Err(_) => None,
    }
}

/// Decodes standard base64 text into the bytes it encodes.
///
/// Succeeds exactly on canonical encodings: whenever `text` is the
/// standard encoding of some byte sequence `b`, the result is `Ok(b)`;
/// any other text is rejected as `MalformedEncoding`.
pub fn decode(text: &str) -> (r: Result<Vec<u8>, DecryptError>)
    ensures
        match r {
            Ok(b) => base64_decoding(text@) == Some(b@) && text@ == base64_encoding(b@)
                && (forall|x: Seq<u8>| text@ == base64_encoding(x) ==> x == b@),
            Err(e) => e == DecryptError::MalformedEncoding && base64_decoding(text@) is None
                && (forall|x: Seq<u8>| text@ != base64_encoding(x)),
        },
{
    match base64_decode_call(text) {
        Some(b) => Ok(b),
        None => Err(DecryptError::MalformedEncoding),
    }
}

} // verus!
