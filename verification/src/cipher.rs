use vstd::prelude::*;

use crate::errors::DecryptError;

verus! {

/// The plaintext that AES-128-CBC decryption with standard block-padding
/// removal assigns to a ciphertext under a 16-byte key and initialization
/// vector, or nothing when the ciphertext length is not a positive
/// multiple of 16 or the decrypted trailing bytes are not a valid padding
/// pattern.
pub uninterp spec fn aes128_cbc_plaintext(data: Seq<u8>, key: Seq<u8>, iv: Seq<u8>) -> Option<
    Seq<u8>,
>;

/// Relies on openssl's `symm::decrypt` with `Cipher::aes_128_cbc`:
/// one-shot CBC decryption that validates and strips PKCS padding, with
/// a padding of 1 to 16 bytes removed on success. The result is a pure
/// function of (data, key, iv). On inputs shorter than 2^31 bytes the
/// call stays below openssl's single-call length limit, and failures
/// are reported as errors, never panics.
#[verifier::external_body]
fn aes128_cbc_decrypt_call(data: &Vec<u8>, key: &Vec<u8>, iv: &Vec<u8>) -> (r: Option<Vec<u8>>)
    requires
        key@.len() == 16,
        iv@.len() == 16,
        data@.len() < 0x8000_0000,
    ensures
        match r {
            Some(p) => aes128_cbc_plaintext(data@, key@, iv@) == Some(p@) && data@.len() - 16
                <= p@.len() <= data@.len() - 1,
            None => aes128_cbc_plaintext(data@, key@, iv@) is None,
        },
{
    let cipher = openssl::symm::Cipher::aes_128_cbc();
    match openssl::symm::decrypt(cipher, key, Some(iv), data) {
        Ok(p) => Some(p),
        Err(_) => None,
    }
}

/// What decrypting a ciphertext with the given parameters reports: the
/// plaintext, `CipherInitError` for a key or initialization vector of the
/// wrong length, and `PaddingError` when no valid plaintext exists. A
/// ciphertext of 2^31 bytes or more exceeds what one cipher call can
/// take and is rejected as `PaddingError` as well, without a call.
pub open spec fn cipher_decrypt_result(data: Seq<u8>, key: Seq<u8>, iv: Seq<u8>) -> Result<
    Seq<u8>,
    DecryptError,
> {
    if key.len() != 16 || iv.len() != 16 {
        Err(DecryptError::CipherInitError)
    } else if data.len() >= 0x8000_0000 {
        Err(DecryptError::PaddingError)
    } else {
        match aes128_cbc_plaintext(data, key, iv) {
            Some(p) => Ok(p),
            None => Err(DecryptError::PaddingError),
        }
    }
}

/// AES-128-CBC decryption with standard block-padding removal.
///
/// Rejects a key or initialization vector that is not exactly 16 bytes
/// with `CipherInitError`; otherwise returns the plaintext that the
/// cipher assigns to the data, or `PaddingError` when the decrypted
/// trailing bytes do not form a valid padding pattern (a wrong key or
/// initialization vector, or corrupted data, manifests this way). On
/// success between 1 and 16 padding bytes were removed, so the
/// plaintext is shorter than the ciphertext by that much. A ciphertext
/// of 2^31 bytes or more exceeds what one cipher call can take and is
/// rejected as `PaddingError` without reaching the cipher.
pub fn decrypt_aes_cbc(data: &Vec<u8>, key: &Vec<u8>, iv: &Vec<u8>) -> (r: Result<
    Vec<u8>,
    DecryptError,
>)
    ensures
        match (r, cipher_decrypt_result(data@, key@, iv@)) {
            (Ok(p), Ok(sp)) => p@ == sp,
            (Err(e), Err(se)) => e == se,
            _ => false,
        },
        r matches Ok(p) ==> data@.len() - 16 <= p@.len() <= data@.len() - 1,
{
    if key.len() != 16 || iv.len() != 16 {
        return Err(DecryptError::CipherInitError);
    }
    if data.len() >= 0x8000_0000 {
        return Err(DecryptError::PaddingError);
    }
    match aes128_cbc_decrypt_call(data, key, iv) {
        Some(p) => Ok(p),
        None => Err(DecryptError::PaddingError),
    }
}

} // verus!
