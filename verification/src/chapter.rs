use vstd::prelude::*;

use crate::cipher::cipher_decrypt_result;
use crate::cipher::decrypt_aes_cbc;
use crate::errors::DecryptError;
use crate::transcode::base64_decoding;
use crate::transcode::decode;

verus! {

/// The number of leading plaintext bytes that hold the fixed non-content
/// header and are discarded before the body is read as text.
pub const HEADER_LEN: usize = 16;

/// One chapter's metadata row as the metadata store hands it out.
#[derive(Clone, Debug)]
pub struct Chapter {
    pub book_id: String,
    pub chapter_id: String,
    pub chapter_name: String,
    pub sequence_index: i32,
}

/// One book's metadata row.
#[derive(Clone, Debug)]
pub struct Book {
    pub book_id: String,
    pub book_name: String,
    pub book_author: String,
}

/// One decrypted chapter: its order key, display name and body text.
#[derive(Debug)]
pub struct DecryptedChapter {
    pub sequence_index: i32,
    pub chapter_name: String,
    pub body: String,
}

/// The mathematical content of a decrypted chapter.
pub ghost struct ChapterView {
    pub sequence_index: i32,
    pub chapter_name: Seq<char>,
    pub body: Seq<char>,
}

impl View for DecryptedChapter {
    type V = ChapterView;

    open spec fn view(&self) -> ChapterView {
        ChapterView {
            sequence_index: self.sequence_index,
            chapter_name: self.chapter_name@,
            body: self.body@,
        }
    }
}

/// The shared, immutable cipher parameters of one run: a 16-byte key and
/// a 16-byte initialization vector.
pub struct CipherContext {
    pub key: Vec<u8>,
    pub iv: Vec<u8>,
}

impl CipherContext {
    /// Both parameters have the exact length the cipher demands.
    pub open spec fn wf(&self) -> bool {
        self.key@.len() == 16 && self.iv@.len() == 16
    }

    /// Builds the run-wide cipher parameters, rejecting a key or
    /// initialization vector that is not exactly 16 bytes.
    pub fn new(key: Vec<u8>, iv: Vec<u8>) -> (r: Result<CipherContext, DecryptError>)
        ensures
            match r {
                Ok(c) => c.wf() && c.key@ == key@ && c.iv@ == iv@,
                Err(e) => e == DecryptError::CipherInitError && (key@.len() != 16 || iv@.len()
                    != 16),
            },
            key@.len() == 16 && iv@.len() == 16 ==> r is Ok,
    {
        if key.len() != 16 || iv.len() != 16 {
            return Err(DecryptError::CipherInitError);
        }
        Ok(CipherContext { key, iv })
    }
}

/// The characters that UTF-8 decoding reads from a byte sequence, or
/// nothing when the bytes are not valid UTF-8.
pub uninterp spec fn utf8_decoding(b: Seq<u8>) -> Option<Seq<char>>;

/// Relies on std's `String::from_utf8`: the characters read depend on
/// the bytes alone, and invalid UTF-8 is reported as an error, never a
/// panic.
#[verifier::external_body]
fn utf8_decode_call(b: Vec<u8>) -> (r: Option<String>)
    ensures
        match r {
            Some(s) => utf8_decoding(b@) == Some(s@),
            None => utf8_decoding(b@) is None,
        },
{
    match String::from_utf8(b) {
        Ok(s) => Some(s),
        Err(_) => None,
    }
}

/// What decoding and decrypting one blob's text yields: the full
/// plaintext, header included, or the first error on the way.
pub open spec fn blob_plaintext(text: Seq<char>, key: Seq<u8>, iv: Seq<u8>) -> Result<
    Seq<u8>,
    DecryptError,
> {
    match base64_decoding(text) {
        Some(c) => cipher_decrypt_result(c, key, iv),
        None => Err(DecryptError::MalformedEncoding),
    }
}

/// Decodes a blob's base64 text and decrypts the resulting ciphertext,
/// returning the full plaintext with the leading header still in place.
pub fn decrypt_blob(text: &str, key: &Vec<u8>, iv: &Vec<u8>) -> (r: Result<Vec<u8>, DecryptError>)
    ensures
        match (r, blob_plaintext(text@, key@, iv@)) {
            (Ok(p), Ok(sp)) => p@ == sp,
            (Err(e), Err(se)) => e == se,
            _ => false,
        },
{
    let ciphertext = match decode(text) {
        Ok(c) => c,
        Err(e) => {
            return Err(e);
        },
    };
    decrypt_aes_cbc(&ciphertext, key, iv)
}

/// The bytes past the fixed 16-byte header of a full plaintext. A
/// plaintext too short to hold the header counts as a padding failure:
/// no well-formed blob decrypts to one.
pub open spec fn stripped(p: Seq<u8>) -> Result<Seq<u8>, DecryptError> {
    if p.len() < 16 {
        Err(DecryptError::PaddingError)
    } else {
        Ok(p.skip(16))
    }
}

/// Strips the fixed 16-byte non-content header from a full plaintext.
pub fn strip_header(p: &Vec<u8>) -> (r: Result<Vec<u8>, DecryptError>)
    ensures
        match (r, stripped(p@)) {
            (Ok(b), Ok(sb)) => b@ == sb,
            (Err(e), Err(se)) => e == se,
            _ => false,
        },
{
    if p.len() < HEADER_LEN {
        return Err(DecryptError::PaddingError);
    }
    let body = vstd::slice::slice_to_vec(
        vstd::slice::slice_subrange(p.as_slice(), HEADER_LEN, p.len()),
    );
    assert(body@ == p@.skip(16));
    Ok(body)
}

/// The body text of one chapter blob: the plaintext past the fixed
/// 16-byte header, read as UTF-8; or the first error on the way. A
/// body that is not valid UTF-8 counts as an encoding failure.
pub open spec fn chapter_body(text: Seq<char>, key: Seq<u8>, iv: Seq<u8>) -> Result<
    Seq<char>,
    DecryptError,
> {
    match blob_plaintext(text, key, iv) {
        Err(e) => Err(e),
        Ok(p) => match stripped(p) {
            Err(e) => Err(e),
            Ok(b) => match utf8_decoding(b) {
                Some(t) => Ok(t),
                None => Err(DecryptError::EncodingError),
            },
        },
    }
}

/// Decodes, decrypts and strips one chapter blob, yielding its body
/// text.
pub fn decrypt_chapter(text: &str, ctx: &CipherContext) -> (r: Result<String, DecryptError>)
    requires
        ctx.wf(),
    ensures
        match (r, chapter_body(text@, ctx.key@, ctx.iv@)) {
            (Ok(s), Ok(t)) => s@ == t,
            (Err(e), Err(se)) => e == se,
            _ => false,
        },
{
    let plaintext = match decrypt_blob(text, &ctx.key, &ctx.iv) {
        Ok(p) => p,
        Err(e) => {
            return Err(e);
        },
    };
    let body_bytes = match strip_header(&plaintext) {
        Ok(b) => b,
        Err(e) => {
            return Err(e);
        },
    };
    match utf8_decode_call(body_bytes) {
        Some(s) => Ok(s),
        None => Err(DecryptError::EncodingError),
    }
}

} // verus!
