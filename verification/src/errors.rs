use vstd::prelude::*;

verus! {

/// The failures a pipeline run can report: one variant for each way a
/// single chapter, or the run as a whole, can go wrong.
#[derive(Clone, Copy, Debug, PartialEq, Eq, Structural)]
pub enum DecryptError {
    /// A chapter blob or the metadata store could not be read.
    StorageReadError,
    /// The blob text is not valid standard base64.
    MalformedEncoding,
    /// The key or the initialization vector is not 16 bytes long.
    CipherInitError,
    /// Decryption did not end in a valid block-padding pattern, or the
    /// plaintext is too short to hold the fixed non-content header.
    PaddingError,
    /// The decrypted chapter body is not valid UTF-8 text.
    EncodingError,
    /// The metadata store returned no chapters for the requested book.
    NoChaptersFound,
    /// The output artifact could not be created or written.
    OutputWriteError,
}

} // verus!
