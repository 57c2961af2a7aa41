//! Recovery of readable book text from a reader application's chapter cache.
//!
//! Each chapter is cached as a base64-encoded, AES-128-CBC-encrypted blob.
//! The library decodes and decrypts the blobs, strips a fixed 16-byte
//! header from each plaintext, restores chapter order by sequence index,
//! and renders the ordered chapters as one plain-text document.

pub mod catalog;
pub mod chapter;
pub mod cipher;
pub mod errors;
pub mod pipeline;
pub mod sorting;
pub mod transcode;
pub mod writer;

pub use catalog::filter_entry_names;
pub use catalog::is_temp_entry;
pub use catalog::select_downloaded_books;
pub use chapter::decrypt_blob;
pub use chapter::decrypt_chapter;
pub use chapter::strip_header;
pub use chapter::Book;
pub use chapter::Chapter;
pub use chapter::CipherContext;
pub use chapter::DecryptedChapter;
pub use cipher::decrypt_aes_cbc;
pub use errors::DecryptError;
pub use pipeline::assemble;
pub use pipeline::decrypt_entry;
pub use transcode::decode;
pub use writer::double_line_breaks;
pub use writer::render_book;
pub use writer::render_chapters;
