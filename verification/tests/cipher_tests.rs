use base64::engine::general_purpose::STANDARD;
use base64::Engine;
use kmao_decrypt::decrypt_aes_cbc;
use kmao_decrypt::decrypt_chapter;
use kmao_decrypt::CipherContext;
use kmao_decrypt::DecryptError;

const KEY: &[u8] = b"242ccb8230d709e1";
const IV: &[u8] = b"6443338373714701";

fn encrypt(plain: &[u8], key: &[u8], iv: &[u8]) -> Vec<u8> {
    let cipher = openssl::symm::Cipher::aes_128_cbc();
    openssl::symm::encrypt(cipher, key, Some(iv), plain).expect("reference encryption")
}

fn context() -> CipherContext {
    match CipherContext::new(KEY.to_vec(), IV.to_vec()) {
        Ok(c) => c,
        Err(_) => panic!("a 16-byte key and iv must be accepted"),
    }
}

#[test]
fn decrypt_inverts_reference_encryption() {
    let plain = b"The quick brown fox jumps over the lazy dog";
    let ciphertext = encrypt(plain, KEY, IV);
    let out = decrypt_aes_cbc(&ciphertext, &KEY.to_vec(), &IV.to_vec()).unwrap();
    assert_eq!(out, plain.to_vec());
}

#[test]
fn decrypt_inverts_reference_encryption_block_sized() {
    let plain = b"0123456789ABCDEF0123456789ABCDEF";
    let ciphertext = encrypt(plain, KEY, IV);
    let out = decrypt_aes_cbc(&ciphertext, &KEY.to_vec(), &IV.to_vec()).unwrap();
    assert_eq!(out, plain.to_vec());
}

#[test]
fn short_key_is_an_init_error() {
    let data = vec![0u8; 16];
    assert_eq!(
        decrypt_aes_cbc(&data, &b"short".to_vec(), &IV.to_vec()),
        Err(DecryptError::CipherInitError)
    );
    assert_eq!(
        decrypt_aes_cbc(&data, &KEY.to_vec(), &b"x".to_vec()),
        Err(DecryptError::CipherInitError)
    );
}

#[test]
fn context_rejects_bad_lengths() {
    assert!(matches!(
        CipherContext::new(b"tooshort".to_vec(), IV.to_vec()),
        Err(DecryptError::CipherInitError)
    ));
    assert!(matches!(
        CipherContext::new(KEY.to_vec(), b"far too long for an iv".to_vec()),
        Err(DecryptError::CipherInitError)
    ));
}

#[test]
fn corrupted_ciphertext_never_yields_the_original() {
    let plain = b"0123456789ABCDEFsome chapter body that spans blocks";
    let mut ciphertext = encrypt(plain, KEY, IV);
    let mid = ciphertext.len() / 2;
    ciphertext[mid] ^= 0x40;
    match decrypt_aes_cbc(&ciphertext, &KEY.to_vec(), &IV.to_vec()) {
        Err(e) => assert_eq!(e, DecryptError::PaddingError),
        Ok(p) => assert_ne!(p, plain.to_vec()),
    }
}

#[test]
fn chapter_scenario_hello_world() {
    let plain = b"0123456789ABCDEFHello, world!";
    let blob = STANDARD.encode(encrypt(plain, KEY, IV));
    let ctx = context();
    assert_eq!(decrypt_chapter(&blob, &ctx).unwrap(), "Hello, world!".to_string());
}

#[test]
fn chapter_blob_with_foreign_characters_is_malformed() {
    let ctx = context();
    assert_eq!(decrypt_chapter("not base64 at all!", &ctx), Err(DecryptError::MalformedEncoding));
}

#[test]
fn chapter_plaintext_shorter_than_header_is_rejected() {
    let blob = STANDARD.encode(encrypt(b"tiny", KEY, IV));
    let ctx = context();
    assert_eq!(decrypt_chapter(&blob, &ctx), Err(DecryptError::PaddingError));
}

#[test]
fn chapter_body_must_be_text() {
    let mut plain = b"0123456789ABCDEF".to_vec();
    plain.extend_from_slice(&[0xff, 0xfe, 0x00, 0x41]);
    let blob = STANDARD.encode(encrypt(&plain, KEY, IV));
    let ctx = context();
    assert_eq!(decrypt_chapter(&blob, &ctx), Err(DecryptError::EncodingError));
}
