use base64::engine::general_purpose::STANDARD;
use base64::Engine;
use kmao_decrypt::decode;
use kmao_decrypt::DecryptError;

fn round_trip(bytes: &[u8]) {
    let text = STANDARD.encode(bytes);
    let back = decode(&text).expect("a canonical encoding must decode");
    assert_eq!(back, bytes.to_vec());
}

#[test]
fn decode_inverts_encode() {
    round_trip(b"");
    round_trip(b"a");
    round_trip(b"ab");
    round_trip(b"abc");
    round_trip(b"hello, chapter text");
    round_trip(&[0u8, 255, 16, 32, 7, 1, 2, 3]);
    let long: Vec<u8> = (0..=255u8).collect();
    round_trip(&long);
}

#[test]
fn decode_known_value() {
    assert_eq!(decode("aGVsbG8=").unwrap(), b"hello".to_vec());
    assert_eq!(decode("").unwrap(), Vec::<u8>::new());
}

#[test]
fn decode_rejects_foreign_characters() {
    assert_eq!(decode("@@@@"), Err(DecryptError::MalformedEncoding));
    assert_eq!(decode("aGVsbG8!"), Err(DecryptError::MalformedEncoding));
}

#[test]
fn decode_rejects_bad_padding() {
    assert_eq!(decode("aGVsbG8"), Err(DecryptError::MalformedEncoding));
    assert_eq!(decode("a"), Err(DecryptError::MalformedEncoding));
}
