use base64::engine::general_purpose::STANDARD;
use base64::Engine;
use kmao_decrypt::assemble;
use kmao_decrypt::render_book;
use kmao_decrypt::Book;
use kmao_decrypt::Chapter;
use kmao_decrypt::CipherContext;
use kmao_decrypt::DecryptError;

const KEY: &[u8] = b"242ccb8230d709e1";
const IV: &[u8] = b"6443338373714701";

fn make_blob(body: &str) -> String {
    let mut plain = b"0123456789ABCDEF".to_vec();
    plain.extend_from_slice(body.as_bytes());
    let cipher = openssl::symm::Cipher::aes_128_cbc();
    let ciphertext =
        openssl::symm::encrypt(cipher, KEY, Some(IV), &plain).expect("reference encryption");
    STANDARD.encode(ciphertext)
}

fn descriptor(id: &str, name: &str, index: i32) -> Chapter {
    Chapter {
        book_id: "book-1".to_string(),
        chapter_id: id.to_string(),
        chapter_name: name.to_string(),
        sequence_index: index,
    }
}

fn context() -> CipherContext {
    match CipherContext::new(KEY.to_vec(), IV.to_vec()) {
        Ok(c) => c,
        Err(_) => panic!("a 16-byte key and iv must be accepted"),
    }
}

#[test]
fn shuffled_chapters_come_back_in_index_order() {
    let ctx = context();
    let items = vec![
        (descriptor("c", "Three", 3), make_blob("third body")),
        (descriptor("a", "One", 1), make_blob("first body")),
        (descriptor("d", "Four", 4), make_blob("fourth body")),
        (descriptor("b", "Two", 2), make_blob("second body")),
        (descriptor("e", "Zero", 0), make_blob("zeroth body")),
    ];
    let out = assemble(items, &ctx).unwrap();
    let indices: Vec<i32> = out.iter().map(|c| c.sequence_index).collect();
    assert_eq!(indices, vec![0, 1, 2, 3, 4]);
    let bodies: Vec<&str> = out.iter().map(|c| c.body.as_str()).collect();
    assert_eq!(
        bodies,
        vec!["zeroth body", "first body", "second body", "third body", "fourth body"]
    );
}

#[test]
fn equal_indices_keep_their_arrival_order() {
    let ctx = context();
    let items = vec![
        (descriptor("x", "Late", 7), make_blob("late body")),
        (descriptor("y", "First twin", 5), make_blob("first twin body")),
        (descriptor("z", "Second twin", 5), make_blob("second twin body")),
        (descriptor("w", "Early", 1), make_blob("early body")),
    ];
    let out = assemble(items, &ctx).unwrap();
    let names: Vec<&str> = out.iter().map(|c| c.chapter_name.as_str()).collect();
    assert_eq!(names, vec!["Early", "First twin", "Second twin", "Late"]);
}

#[test]
fn no_chapters_is_its_own_failure() {
    let ctx = context();
    assert!(matches!(assemble(Vec::new(), &ctx), Err(DecryptError::NoChaptersFound)));
}

#[test]
fn one_bad_blob_fails_the_run() {
    let ctx = context();
    let items = vec![
        (descriptor("a", "One", 1), make_blob("good body")),
        (descriptor("b", "Two", 2), "!!! not base64 !!!".to_string()),
    ];
    assert!(matches!(assemble(items, &ctx), Err(DecryptError::MalformedEncoding)));
}

#[test]
fn assembled_artifact_reads_in_index_order() {
    let ctx = context();
    let items = vec![
        (descriptor("a", "Chapter C", 2), make_blob("body c")),
        (descriptor("b", "Chapter A", 0), make_blob("body a")),
        (descriptor("c", "Chapter B", 1), make_blob("body b")),
    ];
    let out = assemble(items, &ctx).unwrap();
    let book = Book {
        book_id: "book-1".to_string(),
        book_name: "A Book".to_string(),
        book_author: "An Author".to_string(),
    };
    let text = render_book(&book, &out);
    let pos_a = text.find("Chapter A").unwrap();
    let pos_b = text.find("Chapter B").unwrap();
    let pos_c = text.find("Chapter C").unwrap();
    assert!(pos_a < pos_b && pos_b < pos_c);
    assert!(text.starts_with("A Book\nAn Author\n\n"));
}
