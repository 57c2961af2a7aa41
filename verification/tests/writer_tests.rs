use kmao_decrypt::double_line_breaks;
use kmao_decrypt::render_book;
use kmao_decrypt::render_chapters;
use kmao_decrypt::Book;
use kmao_decrypt::DecryptedChapter;

fn sample_book() -> Book {
    Book {
        book_id: "9".to_string(),
        book_name: "Title".to_string(),
        book_author: "Writer".to_string(),
    }
}

#[test]
fn line_breaks_are_doubled() {
    assert_eq!(double_line_breaks("x\ny\n"), "x\n\ny\n\n".to_string());
    assert_eq!(double_line_breaks("no breaks"), "no breaks".to_string());
    assert_eq!(double_line_breaks(""), "".to_string());
    assert_eq!(double_line_breaks("\n"), "\n\n".to_string());
}

#[test]
fn artifact_layout_is_exact() {
    let chapters = vec![
        DecryptedChapter {
            sequence_index: 0,
            chapter_name: "One".to_string(),
            body: "a\nb".to_string(),
        },
        DecryptedChapter {
            sequence_index: 1,
            chapter_name: "Two".to_string(),
            body: "c".to_string(),
        },
    ];
    let text = render_book(&sample_book(), &chapters);
    assert_eq!(text, "Title\nWriter\n\nOne\n\na\n\nb\n\nTwo\n\nc\n\n".to_string());
}

#[test]
fn chapter_blocks_alone_have_no_front_matter() {
    let chapters = vec![DecryptedChapter {
        sequence_index: 0,
        chapter_name: "One".to_string(),
        body: "a\nb".to_string(),
    }];
    assert_eq!(render_chapters(&chapters), "One\n\na\n\nb\n\n".to_string());
}

#[test]
fn rendering_is_idempotent_in_content() {
    let chapters = vec![DecryptedChapter {
        sequence_index: 4,
        chapter_name: "Only".to_string(),
        body: "line one\nline two".to_string(),
    }];
    let first = render_book(&sample_book(), &chapters);
    let second = render_book(&sample_book(), &chapters);
    assert_eq!(first, second);
}

#[test]
fn empty_chapter_list_renders_front_matter_only() {
    let text = render_book(&sample_book(), &Vec::new());
    assert_eq!(text, "Title\nWriter\n\n".to_string());
}
