use kmao_decrypt::filter_entry_names;
use kmao_decrypt::is_temp_entry;
use kmao_decrypt::select_downloaded_books;
use kmao_decrypt::Book;

fn book(id: &str, name: &str) -> Book {
    Book { book_id: id.to_string(), book_name: name.to_string(), book_author: "A".to_string() }
}

#[test]
fn hidden_entries_are_dropped() {
    let names = vec![
        ".DS_Store".to_string(),
        "1648011".to_string(),
        ".hidden".to_string(),
        "2222".to_string(),
    ];
    assert_eq!(filter_entry_names(names), vec!["1648011".to_string(), "2222".to_string()]);
}

#[test]
fn catalogue_order_is_kept_and_strays_ignored() {
    let books = vec![book("1", "First"), book("2", "Second"), book("3", "Third")];
    let downloaded = vec!["3".to_string(), "1".to_string(), "999".to_string()];
    let picked = select_downloaded_books(books, &downloaded);
    let ids: Vec<&str> = picked.iter().map(|b| b.book_id.as_str()).collect();
    assert_eq!(ids, vec!["1", "3"]);
}

#[test]
fn nothing_downloaded_selects_nothing() {
    let books = vec![book("1", "First")];
    let picked = select_downloaded_books(books, &Vec::new());
    assert!(picked.is_empty());
}

#[test]
fn temporary_entries_are_recognised() {
    assert!(is_temp_entry("chapter-tmp.txt"));
    assert!(is_temp_entry("-tmp.txt"));
    assert!(!is_temp_entry("chapter.txt"));
    assert!(!is_temp_entry("tmp.txt"));
    assert!(!is_temp_entry(""));
}
