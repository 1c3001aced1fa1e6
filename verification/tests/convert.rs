use inkwell::convert::{is_clippings_file, Destination};
use inkwell::parser::{Book, Source};

#[test]
fn txt_extension_selects_clippings_parser_case_insensitively() {
    assert!(is_clippings_file("/x/My Clippings.txt"));
    assert!(is_clippings_file("/x/My Clippings.TXT"));
    assert!(!is_clippings_file("/x/Book - Notebook.html"));
    assert!(!is_clippings_file("/x/noextension"));
}

#[test]
fn folder_destination_names_file_from_author_and_title() {
    let book = Book {
        title: "Title: Sub/Part?".to_string(),
        author: "An Author".to_string(),
        citation: String::new(),
        source: Source::CrossinkClippings,
        sections: vec![],
    };

    let path = Destination::Folder("/vault".to_string()).path_for(&book);

    assert_eq!(path, "/vault/An Author - Title_ Sub_Part_.md");
}
