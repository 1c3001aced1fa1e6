use inkwell::clippings::parse_clippings;
use inkwell::markdown::generate_markdown;
use inkwell::parser::{extract_page_location, Book, Entry, EntryError, Source};

fn block(title_line: &str, meta: &str, text: &str) -> String {
    format!("{}\n{}\n\n{}\n==========\n", title_line, meta, text)
}

fn texts(entries: &[Entry]) -> Vec<String> {
    entries
        .iter()
        .map(|e| match e {
            Entry::Highlight(h) => h.text.clone(),
            Entry::Note(n) => format!("note:{}", n.text),
            Entry::Bookmark(b) => format!("bookmark@{:?}", b.location),
        })
        .collect()
}

#[test]
fn entries_keep_file_order_within_their_section() {
    let mut content = String::new();
    content.push_str(&block("B (X)", "- Your Highlight on Page 3 | Ch | Added on now", "third page"));
    content.push_str(&block("C (Y)", "- Your Highlight on Page 1 | Ch | Added on now", "other book"));
    content.push_str(&block("B (X)", "- Your Highlight on Page 1 | Ch | Added on now", "first page"));
    content.push_str(&block("B (X)", "- Your Note on Page 2 | Ch | Added on now", "a note"));
    let parsed = parse_clippings(&content);
    assert_eq!(
        texts(&parsed.books[0].sections[0].entries),
        vec!["third page", "first page", "note:a note"]
    );
}

#[test]
fn only_earlier_duplicates_of_the_same_book_drop_a_clipping() {
    let mut content = String::new();
    content.push_str(&block("B (X)", "- Your Highlight on Page 1 | Added on now", "same"));
    content.push_str(&block("C (X)", "- Your Highlight on Page 1 | Added on now", "same"));
    content.push_str(&block("B (Y)", "- Your Highlight on Page 1 | Added on now", "same"));
    content.push_str(&block("B (X)", "- Your Highlight on Page 5 | Added on now", "same"));
    content.push_str(&block("B (X)", "- Your Bookmark at Location 7 | Added on now", ""));
    content.push_str(&block("B (X)", "- Your Bookmark at Location 7 | Added on now", ""));
    content.push_str(&block("B (X)", "- Your Bookmark at Location 8 | Added on now", ""));
    let parsed = parse_clippings(&content);
    assert_eq!(parsed.books.len(), 3);
    assert_eq!(
        texts(&parsed.books[0].sections[0].entries),
        vec!["same", "bookmark@Some(7)", "bookmark@Some(8)"]
    );
    assert_eq!(texts(&parsed.books[1].sections[0].entries), vec!["same"]);
    assert_eq!(texts(&parsed.books[2].sections[0].entries), vec!["same"]);
}

#[test]
fn clippings_entries_are_yellow_without_subheading_and_trimmed() {
    let content = block("B (X)", "- Your Highlight on Page 1 | Added on now", "\n  \nkept\n\nlines\n \n");
    let parsed = parse_clippings(&content);
    match &parsed.books[0].sections[0].entries[0] {
        Entry::Highlight(h) => {
            assert_eq!(h.color, "yellow");
            assert_eq!(h.subheading, None);
            assert_eq!(h.text, "kept\n\nlines");
        }
        other => panic!("unexpected {other:?}"),
    }
}

#[test]
fn warnings_name_each_skipped_block_in_order() {
    let mut content = String::new();
    content.push_str("Title only\n==========\n");
    content.push_str(&block("B (X)", "- Your Highlight on Page 1 | Added on now", "fine"));
    content.push_str("  \n==========\n");
    content.push_str(&block("B (X)", "- Your Note on Page 1 | Added on now", " "));
    content.push_str(&block("B (X)", "not metadata", "x"));
    let parsed = parse_clippings(&content);
    assert_eq!(
        parsed.warnings,
        vec![
            "Skipped clipping 1: \"Title only\" has no metadata line".to_string(),
            "Skipped clipping 4: empty note in \"B\"".to_string(),
            "Skipped clipping 5: \"not metadata\" is not a metadata line".to_string(),
        ]
    );
}

#[test]
fn byte_order_mark_changes_nothing() {
    let mut content = String::new();
    content.push_str(&block("B (X)", "- Your Highlight on Page 1 | Added on now", "one"));
    content.push_str("broken\n==========\n");
    let plain = parse_clippings(&content);
    let marked = parse_clippings(&format!("\u{feff}{}", content));
    assert_eq!(format!("{:?}", plain.books), format!("{:?}", marked.books));
    assert_eq!(plain.warnings, marked.warnings);
    assert_eq!(marked.books[0].title, "B");
}

#[test]
fn page_location_fails_only_on_an_unreadable_location() {
    assert!(matches!(
        extract_page_location("Location abc"),
        Err(EntryError::LocationUnreadable)
    ));
    assert_eq!(extract_page_location("Page 7").unwrap(), (Some(7), None));
    assert_eq!(extract_page_location("Page abc").unwrap(), (None, None));
    assert_eq!(
        extract_page_location("Page 99999999999 · Location 4").unwrap(),
        (None, Some(4))
    );
}

#[test]
fn generated_note_carries_a_timestamp() {
    let book = Book {
        title: "T".to_string(),
        author: "A".to_string(),
        citation: String::new(),
        source: Source::KindleExport,
        sections: Vec::new(),
    };
    let markdown = generate_markdown(&book, false);
    let line = markdown
        .lines()
        .find(|l| l.starts_with("created: "))
        .expect("created line");
    let stamp = line.trim_start_matches("created: ").trim_matches('"');
    let chars: Vec<char> = stamp.chars().collect();
    assert!(chars.len() >= 19);
    let tail = &chars[chars.len() - 15..];
    assert_eq!(tail[0], '-');
    assert_eq!(tail[3], '-');
    assert_eq!(tail[6], ' ');
    assert_eq!(tail[9], ':');
    assert_eq!(tail[12], ':');
    for i in [1, 2, 4, 5, 7, 8, 10, 11, 13, 14] {
        assert!(tail[i].is_ascii_digit());
    }
}
