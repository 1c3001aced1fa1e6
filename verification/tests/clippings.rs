use inkwell::clippings::parse_clippings;
use inkwell::parser::{Entry, Highlight, Source};

const CROSSINK: &str = "\
A Philosophy of Software Design, 2nd Edition (John K. Ousterhout)
- Your Highlight on Page 1 | 1: Introduction | Added on Sunday, September 6, 2026, 10:52 AM

Writing computer software is one of the purest creative activities in the history of the human race.
==========
";

const KINDLE: &str = "\u{feff}The Pragmatic Programmer (David Thomas; Andrew Hunt)\r
- Your Highlight on page 12 | Location 123-125 | Added on Monday, March 2, 2026 9:15:02 AM\r
\r
Care about your craft. Why spend your life developing software unless you care about doing it well?\r
==========\r
The Pragmatic Programmer (David Thomas; Andrew Hunt)\r
- Your Note on page 12 | Location 125 | Added on Monday, March 2, 2026 9:16:40 AM\r
\r
This is the whole book in one line.\r
==========\r
The Pragmatic Programmer (David Thomas; Andrew Hunt)\r
- Your Bookmark on page 20 | Location 200 | Added on Monday, March 2, 2026 9:20:11 AM\r
\r
\r
==========\r
The Pragmatic Programmer (David Thomas; Andrew Hunt)\r
- Your Highlight at location 301 | Added on Tuesday, March 3, 2026 8:01:55 PM\r
\r
Don't live with broken windows.\r
==========\r
Rust in Action (2nd ed.) (Tim McNamara)\r
- Your Highlight at location 55 | Added on Wednesday, March 4, 2026 7:45:00 AM\r
\r
Rust is a language that empowers everyone to build reliable software.\r
==========\r
";

fn highlight(entry: &Entry) -> &Highlight {
    match entry {
        Entry::Highlight(h) => h,
        other => panic!("expected highlight, got {other:?}"),
    }
}

#[test]
fn parses_crossink_fixture_into_one_book_with_chapter_section() {
    let parsed = parse_clippings(CROSSINK);

    assert!(parsed.warnings.is_empty(), "{:?}", parsed.warnings);
    assert_eq!(parsed.books.len(), 1);
    let book = &parsed.books[0];
    assert_eq!(book.title, "A Philosophy of Software Design, 2nd Edition");
    assert_eq!(book.author, "John K. Ousterhout");
    assert_eq!(book.citation, "");
    assert_eq!(book.source, Source::CrossinkClippings);
    assert_eq!(book.sections.len(), 1);
    assert_eq!(book.sections[0].heading, "1: Introduction");
    assert_eq!(book.sections[0].entries.len(), 1);

    let h = highlight(&book.sections[0].entries[0]);
    assert_eq!(h.page, Some(1));
    assert_eq!(h.location, None);
    assert_eq!(h.subheading, None);
    assert_eq!(h.color, "yellow");
    assert_eq!(
        h.text,
        "Writing computer software is one of the purest creative activities in the history of the human race."
    );
}

#[test]
fn parses_kindle_fixture_with_bom_crlf_notes_and_bookmarks() {
    let parsed = parse_clippings(KINDLE);

    assert!(parsed.warnings.is_empty(), "{:?}", parsed.warnings);
    assert_eq!(parsed.books.len(), 2);

    let pragmatic = &parsed.books[0];
    assert_eq!(pragmatic.title, "The Pragmatic Programmer");
    assert_eq!(pragmatic.author, "David Thomas; Andrew Hunt");
    assert_eq!(pragmatic.source, Source::KindleClippings);
    assert_eq!(pragmatic.sections.len(), 1);
    assert_eq!(pragmatic.sections[0].heading, "Highlights");
    let entries = &pragmatic.sections[0].entries;
    assert_eq!(entries.len(), 4);

    let h = highlight(&entries[0]);
    assert_eq!(h.page, Some(12));
    assert_eq!(h.location, Some(123));
    assert!(h.text.starts_with("Care about your craft."));

    match &entries[1] {
        Entry::Note(n) => {
            assert_eq!(n.page, Some(12));
            assert_eq!(n.location, Some(125));
            assert_eq!(n.text, "This is the whole book in one line.");
        }
        other => panic!("expected note, got {other:?}"),
    }
    match &entries[2] {
        Entry::Bookmark(b) => {
            assert_eq!(b.page, Some(20));
            assert_eq!(b.location, Some(200));
        }
        other => panic!("expected bookmark, got {other:?}"),
    }
    let h = highlight(&entries[3]);
    assert_eq!(h.page, None);
    assert_eq!(h.location, Some(301));
    assert_eq!(h.text, "Don't live with broken windows.");

    let rust = &parsed.books[1];
    assert_eq!(rust.title, "Rust in Action (2nd ed.)");
    assert_eq!(rust.author, "Tim McNamara");
    let h = highlight(&rust.sections[0].entries[0]);
    assert_eq!(h.page, None);
    assert_eq!(h.location, Some(55));
}

#[test]
fn groups_interleaved_books_and_keeps_file_order() {
    let content = "\
Book A (Author A)
- Your Highlight on Page 1 | Ch 1 | Added on Sunday, September 6, 2026, 10:52 AM

first a
==========
Book B (Author B)
- Your Highlight on Page 5 | Ch 9 | Added on Sunday, September 6, 2026, 10:53 AM

first b
==========
Book A (Author A)
- Your Highlight on Page 2 | Ch 1 | Added on Sunday, September 6, 2026, 10:54 AM

second a
==========
";
    let parsed = parse_clippings(content);

    assert_eq!(parsed.books.len(), 2);
    assert_eq!(parsed.books[0].title, "Book A");
    assert_eq!(parsed.books[1].title, "Book B");
    let a_texts: Vec<&str> = parsed.books[0].sections[0]
        .entries
        .iter()
        .map(|e| highlight(e).text.as_str())
        .collect();
    assert_eq!(a_texts, vec!["first a", "second a"]);
}

#[test]
fn chapters_become_sections_in_order_of_first_appearance() {
    let content = "\
Book (Author)
- Your Highlight on Page 30 | 2: Second | Added on Sunday, September 6, 2026, 10:52 AM

two-a
==========
Book (Author)
- Your Highlight on Page 3 | 1: First | Added on Sunday, September 6, 2026, 10:53 AM

one-a
==========
Book (Author)
- Your Highlight on Page 31 | 2: Second | Added on Sunday, September 6, 2026, 10:54 AM

two-b
==========
Book (Author)
- Your Highlight on Page 40 | Added on Sunday, September 6, 2026, 10:55 AM

no chapter
==========
";
    let parsed = parse_clippings(content);

    let headings: Vec<&str> = parsed.books[0]
        .sections
        .iter()
        .map(|s| s.heading.as_str())
        .collect();
    assert_eq!(headings, vec!["2: Second", "1: First", "Highlights"]);
    assert_eq!(parsed.books[0].sections[0].entries.len(), 2);
    assert_eq!(parsed.books[0].sections[1].entries.len(), 1);
    assert_eq!(parsed.books[0].sections[2].entries.len(), 1);
}

#[test]
fn dedupes_exact_duplicate_text_within_a_book_only() {
    let content = "\
Book (Author)
- Your Highlight on Page 1 | Ch | Added on Sunday, September 6, 2026, 10:52 AM

same text
==========
Book (Author)
- Your Highlight on Page 1 | Ch | Added on Sunday, September 6, 2026, 10:53 AM

same text
==========
Other (Author)
- Your Highlight on Page 1 | Ch | Added on Sunday, September 6, 2026, 10:54 AM

same text
==========
Book (Author)
- Your Bookmark on page 9 | Location 90 | Added on Sunday, September 6, 2026, 10:55 AM


==========
Book (Author)
- Your Bookmark on page 9 | Location 90 | Added on Sunday, September 6, 2026, 10:56 AM


==========
";
    let parsed = parse_clippings(content);

    assert_eq!(parsed.books.len(), 2);
    let book_entries: usize = parsed.books[0]
        .sections
        .iter()
        .map(|s| s.entries.len())
        .sum();
    assert_eq!(book_entries, 2, "one highlight plus one bookmark");
    let other_entries: usize = parsed.books[1]
        .sections
        .iter()
        .map(|s| s.entries.len())
        .sum();
    assert_eq!(other_entries, 1);
}

#[test]
fn skips_malformed_and_empty_entries_with_warnings() {
    let content = "\
==========
Book (Author)
- Your Highlight on Page 1 | Ch | Added on Sunday, September 6, 2026, 10:52 AM

good one
==========
Book (Author)
this is not a metadata line

text
==========
Book (Author)
- Your Highlight on Page 2 | Ch | Added on Sunday, September 6, 2026, 10:53 AM


==========
Only a title line
==========

==========
Book (Author)
- Your Doodle on Page 2 | Ch | Added on Sunday, September 6, 2026, 10:53 AM

what
==========
";
    let parsed = parse_clippings(content);

    assert_eq!(parsed.books.len(), 1);
    assert_eq!(parsed.books[0].sections[0].entries.len(), 1);
    assert_eq!(parsed.warnings.len(), 4, "{:?}", parsed.warnings);
    assert!(
        parsed
            .warnings
            .iter()
            .any(|w| w.contains("not a metadata line"))
    );
    assert!(parsed.warnings.iter().any(|w| w.contains("empty")));
    assert!(parsed.warnings.iter().any(|w| w.contains("Doodle")));
}

#[test]
fn title_without_author_gets_placeholder_author() {
    let content = "\
Untitled Manuscript
- Your Highlight on Page 1 | Ch | Added on Sunday, September 6, 2026, 10:52 AM

text
==========
";
    let parsed = parse_clippings(content);

    assert_eq!(parsed.books[0].title, "Untitled Manuscript");
    assert_eq!(parsed.books[0].author, "Unknown Author");
}

#[test]
fn multi_line_highlight_text_is_preserved() {
    let content = "\
Book (Author)
- Your Highlight on Page 1 | Ch | Added on Sunday, September 6, 2026, 10:52 AM

line one
line two
==========
";
    let parsed = parse_clippings(content);

    let h = highlight(&parsed.books[0].sections[0].entries[0]);
    assert_eq!(h.text, "line one\nline two");
}
