use inkwell::clippings::parse_clippings;
use inkwell::convert::{choose_destination, parse_input, sanitize_filename, Destination, InputError};
use inkwell::markdown::{escape_yaml, format_highlight, painter_class, render_markdown};
use inkwell::parser::{
    extract_highlight_color, extract_page_location, parse_entry, parse_html, Entry, EntryError,
    Highlight, HtmlError, Source,
};

fn clipping(title_line: &str, meta: &str, text: &str) -> String {
    format!("{}\n{}\n\n{}\n==========\n", title_line, meta, text)
}

#[test]
fn books_are_distinct_and_in_order_of_first_appearance() {
    let mut content = String::new();
    content.push_str(&clipping("B (X)", "- Your Highlight on Page 1 | Added on now", "b1"));
    content.push_str(&clipping("A (X)", "- Your Highlight on Page 1 | Added on now", "a1"));
    content.push_str(&clipping("B (X)", "- Your Highlight on Page 2 | Added on now", "b2"));
    content.push_str(&clipping("B (Y)", "- Your Highlight on Page 2 | Added on now", "b3"));
    let parsed = parse_clippings(&content);
    let keys: Vec<(&str, &str)> = parsed
        .books
        .iter()
        .map(|b| (b.title.as_str(), b.author.as_str()))
        .collect();
    assert_eq!(keys, vec![("B", "X"), ("A", "X"), ("B", "Y")]);
    assert_eq!(parsed.books[0].sections[0].entries.len(), 2);
}

#[test]
fn duplicates_are_dropped_but_every_clipping_is_filed() {
    let mut content = String::new();
    content.push_str(&clipping("B (X)", "- Your Highlight on Page 1 | Ch 1 | Added on now", "same"));
    content.push_str(&clipping("B (X)", "- Your Highlight on Page 9 | Ch 2 | Added on now", "same"));
    content.push_str(&clipping("B (X)", "- Your Note on Page 9 | Ch 2 | Added on now", "same"));
    let parsed = parse_clippings(&content);
    let book = &parsed.books[0];
    // The second highlight duplicates the first (same text), so only the
    // first one's chapter gets a section; the note has its own key.
    let headings: Vec<&str> = book.sections.iter().map(|s| s.heading.as_str()).collect();
    assert_eq!(headings, vec!["Ch 1", "Ch 2"]);
    assert_eq!(book.sections[0].entries.len(), 1);
    assert!(matches!(book.sections[1].entries[0], Entry::Note(_)));
}

#[test]
fn each_skipped_block_gets_one_numbered_warning() {
    let mut content = String::new();
    content.push_str("\n\n==========\n");
    content.push_str("Lonely title\n==========\n");
    content.push_str(&clipping("B (X)", "- Your Scribble on Page 1", "t"));
    content.push_str(&clipping("B (X)", "- My Highlight on Page 1", "t"));
    content.push_str(&clipping("B (X)", "- Your Highlight", "t"));
    content.push_str(&clipping("B (X)", "- Your Highlight nowhere", "t"));
    content.push_str("B (X)\n- Your Note on Page 3\n\n  \n==========\n");
    let parsed = parse_clippings(&content);
    assert!(parsed.books.is_empty());
    assert_eq!(
        parsed.warnings,
        vec![
            "Skipped clipping 2: \"Lonely title\" has no metadata line".to_string(),
            "Skipped clipping 3: unknown clipping type \"Scribble\"".to_string(),
            "Skipped clipping 4: \"- My Highlight on Page 1\" is not a metadata line".to_string(),
            "Skipped clipping 5: \"- Your Highlight\" has no position".to_string(),
            "Skipped clipping 6: \"- Your Highlight nowhere\" has no position".to_string(),
            "Skipped clipping 7: empty note in \"B\"".to_string(),
        ]
    );
}

#[test]
fn source_follows_locations() {
    let mut content = String::new();
    content.push_str(&clipping("K (X)", "- Your Bookmark on Page 1 | Location 5-9 | Added on now", ""));
    content.push_str(&clipping("C (X)", "- Your Highlight on Page 1 | Ch | Added on now", "c"));
    let parsed = parse_clippings(&content);
    assert_eq!(parsed.books[0].source, Source::KindleClippings);
    assert_eq!(parsed.books[1].source, Source::CrossinkClippings);
    match &parsed.books[0].sections[0].entries[0] {
        Entry::Bookmark(b) => assert_eq!((b.page, b.location), (Some(1), Some(5))),
        other => panic!("expected bookmark, got {other:?}"),
    }
}

#[test]
fn metadata_segments_later_ones_win_and_numbers_are_bounded() {
    let content = clipping(
        "B (X)",
        "- Your Highlight on PAGE 7 | page 8 | LOCATION 99999999999 | Added on now",
        "t",
    );
    let parsed = parse_clippings(&content);
    match &parsed.books[0].sections[0].entries[0] {
        Entry::Highlight(h) => {
            assert_eq!(h.page, Some(8));
            assert_eq!(h.location, None);
        }
        other => panic!("expected highlight, got {other:?}"),
    }
    assert_eq!(parsed.books[0].source, Source::CrossinkClippings);
}

#[test]
fn title_with_empty_author_group_keeps_whole_line() {
    let parsed = parse_clippings(&clipping("Title ( )", "- Your Highlight on Page 1", "t"));
    assert_eq!(parsed.books[0].title, "Title ( )");
    assert_eq!(parsed.books[0].author, "Unknown Author");
    let parsed = parse_clippings(&clipping("Outer (inner) (Author)", "- Your Highlight on Page 1", "t"));
    assert_eq!(parsed.books[0].title, "Outer (inner)");
    assert_eq!(parsed.books[0].author, "Author");
}

#[test]
fn body_text_keeps_inner_blank_lines_and_drops_outer_ones() {
    let content = "B (X)\n- Your Highlight on Page 1\n\n\n  first  \n\n  second\n \n\n==========\n";
    let parsed = parse_clippings(content);
    match &parsed.books[0].sections[0].entries[0] {
        Entry::Highlight(h) => assert_eq!(h.text, "  first\n\n  second"),
        other => panic!("expected highlight, got {other:?}"),
    }
}

#[test]
fn escaped_yaml_reads_back_and_stays_on_one_line() {
    let raw = "a \"q\" \\ b\nc";
    let escaped = escape_yaml(raw);
    assert!(!escaped.contains('\n'));
    let mut back = String::new();
    let mut chars = escaped.chars();
    while let Some(c) = chars.next() {
        if c == '\\' {
            back.push(chars.next().unwrap());
        } else {
            back.push(c);
        }
    }
    assert_eq!(back, "a \"q\" \\ b c");
}

#[test]
fn sanitized_names_hold_no_forbidden_characters() {
    let name = "a/b\\c:d*e?f\"g<h>i|j";
    let once = sanitize_filename(name);
    assert_eq!(once, "a_b_c_d_e_f_g_h_i_j");
    assert_eq!(sanitize_filename(&once), once);
    assert_eq!(once.chars().count(), name.chars().count());
}

#[test]
fn painter_class_uses_lowercased_color() {
    let highlight = Highlight {
        color: "PINK".to_string(),
        page: None,
        location: None,
        subheading: None,
        text: "t".to_string(),
    };
    let mut output = String::new();
    format_highlight(&mut output, &highlight, true);
    assert_eq!(
        output,
        "> t\n\n**Highlight** (<mark class=\"hltr-p\">PINK</mark>)\n\n---\n\n"
    );
    assert_eq!(painter_class("purple"), "y");
}

#[test]
fn entry_errors() {
    match parse_entry("Scribble - Page 1", None) {
        Err(EntryError::UnknownEntryType(h)) => assert_eq!(h, "Scribble - Page 1"),
        other => panic!("unexpected {other:?}"),
    }
    assert!(matches!(
        extract_page_location("Note - Location none"),
        Err(EntryError::LocationUnreadable)
    ));
    assert!(matches!(
        parse_entry("  Bookmark - Location x ", None),
        Err(EntryError::LocationUnreadable)
    ));
    // A "Page " without a number is no page, not an error.
    assert_eq!(extract_page_location("Page x").unwrap(), (None, None));
    // Numbers must be ASCII digits to be read.
    assert_eq!(extract_page_location("Page \u{663}").unwrap(), (None, None));
}

#[test]
fn highlight_color_fallbacks() {
    assert_eq!(extract_highlight_color("plain text"), None);
    assert_eq!(extract_highlight_color("aqua and pink"), Some("pink".to_string()));
    assert_eq!(extract_highlight_color("Highlight()"), Some(String::new()));
    match parse_entry("Highlight - Page 2", Some("x".to_string())).unwrap() {
        Entry::Highlight(h) => assert_eq!((h.color.as_str(), h.page), ("yellow", Some(2))),
        other => panic!("unexpected {other:?}"),
    }
}

fn html(body: &str) -> String {
    format!(
        r#"<html><body><div class="bodyContainer">
        <div class="bookTitle"> T </div>
        <div class="authors">A</div>
        {body}
    </div></body></html>"#
    )
}

#[test]
fn html_errors() {
    assert!(matches!(parse_html("<html></html>"), Err(HtmlError::TitleNotFound)));
    assert!(matches!(
        parse_html(r#"<div class="bookTitle">T</div>"#),
        Err(HtmlError::AuthorNotFound)
    ));
    assert!(matches!(
        parse_html(r#"<div class="bookTitle">T</div><div class="authors">A</div>"#),
        Err(HtmlError::BodyNotFound)
    ));
    let reversed = html(
        r#"<div class="sectionHeading">S</div>
        <div class="noteHeading">Highlight) - (yellow</div>"#,
    );
    assert!(matches!(
        parse_html(&reversed),
        Err(HtmlError::ReversedColorParentheses)
    ));
    // A reversed heading before any section is never read.
    let early = html(
        r#"<div class="noteHeading">Highlight) - (yellow</div>
        <div class="sectionHeading">S</div>"#,
    );
    let book = parse_html(&early).unwrap();
    assert_eq!(book.citation, "");
    assert_eq!(book.title, "T");
    assert_eq!(book.sections.len(), 1);
    assert!(book.sections[0].entries.is_empty());
}

#[test]
fn one_section_per_section_heading() {
    let doc = html(
        r#"<div class="noteHeading">Bookmark - Location 1</div>
        <div class="noteText">orphan</div>
        <div class="sectionHeading">  One </div>
        <div class="sectionHeading">Two</div>
        <div class="noteHeading">Note - Location 7</div>
        <div class="noteText">  kept  </div>
        <div class="sectionHeading">Three</div>"#,
    );
    let book = parse_html(&doc).unwrap();
    let headings: Vec<&str> = book.sections.iter().map(|s| s.heading.as_str()).collect();
    assert_eq!(headings, vec!["One", "Two", "Three"]);
    assert_eq!(book.sections[1].entries.len(), 1);
    match &book.sections[1].entries[0] {
        Entry::Note(n) => assert_eq!((n.text.as_str(), n.location), ("kept", Some(7))),
        other => panic!("unexpected {other:?}"),
    }
}

#[test]
fn output_file_only_for_a_single_book() {
    assert!(matches!(
        choose_destination(Some("o.md".to_string()), None, "d".to_string(), 2),
        Err(2)
    ));
    assert!(matches!(
        choose_destination(Some("o.md".to_string()), None, "d".to_string(), 1),
        Ok(Destination::File(p)) if p == "o.md"
    ));
    assert!(matches!(
        choose_destination(None, Some("e".to_string()), "d".to_string(), 5),
        Ok(Destination::Folder(p)) if p == "e"
    ));
    assert!(matches!(
        choose_destination(None, None, "d".to_string(), 5),
        Ok(Destination::Folder(p)) if p == "d"
    ));
}

#[test]
fn input_kind_picks_the_parser() {
    let none = parse_input("/x/My Clippings.txt", "");
    assert!(matches!(none.books, Err(InputError::NoClippings)));
    let bad = parse_input("/x/export.html", "<html></html>");
    assert!(matches!(bad.books, Err(InputError::Html(HtmlError::TitleNotFound))));
    let one = parse_input(
        "/x/clips.Txt",
        &clipping("B (X)", "- Your Highlight on Page 1", "t"),
    );
    assert_eq!(one.books.unwrap().len(), 1);
}

#[test]
fn rendering_a_book_without_sections() {
    let book = inkwell::parser::Book {
        title: "T\"".to_string(),
        author: "A".to_string(),
        citation: "C".to_string(),
        source: Source::KindleClippings,
        sections: vec![],
    };
    assert_eq!(
        render_markdown(&book, true, "now"),
        "---\ntitle: \"T\\\"\"\nauthor: \"A\"\ncitation: \"C\"\nsource: kindle-clippings\ncreated: \"now\"\n---\n\n# T\"\n\n## Metadata\n* Author: A\n* Citation: C\n\n## Highlights\n\n"
    );
}
