use inkwell::parser::{
    extract_highlight_color, extract_page_location, extract_subheading, parse_entry, parse_html,
    Book, Entry,
};
use scraper::{Html, Selector};

#[test]
fn test_extract_highlight_color() {
    assert_eq!(
        extract_highlight_color("Highlight(yellow)"),
        Some("yellow".to_string())
    );
    assert_eq!(
        extract_highlight_color("Highlight(pink)"),
        Some("pink".to_string())
    );
    assert_eq!(
        extract_highlight_color("Contains yellow word"),
        Some("yellow".to_string())
    );
}

#[test]
fn test_extract_page_location_with_page() {
    let result = extract_page_location("Page 11 · Location 108").unwrap();
    assert_eq!(result, (Some(11), Some(108)));
}

#[test]
fn test_extract_page_location_without_page() {
    let result = extract_page_location("Location 108").unwrap();
    assert_eq!(result, (None, Some(108)));
}

#[test]
fn test_extract_page_location_complex() {
    // This simulates what we get from HTML with span tags
    let result = extract_page_location("Highlight(yellow) - Page 11 · Location 108").unwrap();
    assert_eq!(result, (Some(11), Some(108)));
}

#[test]
fn test_extract_subheading() {
    let result =
        extract_subheading("Note - Getting stuck in organisations > Page 16 · Location 143");
    assert_eq!(result, Some("Getting stuck in organisations".to_string()));

    let result2 =
        extract_subheading("Highlight(yellow) - Self-driving people > Page 14 · Location 126");
    assert_eq!(result2, Some("Self-driving people".to_string()));

    let result3 = extract_subheading("Highlight(yellow) - Page 11 · Location 108");
    assert_eq!(result3, None);
}

#[test]
fn test_parse_entry_highlight_with_page() {
    let heading = "Highlight(yellow) - Page 11 · Location 108";
    let text = Some("Some highlighted text".to_string());
    let entry = parse_entry(heading, text).unwrap();

    if let Entry::Highlight(h) = entry {
        assert_eq!(h.color, "yellow");
        assert_eq!(h.page, Some(11));
        assert_eq!(h.location, Some(108));
        assert_eq!(h.text, "Some highlighted text");
    } else {
        panic!("Expected Highlight entry");
    }
}

#[test]
fn test_parse_entry_note_with_subheading() {
    let heading = "Note - Getting stuck in organisations > Page 16 · Location 143";
    let text = Some("Very true".to_string());
    let entry = parse_entry(heading, text).unwrap();

    if let Entry::Note(n) = entry {
        assert_eq!(n.page, Some(16));
        assert_eq!(n.location, Some(143));
        assert_eq!(
            n.subheading,
            Some("Getting stuck in organisations".to_string())
        );
        assert_eq!(n.text, "Very true");
    } else {
        panic!("Expected Note entry");
    }
}

#[test]
fn test_html_text_extraction() {
    // Test that HTML with span tags extracts correctly
    let html = r#"<div class="noteHeading">
    Highlight(<span class="highlight_yellow">yellow</span>) - Page 11 · Location 108
</div>"#;

    let document = Html::parse_fragment(html);
    let selector = Selector::parse("div").unwrap();
    let text: String = document.select(&selector).next().unwrap().text().collect();

    println!("Extracted text: '{}'", text.trim());

    // Test parsing this text
    let (page, location) = extract_page_location(&text).unwrap();
    assert_eq!(page, Some(11));
    assert_eq!(location, Some(108));
}

#[test]
fn test_parse_html_with_mla_citation() {
    let html = r#"<!DOCTYPE html>
<html>
<head><meta charset="UTF-8"></head>
<body>
    <div class="bodyContainer">
        <div class="bookTitle">Test Book</div>
        <div class="authors">Test Author</div>
        <div class="citation">Citation (MLA): Author, Test. <i>Test Book</i>. , 2025. Kindle file.</div>
        <div class="sectionHeading">Chapter 1</div>
        <div class="noteHeading">Highlight(<span class="highlight_yellow">yellow</span>) - Location 100</div>
        <div class="noteText">Test highlight text</div>
    </div>
</body>
</html>"#;

    let book = parse_html(html).unwrap();
    assert_eq!(book.title, "Test Book");
    assert_eq!(book.author, "Test Author");
    assert_eq!(
        book.citation,
        "Citation (MLA): Author, Test. Test Book. , 2025. Kindle file."
    );
    assert_eq!(book.sections.len(), 1);
}

#[test]
fn test_parse_html_with_apa_citation() {
    let html = r#"<!DOCTYPE html>
<html>
<head><meta charset="UTF-8"></head>
<body>
    <div class="bodyContainer">
        <div class="bookTitle">Test Book</div>
        <div class="authors">Test Author</div>
        <div class="citation">Citation (APA): Author, T. (2025). <i>Test Book</i> [Kindle iOS version]. Retrieved from Amazon.com</div>
        <div class="sectionHeading">Chapter 1</div>
        <div class="noteHeading">Highlight(<span class="highlight_yellow">yellow</span>) - Location 100</div>
        <div class="noteText">Test highlight text</div>
    </div>
</body>
</html>"#;

    let book = parse_html(html).unwrap();
    assert_eq!(book.title, "Test Book");
    assert_eq!(book.author, "Test Author");
    assert_eq!(
        book.citation,
        "Citation (APA): Author, T. (2025). Test Book [Kindle iOS version]. Retrieved from Amazon.com"
    );
    assert_eq!(book.sections.len(), 1);
}

#[test]
fn test_parse_html_with_chicago_citation() {
    let html = r#"<!DOCTYPE html>
<html>
<head><meta charset="UTF-8"></head>
<body>
    <div class="bodyContainer">
        <div class="bookTitle">Test Book</div>
        <div class="authors">Test Author</div>
        <div class="citation">Citation (Chicago Style): Author, Test. <i>Test Book</i>. , 2025. Kindle edition.</div>
        <div class="sectionHeading">Chapter 1</div>
        <div class="noteHeading">Highlight(<span class="highlight_yellow">yellow</span>) - Location 100</div>
        <div class="noteText">Test highlight text</div>
    </div>
</body>
</html>"#;

    let book = parse_html(html).unwrap();
    assert_eq!(book.title, "Test Book");
    assert_eq!(book.author, "Test Author");
    assert_eq!(
        book.citation,
        "Citation (Chicago Style): Author, Test. Test Book. , 2025. Kindle edition."
    );
    assert_eq!(book.sections.len(), 1);
}

#[test]
fn test_parse_html_with_no_citation() {
    let html = r#"<!DOCTYPE html>
<html>
<head><meta charset="UTF-8"></head>
<body>
    <div class="bodyContainer">
        <div class="bookTitle">Test Book</div>
        <div class="authors">Test Author</div>
        <div class="citation"></div>
        <div class="sectionHeading">Chapter 1</div>
        <div class="noteHeading">Highlight(<span class="highlight_yellow">yellow</span>) - Location 100</div>
        <div class="noteText">Test highlight text</div>
    </div>
</body>
</html>"#;

    let book = parse_html(html).unwrap();
    assert_eq!(book.title, "Test Book");
    assert_eq!(book.author, "Test Author");
    assert_eq!(book.citation, "");
    assert_eq!(book.sections.len(), 1);
}

fn html_with_entries(entries: &str) -> String {
    format!(
        r#"<html><body><div class="bodyContainer">
        <div class="bookTitle">Test Book</div>
        <div class="authors">Test Author</div>
        <div class="citation"></div>
        {entries}
    </div></body></html>"#
    )
}

fn entry_kinds(book: &Book) -> Vec<String> {
    book.sections
        .iter()
        .flat_map(|s| &s.entries)
        .map(|e| match e {
            Entry::Highlight(_) => "highlight".to_string(),
            Entry::Note(_) => "note".to_string(),
            Entry::Bookmark(b) => format!("bookmark@{}", b.location.unwrap_or(0)),
        })
        .collect()
}

#[test]
fn test_bookmark_followed_by_another_heading_is_kept() {
    let html = html_with_entries(
        r#"<div class="sectionHeading">Chapter 1</div>
        <div class="noteHeading">Bookmark - Page 31 · Location 307</div>
        <div class="noteHeading">Highlight(<span class="highlight_yellow">yellow</span>) - Location 400</div>
        <div class="noteText">After the bookmark</div>"#,
    );

    let book = parse_html(&html).unwrap();

    assert_eq!(entry_kinds(&book), vec!["bookmark@307", "highlight"]);
}

#[test]
fn test_bookmark_before_section_heading_is_kept_in_its_own_section() {
    let html = html_with_entries(
        r#"<div class="sectionHeading">Chapter 1</div>
        <div class="noteHeading">Bookmark - Page 31 · Location 307</div>
        <div class="sectionHeading">Chapter 2</div>
        <div class="noteHeading">Highlight(<span class="highlight_yellow">yellow</span>) - Location 400</div>
        <div class="noteText">In chapter two</div>"#,
    );

    let book = parse_html(&html).unwrap();

    assert_eq!(book.sections.len(), 2);
    assert_eq!(entry_kinds(&book), vec!["bookmark@307", "highlight"]);
    assert_eq!(
        book.sections[0].entries.len(),
        1,
        "bookmark stays in Chapter 1"
    );
}

#[test]
fn test_bookmark_at_end_of_file_is_kept() {
    let html = html_with_entries(
        r#"<div class="sectionHeading">Chapter 1</div>
        <div class="noteHeading">Highlight(<span class="highlight_yellow">yellow</span>) - Location 100</div>
        <div class="noteText">Some text</div>
        <div class="noteHeading">Bookmark - Page 31 · Location 307</div>"#,
    );

    let book = parse_html(&html).unwrap();

    assert_eq!(entry_kinds(&book), vec!["highlight", "bookmark@307"]);
}

#[test]
fn test_bookmark_with_empty_note_text_is_kept_once() {
    let html = html_with_entries(
        r#"<div class="sectionHeading">Chapter 1</div>
        <div class="noteHeading">Bookmark - Page 31 · Location 307</div>
        <div class="noteText"></div>
        <div class="noteHeading">Highlight(<span class="highlight_yellow">yellow</span>) - Location 400</div>
        <div class="noteText">After</div>"#,
    );

    let book = parse_html(&html).unwrap();

    assert_eq!(entry_kinds(&book), vec!["bookmark@307", "highlight"]);
}

#[test]
fn test_highlight_heading_without_text_is_dropped_not_emitted_empty() {
    let html = html_with_entries(
        r#"<div class="sectionHeading">Chapter 1</div>
        <div class="noteHeading">Highlight(<span class="highlight_yellow">yellow</span>) - Location 100</div>
        <div class="noteHeading">Bookmark - Page 31 · Location 307</div>"#,
    );

    let book = parse_html(&html).unwrap();

    assert_eq!(entry_kinds(&book), vec!["bookmark@307"]);
}
