use inkwell::clippings::parse_clippings;
use inkwell::markdown::{
    escape_yaml, format_bookmark, format_highlight, format_note, generate_markdown,
    render_markdown,
};
use inkwell::parser::{parse_html, Book, Bookmark, Entry, Highlight, Note, Section, Source};

const KINDLE_EXPORT_HTML: &str = r#"<!DOCTYPE html>
<html>
<head><meta charset="UTF-8"><title>Notebook</title></head>
<body>
<div class="bodyContainer">
    <div class="notebookFor">Notebook Export</div>
    <div class="bookTitle">Test Book</div>
    <div class="authors">Test Author</div>
    <div class="citation">Citation (MLA): Author, Test. <i>Test Book</i>. , 2025. Kindle file.</div>
    <hr />
    <div class="sectionHeading">Chapter 1</div>
    <div class="noteHeading">Highlight(<span class="highlight_yellow">yellow</span>) - Page 11 · Location 108</div>
    <div class="noteText">This is a test highlight.</div>
    <div class="noteHeading">Note - Getting stuck in organisations &gt; Page 16 · Location 143</div>
    <div class="noteText">Very true</div>
    <div class="sectionHeading">Chapter 2</div>
    <div class="noteHeading">Highlight(<span class="highlight_pink">pink</span>) - Leaders don't make great followers &gt; Page 15 · Location 128</div>
    <div class="noteText">People like this tend to thrive.</div>
    <div class="noteHeading">Bookmark - Page 31 · Location 307</div>
</div>
</body>
</html>
"#;

const KINDLE_EXPORT_GOLDEN: &str = "---
title: \"Test Book\"
author: \"Test Author\"
citation: \"Citation (MLA): Author, Test. Test Book. , 2025. Kindle file.\"
source: kindle-export
created: \"2026-01-01 00:00:00\"
---

# Test Book

## Metadata
* Author: Test Author
* Citation: Citation (MLA): Author, Test. Test Book. , 2025. Kindle file.

## Highlights

### Chapter 1

> This is a test highlight.

**Highlight** (yellow) - Page 11 - Location 108

---

**Note**: Very true

*Getting stuck in organisations - Page 16 - Location 143*

---

### Chapter 2

> People like this tend to thrive.

**Highlight** (pink) - *Leaders don't make great followers* - Page 15 - Location 128

---

**Bookmark** - Page 31 - Location 307

---

";

const CROSSINK_CLIPPINGS: &str = "\
A Philosophy of Software Design, 2nd Edition (John K. Ousterhout)
- Your Highlight on Page 1 | 1: Introduction | Added on Sunday, September 6, 2026, 10:52 AM

Writing computer software is one of the purest creative activities in the history of the human race.
==========
";

const CROSSINK_GOLDEN: &str = "---
title: \"A Philosophy of Software Design, 2nd Edition\"
author: \"John K. Ousterhout\"
citation: \"\"
source: crossink-clippings
created: \"2026-01-01 00:00:00\"
---

# A Philosophy of Software Design, 2nd Edition

## Metadata
* Author: John K. Ousterhout

## Highlights

### 1: Introduction

> Writing computer software is one of the purest creative activities in the history of the human race.

**Highlight** (yellow) - Page 1

---

";

const KINDLE_CLIPPINGS: &str = "\u{feff}The Pragmatic Programmer (David Thomas; Andrew Hunt)\r
- Your Highlight on page 12 | Location 123-125 | Added on Monday, March 2, 2026 9:15:02 AM\r
\r
Care about your craft. Why spend your life developing software unless you care about doing it well?\r
==========\r
The Pragmatic Programmer (David Thomas; Andrew Hunt)\r
- Your Note on page 12 | Location 125 | Added on Monday, March 2, 2026 9:16:40 AM\r
\r
This is the whole book in one line.\r
==========\r
The Pragmatic Programmer (David Thomas; Andrew Hunt)\r
- Your Bookmark on page 20 | Location 200 | Added on Monday, March 2, 2026 9:20:11 AM\r
\r
\r
==========\r
The Pragmatic Programmer (David Thomas; Andrew Hunt)\r
- Your Highlight at location 301 | Added on Tuesday, March 3, 2026 8:01:55 PM\r
\r
Don't live with broken windows.\r
==========\r
Rust in Action (2nd ed.) (Tim McNamara)\r
- Your Highlight at location 55 | Added on Wednesday, March 4, 2026 7:45:00 AM\r
\r
Rust is a language that empowers everyone to build reliable software.\r
==========\r
";

const KINDLE_GOLDEN: &str = "---
title: \"The Pragmatic Programmer\"
author: \"David Thomas; Andrew Hunt\"
citation: \"\"
source: kindle-clippings
created: \"2026-01-01 00:00:00\"
---

# The Pragmatic Programmer

## Metadata
* Author: David Thomas; Andrew Hunt

## Highlights

### Highlights

> Care about your craft. Why spend your life developing software unless you care about doing it well?

**Highlight** (yellow) - Page 12 - Location 123

---

**Note**: This is the whole book in one line.

*Page 12 - Location 125*

---

**Bookmark** - Page 20 - Location 200

---

> Don't live with broken windows.

**Highlight** (yellow) - Location 301

---

";

#[test]
fn test_format_highlight_yellow_with_painter() {
    let highlight = Highlight {
        color: "yellow".to_string(),
        page: Some(11),
        location: Some(108),
        subheading: None,
        text: "This is a test highlight.".to_string(),
    };

    let mut output = String::new();
    format_highlight(&mut output, &highlight, true);

    assert!(output.contains("> This is a test highlight."));
    assert!(output.contains("<mark class=\"hltr-y\">yellow</mark>"));
    assert!(output.contains("Page 11"));
    assert!(output.contains("Location 108"));
    assert!(output.contains("---"));
}

#[test]
fn test_format_highlight_yellow_without_painter() {
    let highlight = Highlight {
        color: "yellow".to_string(),
        page: Some(11),
        location: Some(108),
        subheading: None,
        text: "This is a test highlight.".to_string(),
    };

    let mut output = String::new();
    format_highlight(&mut output, &highlight, false);

    assert!(output.contains("> This is a test highlight."));
    assert!(output.contains("**Highlight** (yellow)"));
    assert!(!output.contains("<mark"));
    assert!(output.contains("Page 11"));
    assert!(output.contains("Location 108"));
}

#[test]
fn test_format_highlight_pink() {
    let highlight = Highlight {
        color: "pink".to_string(),
        page: Some(15),
        location: Some(128),
        subheading: Some("Leaders don't make great followers".to_string()),
        text: "People like this tend to thrive.".to_string(),
    };

    let mut output = String::new();
    format_highlight(&mut output, &highlight, true);

    assert!(output.contains("> People like this tend to thrive."));
    assert!(output.contains("<mark class=\"hltr-p\">pink</mark>"));
    assert!(output.contains("*Leaders don't make great followers*"));
    assert!(output.contains("Page 15"));
    assert!(output.contains("Location 128"));
}

#[test]
fn test_format_highlight_all_colors() {
    let test_colors = vec![
        ("yellow", "y"),
        ("green", "g"),
        ("pink", "p"),
        ("blue", "b"),
        ("red", "r"),
        ("orange", "o"),
        ("aqua", "b"), // Maps to blue
    ];

    for (color_name, expected_class) in test_colors {
        let highlight = Highlight {
            color: color_name.to_string(),
            page: None,
            location: Some(100),
            subheading: None,
            text: "Test text".to_string(),
        };

        let mut output = String::new();
        format_highlight(&mut output, &highlight, true);

        let expected_markup = format!(
            "<mark class=\"hltr-{}\">{}</mark>",
            expected_class, color_name
        );
        assert!(
            output.contains(&expected_markup),
            "Expected '{}' for color '{}', got: {}",
            expected_markup,
            color_name,
            output
        );
    }
}

#[test]
fn test_format_note_with_page() {
    let note = Note {
        page: Some(16),
        location: Some(143),
        subheading: Some("Getting stuck in organisations".to_string()),
        text: "Very true".to_string(),
    };

    let mut output = String::new();
    format_note(&mut output, &note);

    assert!(output.contains("**Note**: Very true"));
    assert!(output.contains("*Getting stuck in organisations - Page 16 - Location 143*"));
    assert!(output.contains("---"));
}

#[test]
fn test_format_note_without_page() {
    let note = Note {
        page: None,
        location: Some(200),
        subheading: None,
        text: "My thoughts".to_string(),
    };

    let mut output = String::new();
    format_note(&mut output, &note);

    assert!(output.contains("**Note**: My thoughts"));
    assert!(output.contains("*Location 200*"));
    assert!(!output.contains("Page"));
}

#[test]
fn test_format_bookmark() {
    let bookmark = Bookmark {
        page: Some(31),
        location: Some(307),
        subheading: Some("Understanding your risk exposure".to_string()),
    };

    let mut output = String::new();
    format_bookmark(&mut output, &bookmark);

    assert!(output.contains("**Bookmark**"));
    assert!(output.contains("*Understanding your risk exposure*"));
    assert!(output.contains("Page 31"));
    assert!(output.contains("Location 307"));
}

#[test]
fn test_escape_yaml() {
    assert_eq!(escape_yaml("simple"), "simple");
    assert_eq!(escape_yaml("has \"quotes\""), "has \\\"quotes\\\"");
    assert_eq!(escape_yaml("has\\backslash"), "has\\\\backslash");
    assert_eq!(escape_yaml("has\nnewline"), "has newline");
    assert_eq!(
        escape_yaml("complex: \"test\\value\"\nwith newline"),
        "complex: \\\"test\\\\value\\\" with newline"
    );
}

#[test]
fn test_generate_markdown_frontmatter() {
    let book = Book {
        title: "Test Book".to_string(),
        author: "Test Author".to_string(),
        citation: "Test Citation".to_string(),
        source: Source::KindleExport,
        sections: vec![],
    };

    let markdown = generate_markdown(&book, false);

    assert!(markdown.contains("---"));
    assert!(markdown.contains("title: \"Test Book\""));
    assert!(markdown.contains("author: \"Test Author\""));
    assert!(markdown.contains("citation: \"Test Citation\""));
    assert!(markdown.contains("source: kindle-export"));
    assert!(markdown.contains("created: \""));
}

#[test]
fn test_generate_markdown_with_highlights() {
    let book = Book {
        title: "Test Book".to_string(),
        author: "Test Author".to_string(),
        citation: "".to_string(),
        source: Source::KindleExport,
        sections: vec![Section {
            heading: "Chapter 1".to_string(),
            entries: vec![
                Entry::Highlight(Highlight {
                    color: "yellow".to_string(),
                    page: Some(10),
                    location: Some(100),
                    subheading: None,
                    text: "First highlight".to_string(),
                }),
                Entry::Note(Note {
                    page: Some(10),
                    location: Some(101),
                    subheading: None,
                    text: "My note".to_string(),
                }),
            ],
        }],
    };

    let markdown = generate_markdown(&book, true);

    assert!(markdown.contains("### Chapter 1"));
    assert!(markdown.contains("> First highlight"));
    assert!(markdown.contains("<mark class=\"hltr-y\">yellow</mark>"));
    assert!(markdown.contains("**Note**: My note"));
}

#[test]
fn test_render_markdown_html_export_matches_golden() {
    let book = parse_html(KINDLE_EXPORT_HTML).unwrap();

    let markdown = render_markdown(&book, false, "2026-01-01 00:00:00");

    assert_eq!(markdown, KINDLE_EXPORT_GOLDEN);
}

#[test]
fn test_render_markdown_crossink_clippings_matches_golden() {
    let parsed = parse_clippings(CROSSINK_CLIPPINGS);

    let markdown = render_markdown(&parsed.books[0], false, "2026-01-01 00:00:00");

    assert_eq!(markdown, CROSSINK_GOLDEN);
}

#[test]
fn test_render_markdown_kindle_clippings_matches_golden() {
    let parsed = parse_clippings(KINDLE_CLIPPINGS);

    let markdown = render_markdown(&parsed.books[0], false, "2026-01-01 00:00:00");

    assert_eq!(markdown, KINDLE_GOLDEN);
}

#[test]
fn test_format_note_without_location_prints_only_page() {
    let note = Note {
        page: Some(16),
        location: None,
        subheading: None,
        text: "Just a page".to_string(),
    };

    let mut output = String::new();
    format_note(&mut output, &note);

    assert!(output.contains("*Page 16*"), "{output}");
    assert!(!output.contains("Location"));
}

#[test]
fn test_format_bookmark_without_location_prints_only_page() {
    let bookmark = Bookmark {
        page: Some(31),
        location: None,
        subheading: None,
    };

    let mut output = String::new();
    format_bookmark(&mut output, &bookmark);

    assert!(output.contains("**Bookmark** - Page 31\n"), "{output}");
    assert!(!output.contains("Location"));
}
