//! Rendering a book as an Obsidian Markdown note: YAML frontmatter, a
//! metadata section, then the highlights, notes and bookmarks by section.
use crate::parser::{
    source_name, Book, BookView, Bookmark, BookmarkView, Entry, EntryView, Highlight,
    HighlightView, Note, NoteView, SectionView,
};
use crate::text::{
    chars_of, decimal, is_digit, join, push_decimal, push_joined, push_str, same, string_from,
};
use vstd::prelude::*;

verus! {

// ---------------------------------------------------------------------------
// The note format, as sequence functions
// ---------------------------------------------------------------------------

/// How one character is written inside a double-quoted YAML scalar.
pub open spec fn yaml_char(c: char) -> Seq<char> {
    if c == '\\' {
        seq!['\\', '\\']
    } else if c == '"' {
        seq!['\\', '"']
    } else if c == '\n' {
        seq![' ']
    } else {
        seq![c]
    }
}

/// Backslashes and double quotes escaped, line breaks turned into spaces.
pub open spec fn escape_yaml_spec(s: Seq<char>) -> Seq<char>
    decreases s.len(),
{
    if s.len() == 0 {
        Seq::empty()
    } else {
        escape_yaml_spec(s.drop_last()) + yaml_char(s.last())
    }
}

/// The lowercase form of `s` that `str::to_lowercase` gives (Unicode's
/// `Lowercase` mapping).
pub uninterp spec fn unicode_lowercase(s: Seq<char>) -> Seq<char>;

/// Whether every character of `s` is ASCII.
pub open spec fn all_ascii(s: Seq<char>) -> bool {
    forall|i: int| 0 <= i < s.len() ==> (#[trigger] s[i] as u32) < 128
}

/// What `str::to_lowercase` gives: on an ASCII string its ASCII lowercase,
/// on any other the Unicode mapping `unicode_lowercase`.
pub open spec fn lowercase_spec(s: Seq<char>) -> Seq<char> {
    if all_ascii(s) {
        crate::clippings::ascii_lower(s)
    } else {
        unicode_lowercase(s)
    }
}

/// The Obsidian Painter class suffix for a (lowercased) Kindle color; aqua
/// maps to blue, anything unknown to yellow.
pub open spec fn painter_class_spec(lower: Seq<char>) -> Seq<char> {
    if lower == "yellow"@ {
        "y"@
    } else if lower == "green"@ {
        "g"@
    } else if lower == "pink"@ {
        "p"@
    } else if lower == "blue"@ {
        "b"@
    } else if lower == "red"@ {
        "r"@
    } else if lower == "orange"@ {
        "o"@
    } else if lower == "aqua"@ {
        "b"@
    } else {
        "y"@
    }
}

/// ` - *subheading*`, or nothing.
pub open spec fn subheading_md(s: Option<Seq<char>>) -> Seq<char> {
    match s {
        Some(t) => " - *"@ + t + "*"@,
        None => Seq::empty(),
    }
}

/// ` - Page N`, or nothing.
pub open spec fn page_md(p: Option<u32>) -> Seq<char> {
    match p {
        Some(n) => " - Page "@ + decimal(n as nat),
        None => Seq::empty(),
    }
}

/// ` - Location N`, or nothing.
pub open spec fn location_md(l: Option<u32>) -> Seq<char> {
    match l {
        Some(n) => " - Location "@ + decimal(n as nat),
        None => Seq::empty(),
    }
}

/// The color as written after "**Highlight** (": a Painter `<mark>` element
/// when painter highlighting is on, the bare color otherwise.
pub open spec fn color_md(color: Seq<char>, enable_painter: bool) -> Seq<char> {
    if enable_painter {
        "<mark class=\"hltr-"@ + painter_class_spec(lowercase_spec(color)) + "\">"@ + color
            + "</mark>"@
    } else {
        color
    }
}

/// A highlight: the text as a blockquote, then its metadata line.
pub open spec fn highlight_md(h: HighlightView, enable_painter: bool) -> Seq<char> {
    "> "@ + h.text + "\n\n"@ + "**Highlight** ("@ + color_md(h.color, enable_painter) + ")"@
        + subheading_md(h.subheading) + page_md(h.page) + location_md(h.location) + "\n\n"@
        + "---\n\n"@
}

/// The parts of a note's italic metadata line, in order.
pub open spec fn note_parts(n: NoteView) -> Seq<Seq<char>> {
    (match n.subheading {
        Some(s) => seq![s],
        None => Seq::empty(),
    }) + (match n.page {
        Some(p) => seq!["Page "@ + decimal(p as nat)],
        None => Seq::empty(),
    }) + (match n.location {
        Some(l) => seq!["Location "@ + decimal(l as nat)],
        None => Seq::empty(),
    })
}

/// A note: its text, then its metadata line in italics (left out when there
/// is nothing to say).
pub open spec fn note_md(n: NoteView) -> Seq<char> {
    let parts = note_parts(n);
    "**Note**: "@ + n.text + "\n"@ + "\n"@ + (if parts.len() > 0 {
        "*"@ + join(parts, " - "@) + "*\n\n"@
    } else {
        Seq::empty()
    }) + "---\n\n"@
}

/// A bookmark: its metadata line.
pub open spec fn bookmark_md(b: BookmarkView) -> Seq<char> {
    "**Bookmark**"@ + subheading_md(b.subheading) + page_md(b.page) + location_md(b.location)
        + "\n\n"@ + "---\n\n"@
}

/// Any entry.
pub open spec fn entry_md(e: EntryView, enable_painter: bool) -> Seq<char> {
    match e {
        EntryView::Highlight(h) => highlight_md(h, enable_painter),
        EntryView::Note(n) => note_md(n),
        EntryView::Bookmark(b) => bookmark_md(b),
    }
}

/// The first `n` entries, one after another.
pub open spec fn entries_md(es: Seq<EntryView>, enable_painter: bool) -> Seq<char>
    decreases es.len(),
{
    if es.len() == 0 {
        Seq::empty()
    } else {
        entries_md(es.drop_last(), enable_painter) + entry_md(es.last(), enable_painter)
    }
}

/// A section: its heading, then its entries.
pub open spec fn section_md(s: SectionView, enable_painter: bool) -> Seq<char> {
    "### "@ + s.heading + "\n\n"@ + entries_md(s.entries, enable_painter)
}

/// The sections, one after another.
pub open spec fn sections_md(ss: Seq<SectionView>, enable_painter: bool) -> Seq<char>
    decreases ss.len(),
{
    if ss.len() == 0 {
        Seq::empty()
    } else {
        sections_md(ss.drop_last(), enable_painter) + section_md(ss.last(), enable_painter)
    }
}

/// The YAML frontmatter.
pub open spec fn frontmatter_md(b: BookView, timestamp: Seq<char>) -> Seq<char> {
    "---\n"@ + "title: \""@ + escape_yaml_spec(b.title) + "\"\n"@ + "author: \""@
        + escape_yaml_spec(b.author) + "\"\n"@ + "citation: \""@ + escape_yaml_spec(b.citation)
        + "\"\n"@ + "source: "@ + source_name(b.source) + "\n"@ + "created: \""@ + timestamp
        + "\"\n"@ + "---\n\n"@
}

/// The title and the metadata section.
pub open spec fn metadata_md(b: BookView) -> Seq<char> {
    "# "@ + b.title + "\n\n"@ + "## Metadata\n"@ + "* Author: "@ + b.author + "\n"@ + (if b.citation.len()
        > 0 {
        "* Citation: "@ + b.citation + "\n"@
    } else {
        Seq::empty()
    }) + "\n"@
}

/// The whole note for a book, stamped with `timestamp`.
pub open spec fn render_spec(b: BookView, enable_painter: bool, timestamp: Seq<char>) -> Seq<char> {
    frontmatter_md(b, timestamp) + metadata_md(b) + "## Highlights\n\n"@ + sections_md(
        b.sections,
        enable_painter,
    )
}

// ---------------------------------------------------------------------------
// Writing
// ---------------------------------------------------------------------------

/// `str::to_lowercase`. Claimed: the result is `unicode_lowercase(s)`, a
/// function of the string alone, and on an all-ASCII string it is the ASCII
/// lowercase (Unicode lowercases `A`-`Z` to `a`-`z` and leaves every other
/// ASCII character as it is).
#[verifier::external_body]
fn lowercase(s: &str) -> (r: String)
    ensures
        r@ == unicode_lowercase(s@),
        all_ascii(s@) ==> r@ == crate::clippings::ascii_lower(s@),
{
    s.to_lowercase()
}

/// The Obsidian Painter class suffix for a lowercased Kindle color.
pub fn painter_class(lower: &str) -> (r: &'static str)
    ensures
        r@ == painter_class_spec(lower@),
{
    let l = chars_of(lower);
    let ls = l.as_slice();
    if same(ls, chars_of("yellow").as_slice()) {
        "y"
    } else if same(ls, chars_of("green").as_slice()) {
        "g"
    } else if same(ls, chars_of("pink").as_slice()) {
        "p"
    } else if same(ls, chars_of("blue").as_slice()) {
        "b"
    } else if same(ls, chars_of("red").as_slice()) {
        "r"
    } else if same(ls, chars_of("orange").as_slice()) {
        "o"
    } else if same(ls, chars_of("aqua").as_slice()) {
        "b"
    } else {
        "y"
    }
}

/// Escape a value for a double-quoted YAML scalar.
pub fn escape_yaml(s: &str) -> (r: String)
    ensures
        r@ == escape_yaml_spec(s@),
{
    let v = chars_of(s);
    let mut out: Vec<char> = Vec::new();
    let mut i: usize = 0;
    while i < v.len()
        invariant
            i <= v@.len(),
            out@ == escape_yaml_spec(v@.take(i as int)),
        decreases v@.len() - i,
    {
        let c = v[i];
        if c == '\\' {
            out.push('\\');
            out.push('\\');
        } else if c == '"' {
            out.push('\\');
            out.push('"');
        } else if c == '\n' {
            out.push(' ');
        } else {
            out.push(c);
        }
        proof {
            let t = v@.take(i + 1);
            assert(t.drop_last() =~= v@.take(i as int));
            assert(t.last() == c);
            assert(out@ =~= escape_yaml_spec(v@.take(i as int)) + yaml_char(c));
        }
        i = i + 1;
    }
    assert(v@.take(v@.len() as int) =~= v@);
    string_from(out.as_slice())
}

/// Appends ` - *subheading*` when there is one.
fn push_subheading(out: &mut Vec<char>, s: &Option<String>)
    ensures
        final(out)@ == old(out)@ + subheading_md(crate::parser::opt_chars(*s)),
{
    match s {
        Some(t) => {
            push_str(out, " - *");
            push_str(out, t.as_str());
            push_str(out, "*");
            assert(out@ =~= old(out)@ + subheading_md(crate::parser::opt_chars(*s)));
        },
        None => {
            assert(out@ =~= old(out)@ + subheading_md(crate::parser::opt_chars(*s)));
        },
    }
}

/// Appends ` - Page N` when there is a page.
fn push_page(out: &mut Vec<char>, p: Option<u32>)
    ensures
        final(out)@ == old(out)@ + page_md(p),
{
    match p {
        Some(n) => {
            push_str(out, " - Page ");
            push_decimal(out, n as u64);
            assert(out@ =~= old(out)@ + page_md(p));
        },
        None => {
            assert(out@ =~= old(out)@ + page_md(p));
        },
    }
}

/// Appends ` - Location N` when there is a location.
fn push_location(out: &mut Vec<char>, l: Option<u32>)
    ensures
        final(out)@ == old(out)@ + location_md(l),
{
    match l {
        Some(n) => {
            push_str(out, " - Location ");
            push_decimal(out, n as u64);
            assert(out@ =~= old(out)@ + location_md(l));
        },
        None => {
            assert(out@ =~= old(out)@ + location_md(l));
        },
    }
}

/// Appends a highlight.
fn push_highlight(out: &mut Vec<char>, highlight: &Highlight, enable_painter: bool)
    ensures
        final(out)@ == old(out)@ + highlight_md(highlight@, enable_painter),
{
    let ghost start = out@;
    push_str(out, "> ");
    push_str(out, highlight.text.as_str());
    push_str(out, "\n\n");
    push_str(out, "**Highlight** (");
    let ghost before_color = out@;
    if enable_painter {
        let lower = lowercase(highlight.color.as_str());
        let class = painter_class(lower.as_str());
        push_str(out, "<mark class=\"hltr-");
        push_str(out, class);
        push_str(out, "\">");
        push_str(out, highlight.color.as_str());
        push_str(out, "</mark>");
    } else {
        push_str(out, highlight.color.as_str());
    }
    assert(out@ =~= before_color + color_md(highlight.color@, enable_painter));
    push_str(out, ")");
    push_subheading(out, &highlight.subheading);
    push_page(out, highlight.page);
    push_location(out, highlight.location);
    push_str(out, "\n\n");
    push_str(out, "---\n\n");
    assert(out@ =~= start + highlight_md(highlight@, enable_painter));
}

/// Appends a note.
fn push_note(out: &mut Vec<char>, note: &Note)
    ensures
        final(out)@ == old(out)@ + note_md(note@),
{
    let ghost start = out@;
    push_str(out, "**Note**: ");
    push_str(out, note.text.as_str());
    push_str(out, "\n");
    push_str(out, "\n");
    let mut parts: Vec<Vec<char>> = Vec::new();
    match &note.subheading {
        Some(s) => {
            parts.push(chars_of(s.as_str()));
        },
        None => {},
    }
    match note.page {
        Some(p) => {
            let mut part = chars_of("Page ");
            push_decimal(&mut part, p as u64);
            parts.push(part);
        },
        None => {},
    }
    match note.location {
        Some(l) => {
            let mut part = chars_of("Location ");
            push_decimal(&mut part, l as u64);
            parts.push(part);
        },
        None => {},
    }
    assert(crate::text::seqs(parts@) =~= note_parts(note@));
    let ghost before_parts = out@;
    if parts.len() > 0 {
        push_str(out, "*");
        let sep = chars_of(" - ");
        push_joined(out, parts.as_slice(), sep.as_slice());
        push_str(out, "*\n\n");
    }
    push_str(out, "---\n\n");
    assert(out@ =~= start + note_md(note@));
}

/// Appends a bookmark.
fn push_bookmark(out: &mut Vec<char>, bookmark: &Bookmark)
    ensures
        final(out)@ == old(out)@ + bookmark_md(bookmark@),
{
    let ghost start = out@;
    push_str(out, "**Bookmark**");
    push_subheading(out, &bookmark.subheading);
    push_page(out, bookmark.page);
    push_location(out, bookmark.location);
    push_str(out, "\n\n");
    push_str(out, "---\n\n");
    assert(out@ =~= start + bookmark_md(bookmark@));
}

/// Appends a highlight to `output`.
pub fn format_highlight(output: &mut String, highlight: &Highlight, enable_painter: bool)
    ensures
        final(output)@ == old(output)@ + highlight_md(highlight@, enable_painter),
{
    let mut v: Vec<char> = Vec::new();
    push_highlight(&mut v, highlight, enable_painter);
    output.append(string_from(v.as_slice()).as_str());
}

/// Appends a note to `output`.
pub fn format_note(output: &mut String, note: &Note)
    ensures
        final(output)@ == old(output)@ + note_md(note@),
{
    let mut v: Vec<char> = Vec::new();
    push_note(&mut v, note);
    output.append(string_from(v.as_slice()).as_str());
}

/// Appends a bookmark to `output`.
pub fn format_bookmark(output: &mut String, bookmark: &Bookmark)
    ensures
        final(output)@ == old(output)@ + bookmark_md(bookmark@),
{
    let mut v: Vec<char> = Vec::new();
    push_bookmark(&mut v, bookmark);
    output.append(string_from(v.as_slice()).as_str());
}

/// Appends the entries of a section.
fn push_entries(out: &mut Vec<char>, entries: &Vec<Entry>, enable_painter: bool)
    ensures
        final(out)@ == old(out)@ + entries_md(crate::parser::entries_view(entries@), enable_painter),
{
    let ghost start = out@;
    let ghost ev = crate::parser::entries_view(entries@);
    let mut i: usize = 0;
    while i < entries.len()
        invariant
            ev == crate::parser::entries_view(entries@),
            i <= entries@.len(),
            out@ == start + entries_md(ev.take(i as int), enable_painter),
        decreases entries@.len() - i,
    {
        match &entries[i] {
            Entry::Highlight(h) => push_highlight(out, h, enable_painter),
            Entry::Note(n) => push_note(out, n),
            Entry::Bookmark(b) => push_bookmark(out, b),
        }
        proof {
            let t = ev.take(i + 1);
            assert(t.drop_last() =~= ev.take(i as int));
            assert(t.last() == entries@[i as int]@);
        }
        i = i + 1;
    }
    assert(ev.take(entries@.len() as int) =~= ev);
}

/// Render a book to Markdown with an explicit `created` timestamp.
pub fn render_markdown(book: &Book, enable_painter: bool, timestamp: &str) -> (r: String)
    ensures
        r@ == render_spec(book@, enable_painter, timestamp@),
{
    let mut out: Vec<char> = Vec::new();
    push_str(&mut out, "---\n");
    push_str(&mut out, "title: \"");
    push_str(&mut out, escape_yaml(book.title.as_str()).as_str());
    push_str(&mut out, "\"\n");
    push_str(&mut out, "author: \"");
    push_str(&mut out, escape_yaml(book.author.as_str()).as_str());
    push_str(&mut out, "\"\n");
    push_str(&mut out, "citation: \"");
    push_str(&mut out, escape_yaml(book.citation.as_str()).as_str());
    push_str(&mut out, "\"\n");
    push_str(&mut out, "source: ");
    push_str(&mut out, book.source.as_str());
    push_str(&mut out, "\n");
    push_str(&mut out, "created: \"");
    push_str(&mut out, timestamp);
    push_str(&mut out, "\"\n");
    push_str(&mut out, "---\n\n");
    assert(out@ =~= frontmatter_md(book@, timestamp@));
    let ghost after_front = out@;
    push_str(&mut out, "# ");
    push_str(&mut out, book.title.as_str());
    push_str(&mut out, "\n\n");
    push_str(&mut out, "## Metadata\n");
    push_str(&mut out, "* Author: ");
    push_str(&mut out, book.author.as_str());
    push_str(&mut out, "\n");
    if !book.citation.as_str().is_empty() {
        push_str(&mut out, "* Citation: ");
        push_str(&mut out, book.citation.as_str());
        push_str(&mut out, "\n");
    }
    push_str(&mut out, "\n");
    assert(out@ =~= after_front + metadata_md(book@));
    push_str(&mut out, "## Highlights\n\n");
    let ghost head = out@;
    let ghost sv = crate::parser::sections_view(book.sections@);
    let mut i: usize = 0;
    while i < book.sections.len()
        invariant
            sv == crate::parser::sections_view(book.sections@),
            i <= book.sections@.len(),
            out@ == head + sections_md(sv.take(i as int), enable_painter),
        decreases book.sections@.len() - i,
    {
        let section = &book.sections[i];
        let ghost before = out@;
        push_str(&mut out, "### ");
        push_str(&mut out, section.heading.as_str());
        push_str(&mut out, "\n\n");
        push_entries(&mut out, &section.entries, enable_painter);
        proof {
            assert(out@ =~= before + section_md(section@, enable_painter));
            let t = sv.take(i + 1);
            assert(t.drop_last() =~= sv.take(i as int));
            assert(t.last() == section@);
        }
        i = i + 1;
    }
    assert(sv.take(book.sections@.len() as int) =~= sv);
    assert(out@ =~= render_spec(book@, enable_painter, timestamp@));
    string_from(out.as_slice())
}

/// The shape of a `%Y-%m-%d %H:%M:%S` timestamp: a year of at least four
/// digits (with a sign before years outside 0 to 9999), then two-digit month,
/// day, hour, minute and second, separated as the format says.
pub open spec fn timestamp_shape(s: Seq<char>) -> bool {
    let y = s.len() - 15;
    let t = s.subrange(y, s.len() as int);
    &&& s.len() >= 19
    &&& (is_digit(s[0]) || s[0] == '+' || s[0] == '-')
    &&& forall|i: int| 1 <= i < y ==> is_digit(#[trigger] s[i])
    &&& t[0] == '-' && is_digit(t[1]) && is_digit(t[2])
    &&& t[3] == '-' && is_digit(t[4]) && is_digit(t[5])
    &&& t[6] == ' ' && is_digit(t[7]) && is_digit(t[8])
    &&& t[9] == ':' && is_digit(t[10]) && is_digit(t[11])
    &&& t[12] == ':' && is_digit(t[13]) && is_digit(t[14])
}

/// The current local time formatted with `chrono`'s strftime-style `format`
/// (`chrono::Local::now().format(format)`). Only the one format the notes
/// use is admitted, since formatting with an invalid one panics. Claimed of
/// the result: it has the shape that format gives (`timestamp_shape`); which
/// time it shows depends on the clock and the time zone and is not stated.
#[verifier::external_body]
fn local_time(format: &str) -> (r: String)
    requires
        format@ == "%Y-%m-%d %H:%M:%S"@,
    ensures
        timestamp_shape(r@),
{
    chrono::Local::now().format(format).to_string()
}

/// Render a book to Markdown, stamping the frontmatter with the current time.
pub fn generate_markdown(book: &Book, enable_painter: bool) -> (r: String)
    ensures
        exists|timestamp: Seq<char>|
            timestamp_shape(timestamp) && r@ == render_spec(book@, enable_painter, timestamp),
{
    let timestamp = local_time("%Y-%m-%d %H:%M:%S");
    render_markdown(book, enable_painter, timestamp.as_str())
}

} // verus!
