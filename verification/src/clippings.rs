//! Parser for Kindle-device style `My Clippings.txt` files, as written by
//! physical Kindles and by CrossInk firmware on the Xteink X3.
//!
//! Each clipping is a block terminated by a line of ten `=`:
//!
//! ```text
//! Title (Author)
//! - Your Highlight on Page 1 | 1: Introduction | Added on Sunday, September 6, 2026, 10:52 AM
//!
//! Highlighted text
//! ==========
//! ```
//!
//! Kindles put `Location 123-125` where CrossInk puts the chapter title, and
//! also emit `Your Note` and `Your Bookmark` blocks. The file is append-only,
//! so the same book appears many times and deleted clippings are never removed.
use crate::parser::{
    books_view, entries_view, entry_location, sections_view, Book, BookView, Bookmark,
    BookmarkView, Entry, EntryView, Highlight, HighlightView, Note, NoteView, Section,
    SectionView, Source,
};
use crate::text::{
    blank, chars_of, decimal, digit_pred, find_char, find_char_in, first_run, first_run_in,
    has_prefix, is_blank, join, lemma_find, lemma_rfind_char_before, lines, owned, parse_number,
    parse_u32, push_chars, push_decimal, push_joined, push_str, rfind_char, rfind_char_in, same,
    same_string, seqs, split_on, split_pieces, starts_with, string_from, trim, trimmed,
    trimmed_lines,
};
use vstd::prelude::*;
use vstd::slice::slice_subrange;
use vstd::slice::slice_to_vec;

verus! {

// ---------------------------------------------------------------------------
// Results
// ---------------------------------------------------------------------------

/// Result of parsing a clippings file: the books found plus any warnings about
/// entries that were skipped.
#[derive(Debug)]
pub struct ParsedClippings {
    pub books: Vec<Book>,
    pub warnings: Vec<String>,
}

/// A parsed clippings file as plain values.
pub struct ParsedView {
    pub books: Seq<BookView>,
    pub warnings: Seq<Seq<char>>,
}

/// The contents of a sequence of strings.
pub open spec fn strings_view(v: Seq<String>) -> Seq<Seq<char>> {
    v.map_values(|s: String| s@)
}

impl View for ParsedClippings {
    type V = ParsedView;

    open spec fn view(&self) -> ParsedView {
        ParsedView { books: books_view(self.books@), warnings: strings_view(self.warnings@) }
    }
}

/// The kind word of a metadata line.
#[derive(Debug, Clone, Copy, PartialEq, Eq, Structural)]
pub enum Kind {
    Highlight,
    Note,
    Bookmark,
}

/// What a metadata line says about its clipping.
pub struct Metadata {
    pub kind: Kind,
    pub page: Option<u32>,
    pub location: Option<u32>,
    pub chapter: Option<Vec<char>>,
}

/// Metadata as plain values.
pub struct MetadataView {
    pub kind: Kind,
    pub page: Option<u32>,
    pub location: Option<u32>,
    pub chapter: Option<Seq<char>>,
}

impl View for Metadata {
    type V = MetadataView;

    open spec fn view(&self) -> MetadataView {
        MetadataView {
            kind: self.kind,
            page: self.page,
            location: self.location,
            chapter: match self.chapter {
                Some(c) => Some(c@),
                None => None,
            },
        }
    }
}

/// One successfully parsed clipping, before grouping into books.
pub struct Clipping {
    pub title: String,
    pub author: String,
    pub chapter: Option<String>,
    pub entry: Entry,
}

/// A clipping as plain values.
pub struct ClippingView {
    pub title: Seq<char>,
    pub author: Seq<char>,
    pub chapter: Option<Seq<char>>,
    pub entry: EntryView,
}

impl View for Clipping {
    type V = ClippingView;

    open spec fn view(&self) -> ClippingView {
        ClippingView {
            title: self.title@,
            author: self.author@,
            chapter: crate::parser::opt_chars(self.chapter),
            entry: self.entry@,
        }
    }
}

/// What parsing one block gives: `Ok(None)` for a blank block, `Err` with a
/// reason for a block that looked like a clipping but could not be
/// understood.
pub open spec fn outcome_view(r: Result<Option<Clipping>, Vec<char>>) -> Result<
    Option<ClippingView>,
    Seq<char>,
> {
    match r {
        Ok(Some(c)) => Ok(Some(c@)),
        Ok(None) => Ok(None),
        Err(e) => Err(e@),
    }
}

// ---------------------------------------------------------------------------
// The format, as sequence functions
// ---------------------------------------------------------------------------

/// `s` between double quotes.
pub open spec fn quoted(s: Seq<char>) -> Seq<char> {
    seq!['"'] + s + seq!['"']
}

/// Identity of an entry for duplicate detection: text for highlights and
/// notes, position for bookmarks (which have no text).
pub enum DedupeKey {
    Highlight(Seq<char>),
    Note(Seq<char>),
    Bookmark(Option<u32>, Option<u32>),
}

pub open spec fn dedupe_key(e: EntryView) -> DedupeKey {
    match e {
        EntryView::Highlight(h) => DedupeKey::Highlight(h.text),
        EntryView::Note(n) => DedupeKey::Note(n.text),
        EntryView::Bookmark(b) => DedupeKey::Bookmark(b.page, b.location),
    }
}

/// `char::to_ascii_lowercase`.
pub open spec fn ascii_lower_char(c: char) -> char {
    if 'A' <= c && c <= 'Z' {
        ((c as u32) + 32) as char
    } else {
        c
    }
}

/// `str::to_ascii_lowercase`.
pub open spec fn ascii_lower(s: Seq<char>) -> Seq<char> {
    s.map_values(|c: char| ascii_lower_char(c))
}

/// First run of digits in `value` (`123-125` -> 123).
pub open spec fn leading_number_spec(value: Seq<char>) -> Option<u32> {
    match first_run(value, digit_pred()) {
        Some(run) => parse_u32(run),
        None => None,
    }
}

/// `Title (Author)` -> (`Title`, `Author`). The author is the trailing
/// parenthesised group, so titles with their own parentheses survive.
pub open spec fn split_title_author_spec(line: Seq<char>) -> (Seq<char>, Seq<char>) {
    let fallback = (line, "Unknown Author"@);
    if line.len() > 0 && line.last() == ')' {
        let inner = line.drop_last();
        match rfind_char(inner, '(') {
            Some(open) => {
                let title = trim(inner.subrange(0, open));
                let author = trim(inner.subrange(open + 1, inner.len() as int));
                if title.len() > 0 && author.len() > 0 {
                    (title, author)
                } else {
                    fallback
                }
            },
            None => fallback,
        }
    } else {
        fallback
    }
}

/// What one ` | `-separated segment of a metadata line changes: a page, a
/// Kindle location, or (CrossInk) a chapter title. Empty segments and the
/// trailing `Added on` timestamp change nothing; later segments win.
pub open spec fn apply_segment(m: MetadataView, raw: Seq<char>) -> MetadataView {
    let seg = trim(raw);
    if seg.len() == 0 || starts_with(seg, "Added on"@) {
        m
    } else {
        let lower = ascii_lower(seg);
        if starts_with(lower, "page "@) {
            MetadataView { page: leading_number_spec(lower.skip("page "@.len() as int)), ..m }
        } else if starts_with(lower, "location "@) {
            MetadataView {
                location: leading_number_spec(lower.skip("location "@.len() as int)),
                ..m
            }
        } else {
            MetadataView { chapter: Some(seg), ..m }
        }
    }
}

/// `apply_segment` as a spec closure, for folding over the segments.
pub open spec fn segment_step() -> spec_fn(MetadataView, Seq<char>) -> MetadataView {
    |m: MetadataView, s: Seq<char>| apply_segment(m, s)
}

/// The kind named by a metadata line's kind word.
pub open spec fn kind_of(word: Seq<char>) -> Option<Kind> {
    if word == "Highlight"@ {
        Some(Kind::Highlight)
    } else if word == "Note"@ {
        Some(Kind::Note)
    } else if word == "Bookmark"@ {
        Some(Kind::Bookmark)
    } else {
        None
    }
}

/// Parse `- Your Highlight on Page 1 | 1: Introduction | Added on ...`.
pub open spec fn parse_metadata_spec(line: Seq<char>) -> Result<MetadataView, Seq<char>> {
    let dash = "- "@;
    let your = "Your "@;
    if !(starts_with(line, dash) && starts_with(line.skip(dash.len() as int), your)) {
        Err(quoted(line) + " is not a metadata line"@)
    } else {
        let rest = line.skip(dash.len() as int).skip(your.len() as int);
        match find_char(rest, ' ') {
            None => Err(quoted(line) + " has no position"@),
            Some(sp) => {
                let word = rest.subrange(0, sp);
                let after = rest.subrange(sp + 1, rest.len() as int);
                match kind_of(word) {
                    None => Err("unknown clipping type "@ + quoted(word)),
                    Some(kind) => {
                        let position = if starts_with(after, "on "@) {
                            Some(after.skip("on "@.len() as int))
                        } else if starts_with(after, "at "@) {
                            Some(after.skip("at "@.len() as int))
                        } else {
                            None
                        };
                        match position {
                            None => Err(quoted(line) + " has no position"@),
                            Some(pos) => Ok(
                                split_on(pos, " | "@).fold_left(
                                    MetadataView {
                                        kind,
                                        page: None,
                                        location: None,
                                        chapter: None,
                                    },
                                    segment_step(),
                                ),
                            ),
                        }
                    },
                }
            },
        }
    }
}

/// Index of the first non-blank line at or after `i`.
pub open spec fn first_nonblank_from(ls: Seq<Seq<char>>, i: int) -> Option<int>
    decreases ls.len() - i,
{
    if i < 0 || i >= ls.len() {
        None
    } else if !is_blank(ls[i]) {
        Some(i)
    } else {
        first_nonblank_from(ls, i + 1)
    }
}

/// Index of the last non-blank line before `i`.
pub open spec fn last_nonblank_before(ls: Seq<Seq<char>>, i: int) -> Option<int>
    decreases i,
{
    if i <= 0 || i > ls.len() {
        None
    } else if !is_blank(ls[i - 1]) {
        Some(i - 1)
    } else {
        last_nonblank_before(ls, i - 1)
    }
}

/// Body text: the lines after the metadata line, with surrounding blank lines
/// removed and internal line breaks kept.
pub open spec fn collect_text_spec(body: Seq<Seq<char>>) -> Seq<char> {
    match (first_nonblank_from(body, 0), last_nonblank_before(body, body.len() as int)) {
        (Some(s), Some(e)) => join(body.subrange(s, e + 1), seq!['\n']),
        _ => Seq::empty(),
    }
}

/// The entry a clipping of kind `kind` with body `text` holds.
pub open spec fn clipping_entry(m: MetadataView, text: Seq<char>) -> EntryView {
    match m.kind {
        Kind::Highlight => EntryView::Highlight(
            HighlightView {
                color: "yellow"@,
                page: m.page,
                location: m.location,
                subheading: None,
                text,
            },
        ),
        Kind::Note => EntryView::Note(
            NoteView { page: m.page, location: m.location, subheading: None, text },
        ),
        Kind::Bookmark => EntryView::Bookmark(
            BookmarkView { page: m.page, location: m.location, subheading: None },
        ),
    }
}

/// Parse one block. `Ok(None)` is a blank block (nothing to warn about);
/// `Err` is a block that looked like a clipping but could not be understood.
pub open spec fn parse_block_spec(block: Seq<char>) -> Result<Option<ClippingView>, Seq<char>> {
    let ls = lines(block);
    match first_nonblank_from(ls, 0) {
        None => Ok(None),
        Some(t) => if t + 1 >= ls.len() {
            Err(quoted(trim(ls[t])) + " has no metadata line"@)
        } else {
            let (title, author) = split_title_author_spec(trim(ls[t]));
            match parse_metadata_spec(trim(ls[t + 1])) {
                Err(reason) => Err(reason),
                Ok(m) => {
                    let text = collect_text_spec(ls.subrange(t + 2, ls.len() as int));
                    if m.kind == Kind::Highlight && text.len() == 0 {
                        Err("empty highlight in "@ + quoted(title))
                    } else if m.kind == Kind::Note && text.len() == 0 {
                        Err("empty note in "@ + quoted(title))
                    } else {
                        Ok(
                            Some(
                                ClippingView {
                                    title,
                                    author,
                                    chapter: m.chapter,
                                    entry: clipping_entry(m, text),
                                },
                            ),
                        )
                    }
                },
            }
        },
    }
}

/// Whether a book already holds an entry with key `k`.
pub open spec fn book_has_key(b: BookView, k: DedupeKey) -> bool {
    exists|s: int, e: int|
        0 <= s < b.sections.len() && 0 <= e < b.sections[s].entries.len() && #[trigger] dedupe_key(
            b.sections[s].entries[e],
        ) == k
}

/// Index of the first section at or after `i` with the given heading.
pub open spec fn find_section_from(secs: Seq<SectionView>, heading: Seq<char>, i: int) -> Option<
    int,
>
    decreases secs.len() - i,
{
    if i < 0 || i >= secs.len() {
        None
    } else if secs[i].heading == heading {
        Some(i)
    } else {
        find_section_from(secs, heading, i + 1)
    }
}

/// The heading a clipping is filed under.
pub open spec fn heading_of(chapter: Option<Seq<char>>) -> Seq<char> {
    match chapter {
        Some(c) => c,
        None => "Highlights"@,
    }
}

/// Append `e` to the section named after `chapter` (the first one with that
/// heading), opening a new last section when there is none.
pub open spec fn push_entry_spec(b: BookView, chapter: Option<Seq<char>>, e: EntryView) -> BookView {
    let heading = heading_of(chapter);
    match find_section_from(b.sections, heading, 0) {
        Some(j) => BookView {
            sections: b.sections.update(
                j,
                SectionView { entries: b.sections[j].entries.push(e), ..b.sections[j] },
            ),
            ..b
        },
        None => BookView {
            sections: b.sections.push(SectionView { heading, entries: seq![e] }),
            ..b
        },
    }
}

/// Index of the first book at or after `i` with the given title and author.
pub open spec fn find_book_from(books: Seq<BookView>, title: Seq<char>, author: Seq<char>, i: int) -> Option<
    int,
>
    decreases books.len() - i,
{
    if i < 0 || i >= books.len() {
        None
    } else if books[i].title == title && books[i].author == author {
        Some(i)
    } else {
        find_book_from(books, title, author, i + 1)
    }
}

/// A book that has no entries yet.
pub open spec fn new_book(title: Seq<char>, author: Seq<char>) -> BookView {
    BookView {
        title,
        author,
        citation: Seq::empty(),
        source: Source::CrossinkClippings,
        sections: Seq::empty(),
    }
}

/// File a clipping into its book (by title and author, in order of first
/// appearance), dropping it when the book already has an entry with the same
/// key.
pub open spec fn add_clipping_spec(books: Seq<BookView>, c: ClippingView) -> Seq<BookView> {
    match find_book_from(books, c.title, c.author, 0) {
        Some(i) => if book_has_key(books[i], dedupe_key(c.entry)) {
            books
        } else {
            books.update(i, push_entry_spec(books[i], c.chapter, c.entry))
        },
        None => books.push(push_entry_spec(new_book(c.title, c.author), c.chapter, c.entry)),
    }
}

/// The warning for a skipped block (`n` counts blocks from 1).
pub open spec fn warning_text(n: nat, reason: Seq<char>) -> Seq<char> {
    "Skipped clipping "@ + decimal(n) + ": "@ + reason
}

/// The state after the first `n` blocks.
pub open spec fn fold_blocks(blocks: Seq<Seq<char>>, n: nat) -> ParsedView
    decreases n,
{
    if n == 0 {
        ParsedView { books: Seq::empty(), warnings: Seq::empty() }
    } else {
        let prev = fold_blocks(blocks, (n - 1) as nat);
        match parse_block_spec(blocks[n - 1]) {
            Ok(None) => prev,
            Err(reason) => ParsedView {
                warnings: prev.warnings.push(warning_text(n, reason)),
                ..prev
            },
            Ok(Some(c)) => ParsedView { books: add_clipping_spec(prev.books, c), ..prev },
        }
    }
}

/// Whether some entry of the book carries a Kindle location.
pub open spec fn has_location(b: BookView) -> bool {
    exists|s: int, e: int|
        0 <= s < b.sections.len() && 0 <= e < b.sections[s].entries.len() && (#[trigger] entry_location(
            b.sections[s].entries[e],
        )) is Some
}

/// A book whose entries carry Kindle Location numbers came from a real Kindle.
pub open spec fn detect_source_spec(b: BookView) -> Source {
    if has_location(b) {
        Source::KindleClippings
    } else {
        Source::CrossinkClippings
    }
}

/// The blocks of a clippings file: a leading byte-order mark is dropped, and
/// the rest is split at every line of ten `=`.
pub open spec fn blocks_of(content: Seq<char>) -> Seq<Seq<char>> {
    let body = if content.len() > 0 && content[0] == '\u{feff}' {
        content.drop_first()
    } else {
        content
    };
    split_on(body, "=========="@)
}

/// The whole parse: clippings grouped into books by (title, author) in order
/// of first appearance, one section per chapter (or a single "Highlights"
/// section when the dialect has no chapters), with exact duplicates within a
/// book dropped, and each book's source told from whether it has locations.
pub open spec fn parse_clippings_spec(content: Seq<char>) -> ParsedView {
    let blocks = blocks_of(content);
    let st = fold_blocks(blocks, blocks.len());
    ParsedView {
        books: st.books.map_values(|b: BookView| BookView { source: detect_source_spec(b), ..b }),
        warnings: st.warnings,
    }
}

// ---------------------------------------------------------------------------
// Line-level parsing
// ---------------------------------------------------------------------------

/// `char::to_ascii_lowercase`.
fn lower_ascii(c: char) -> (r: char)
    ensures
        r == ascii_lower_char(c),
{
    if 'A' <= c && c <= 'Z' {
        ((c as u8) + 32) as char
    } else {
        c
    }
}

/// `str::to_ascii_lowercase`.
pub fn ascii_lowercase(s: &[char]) -> (r: Vec<char>)
    ensures
        r@ == ascii_lower(s@),
{
    let mut out: Vec<char> = Vec::new();
    let mut i: usize = 0;
    while i < s.len()
        invariant
            i <= s@.len(),
            out@ =~= ascii_lower(s@.take(i as int)),
        decreases s@.len() - i,
    {
        out.push(lower_ascii(s[i]));
        assert(s@.take(i + 1) =~= s@.take(i as int).push(s@[i as int]));
        i = i + 1;
    }
    assert(s@.take(s@.len() as int) =~= s@);
    out
}

/// First run of digits in `value` (`123-125` -> 123).
pub fn leading_number(value: &[char]) -> (r: Option<u32>)
    ensures
        r == leading_number_spec(value@),
{
    match first_run_in(value, false) {
        Some(run) => parse_number(run),
        None => None,
    }
}

/// `"{s}"` followed by `tail`.
fn quoted_then(s: &[char], tail: &str) -> (r: Vec<char>)
    ensures
        r@ == quoted(s@) + tail@,
{
    let mut out: Vec<char> = Vec::new();
    out.push('"');
    push_chars(&mut out, s);
    out.push('"');
    push_str(&mut out, tail);
    assert(out@ =~= quoted(s@) + tail@);
    out
}

/// `head` followed by `"{s}"`.
fn then_quoted(head: &str, s: &[char]) -> (r: Vec<char>)
    ensures
        r@ == head@ + quoted(s@),
{
    let mut out = chars_of(head);
    out.push('"');
    push_chars(&mut out, s);
    out.push('"');
    assert(out@ =~= head@ + quoted(s@));
    out
}

/// `Title (Author)` -> (`Title`, `Author`). The author is the trailing
/// parenthesised group, so titles with their own parentheses survive.
pub fn split_title_author(line: &[char]) -> (r: (String, String))
    ensures
        (r.0@, r.1@) == split_title_author_spec(line@),
{
    let n = line.len();
    if n > 0 && line[n - 1] == ')' {
        let inner = slice_subrange(line, 0, n - 1);
        assert(inner@ =~= line@.drop_last());
        if let Some(open) = rfind_char_in(inner, '(') {
            proof {
                lemma_rfind_char_before(inner@, '(', inner@.len() as int);
            }
            let title = trimmed(slice_subrange(inner, 0, open));
            let author = trimmed(slice_subrange(inner, open + 1, inner.len()));
            if title.len() > 0 && author.len() > 0 {
                return (string_from(title), string_from(author));
            }
        }
    }
    (string_from(line), owned("Unknown Author"))
}

/// What one segment of a metadata line changes.
fn apply_segment_to(m: &mut Metadata, raw: &[char])
    ensures
        final(m)@ == apply_segment(old(m)@, raw@),
{
    let seg = trimmed(raw);
    let added = chars_of("Added on");
    if seg.len() == 0 || has_prefix(seg, added.as_slice()) {
        return ;
    }
    let lower = ascii_lowercase(seg);
    let page = chars_of("page ");
    let location = chars_of("location ");
    if has_prefix(lower.as_slice(), page.as_slice()) {
        let value = slice_subrange(lower.as_slice(), page.len(), lower.len());
        assert(value@ =~= lower@.skip(page@.len() as int));
        m.page = leading_number(value);
    } else if has_prefix(lower.as_slice(), location.as_slice()) {
        let value = slice_subrange(lower.as_slice(), location.len(), lower.len());
        assert(value@ =~= lower@.skip(location@.len() as int));
        m.location = leading_number(value);
    } else {
        m.chapter = Some(slice_to_vec(seg));
    }
}

/// Parse `- Your Highlight on Page 1 | 1: Introduction | Added on ...`.
///
/// The segments between the kind and the trailing `Added on` timestamp are
/// each either a page, a Kindle location range, or (CrossInk) a chapter title.
pub fn parse_metadata(line: &[char]) -> (r: Result<Metadata, Vec<char>>)
    ensures
        match r {
            Ok(m) => parse_metadata_spec(line@) == Ok::<MetadataView, Seq<char>>(m@),
            Err(e) => parse_metadata_spec(line@) == Err::<MetadataView, Seq<char>>(e@),
        },
{
    let dash = chars_of("- ");
    let your = chars_of("Your ");
    if !has_prefix(line, dash.as_slice()) {
        return Err(quoted_then(line, " is not a metadata line"));
    }
    let r1 = slice_subrange(line, dash.len(), line.len());
    assert(r1@ =~= line@.skip(dash@.len() as int));
    if !has_prefix(r1, your.as_slice()) {
        return Err(quoted_then(line, " is not a metadata line"));
    }
    let rest = slice_subrange(r1, your.len(), r1.len());
    assert(rest@ =~= line@.skip(dash@.len() as int).skip(your@.len() as int));
    let sp = match find_char_in(rest, ' ') {
        None => {
            return Err(quoted_then(line, " has no position"));
        },
        Some(k) => k,
    };
    proof {
        lemma_find(rest@, seq![' ']);
    }
    let word = slice_subrange(rest, 0, sp);
    let after = slice_subrange(rest, sp + 1, rest.len());
    let kind = if same(word, chars_of("Highlight").as_slice()) {
        Kind::Highlight
    } else if same(word, chars_of("Note").as_slice()) {
        Kind::Note
    } else if same(word, chars_of("Bookmark").as_slice()) {
        Kind::Bookmark
    } else {
        return Err(then_quoted("unknown clipping type ", word));
    };
    let on = chars_of("on ");
    let at = chars_of("at ");
    let pos = if has_prefix(after, on.as_slice()) {
        let p = slice_subrange(after, on.len(), after.len());
        assert(p@ =~= after@.skip(on@.len() as int));
        p
    } else if has_prefix(after, at.as_slice()) {
        let p = slice_subrange(after, at.len(), after.len());
        assert(p@ =~= after@.skip(at@.len() as int));
        p
    } else {
        return Err(quoted_then(line, " has no position"));
    };
    let bar = chars_of(" | ");
    let segs = split_pieces(pos, bar.as_slice());
    let ghost init = MetadataView { kind, page: None, location: None, chapter: None };
    let mut m = Metadata { kind, page: None, location: None, chapter: None };
    let mut i: usize = 0;
    while i < segs.len()
        invariant
            i <= segs@.len(),
            m@ == seqs(segs@).take(i as int).fold_left(init, segment_step()),
        decreases segs@.len() - i,
    {
        proof {
            let t = seqs(segs@).take(i + 1);
            assert(t.drop_last() =~= seqs(segs@).take(i as int));
            assert(t.last() == segs@[i as int]@);
        }
        apply_segment_to(&mut m, segs[i].as_slice());
        i = i + 1;
    }
    assert(seqs(segs@).take(segs@.len() as int) =~= seqs(segs@));
    Ok(m)
}

/// Body text: the lines after the metadata line, with surrounding blank lines
/// removed and internal line breaks kept.
pub fn collect_text(body: &[Vec<char>]) -> (r: Vec<char>)
    ensures
        r@ == collect_text_spec(seqs(body@)),
{
    let ghost ls = seqs(body@);
    let n = body.len();
    let mut s: usize = 0;
    while s < n && blank(body[s].as_slice())
        invariant
            n == body@.len(),
            ls == seqs(body@),
            s <= n,
            first_nonblank_from(ls, 0) == first_nonblank_from(ls, s as int),
        decreases n - s,
    {
        s = s + 1;
    }
    if s == n {
        return Vec::new();
    }
    let mut e: usize = n;
    while e > s + 1 && blank(body[e - 1].as_slice())
        invariant
            n == body@.len(),
            ls == seqs(body@),
            s < e <= n,
            last_nonblank_before(ls, n as int) == last_nonblank_before(ls, e as int),
        decreases e,
    {
        e = e - 1;
    }
    let mut out: Vec<char> = Vec::new();
    let nl = ['\n'];
    let part = slice_subrange(body, s, e);
    assert(seqs(part@) =~= ls.subrange(s as int, e as int));
    assert(nl@ =~= seq!['\n']);
    push_joined(&mut out, part, nl.as_slice());
    assert(out@ =~= join(ls.subrange(s as int, e as int), seq!['\n']));
    out
}

/// Parse one block. `Ok(None)` is a blank block (nothing to warn about);
/// `Err` is a block that looked like a clipping but could not be understood.
pub fn parse_block(block: &[char]) -> (r: Result<Option<Clipping>, Vec<char>>)
    ensures
        outcome_view(r) == parse_block_spec(block@),
{
    let ls = trimmed_lines(block);
    let ghost lv = seqs(ls@);
    let n = ls.len();
    let mut t: usize = 0;
    while t < n && blank(ls[t].as_slice())
        invariant
            n == ls@.len(),
            lv == seqs(ls@),
            t <= n,
            first_nonblank_from(lv, 0) == first_nonblank_from(lv, t as int),
        decreases n - t,
    {
        t = t + 1;
    }
    if t == n {
        return Ok(None);
    }
    if t + 1 >= n {
        return Err(quoted_then(trimmed(ls[t].as_slice()), " has no metadata line"));
    }
    let (title, author) = split_title_author(trimmed(ls[t].as_slice()));
    let meta = match parse_metadata(trimmed(ls[t + 1].as_slice())) {
        Ok(m) => m,
        Err(e) => {
            return Err(e);
        },
    };
    let rest = slice_subrange(ls.as_slice(), t + 2, n);
    assert(seqs(rest@) =~= lv.subrange(t + 2, n as int));
    let text = collect_text(rest);
    let title_chars = chars_of(title.as_str());
    let chapter = match meta.chapter {
        Some(c) => Some(string_from(c.as_slice())),
        None => None,
    };
    let entry = match meta.kind {
        Kind::Highlight => {
            if text.len() == 0 {
                return Err(then_quoted("empty highlight in ", title_chars.as_slice()));
            }
            Entry::Highlight(
                Highlight {
                    color: owned("yellow"),
                    page: meta.page,
                    location: meta.location,
                    subheading: None,
                    text: string_from(text.as_slice()),
                },
            )
        },
        Kind::Note => {
            if text.len() == 0 {
                return Err(then_quoted("empty note in ", title_chars.as_slice()));
            }
            Entry::Note(
                Note {
                    page: meta.page,
                    location: meta.location,
                    subheading: None,
                    text: string_from(text.as_slice()),
                },
            )
        },
        Kind::Bookmark => Entry::Bookmark(
            Bookmark { page: meta.page, location: meta.location, subheading: None },
        ),
    };
    Ok(Some(Clipping { title, author, chapter, entry }))
}

// ---------------------------------------------------------------------------
// Grouping into books
// ---------------------------------------------------------------------------

fn same_opt(a: Option<u32>, b: Option<u32>) -> (r: bool)
    ensures
        r == (a == b),
{
    match (a, b) {
        (Some(x), Some(y)) => x == y,
        (None, None) => true,
        _ => false,
    }
}

/// Whether two entries are duplicates of each other.
pub fn same_dedupe_key(a: &Entry, b: &Entry) -> (r: bool)
    ensures
        r == (dedupe_key(a@) == dedupe_key(b@)),
{
    match (a, b) {
        (Entry::Highlight(x), Entry::Highlight(y)) => same_string(&x.text, &y.text),
        (Entry::Note(x), Entry::Note(y)) => same_string(&x.text, &y.text),
        (Entry::Bookmark(x), Entry::Bookmark(y)) => same_opt(x.page, y.page) && same_opt(
            x.location,
            y.location,
        ),
        _ => false,
    }
}

/// Whether the book already holds a duplicate of `e`.
pub fn holds_duplicate(book: &Book, e: &Entry) -> (r: bool)
    ensures
        r == book_has_key(book@, dedupe_key(e@)),
{
    let ghost bv = book@;
    let ghost k = dedupe_key(e@);
    let mut s: usize = 0;
    while s < book.sections.len()
        invariant
            bv == book@,
            k == dedupe_key(e@),
            s <= book.sections@.len(),
            forall|si: int, ei: int|
                0 <= si < s && 0 <= ei < bv.sections[si].entries.len() ==> #[trigger] dedupe_key(
                    bv.sections[si].entries[ei],
                ) != k,
        decreases book.sections@.len() - s,
    {
        let sec = &book.sections[s];
        assert(bv.sections[s as int] == sec@);
        let mut j: usize = 0;
        while j < sec.entries.len()
            invariant
                bv == book@,
                k == dedupe_key(e@),
                s < book.sections@.len(),
                sec == &book.sections@[s as int],
                bv.sections[s as int] == sec@,
                j <= sec.entries@.len(),
                forall|si: int, ei: int|
                    0 <= si < s && 0 <= ei < bv.sections[si].entries.len() ==> #[trigger] dedupe_key(
                        bv.sections[si].entries[ei],
                    ) != k,
                forall|ei: int|
                    0 <= ei < j ==> #[trigger] dedupe_key(bv.sections[s as int].entries[ei]) != k,
            decreases sec.entries@.len() - j,
        {
            assert(bv.sections[s as int].entries[j as int] == sec.entries@[j as int]@);
            if same_dedupe_key(&sec.entries[j], e) {
                assert(dedupe_key(bv.sections[s as int].entries[j as int]) == k);
                return true;
            }
            j = j + 1;
        }
        s = s + 1;
    }
    false
}

/// Append `entry` to the section named after `chapter`, opening it when the
/// book has no such section yet.
pub fn push_entry(book: &mut Book, chapter: Option<String>, entry: Entry)
    ensures
        final(book)@ == push_entry_spec(old(book)@, crate::parser::opt_chars(chapter), entry@),
{
    let heading = match chapter {
        Some(c) => c,
        None => owned("Highlights"),
    };
    let ghost bv = book@;
    assert(heading@ == heading_of(crate::parser::opt_chars(chapter)));
    let mut j: usize = 0;
    while j < book.sections.len() && !same_string(&book.sections[j].heading, &heading)
        invariant
            bv == book@,
            j <= book.sections@.len(),
            find_section_from(bv.sections, heading@, 0) == find_section_from(
                bv.sections,
                heading@,
                j as int,
            ),
        decreases book.sections@.len() - j,
    {
        assert(bv.sections[j as int] == book.sections@[j as int]@);
        j = j + 1;
    }
    if j < book.sections.len() {
        assert(bv.sections[j as int] == book.sections@[j as int]@);
        assert(find_section_from(bv.sections, heading@, 0) == Some(j as int));
        let ghost e = entry@;
        book.sections[j].entries.push(entry);
        assert(entries_view(book.sections@[j as int].entries@) =~= bv.sections[j as int].entries.push(e));
        assert(book@.sections =~= bv.sections.update(
            j as int,
            SectionView { entries: bv.sections[j as int].entries.push(e), ..bv.sections[j as int] },
        ));
    } else {
        let ghost e = entry@;
        let ghost h = heading@;
        let sec = Section { heading, entries: vec![entry] };
        assert(entries_view(sec.entries@) =~= seq![e]);
        book.sections.push(sec);
        assert(book@.sections =~= bv.sections.push(SectionView { heading: h, entries: seq![e] }));
    }
}

/// File a clipping into its book, dropping exact duplicates.
pub fn add_clipping(books: &mut Vec<Book>, clip: Clipping)
    ensures
        books_view(final(books)@) == add_clipping_spec(books_view(old(books)@), clip@),
{
    let ghost bv = books_view(books@);
    let ghost cv = clip@;
    let mut i: usize = 0;
    while i < books.len() && !(same_string(&books[i].title, &clip.title) && same_string(
        &books[i].author,
        &clip.author,
    ))
        invariant
            bv == books_view(books@),
            cv == clip@,
            i <= books@.len(),
            find_book_from(bv, cv.title, cv.author, 0) == find_book_from(
                bv,
                cv.title,
                cv.author,
                i as int,
            ),
        decreases books@.len() - i,
    {
        i = i + 1;
    }
    if i < books.len() {
        assert(find_book_from(bv, cv.title, cv.author, 0) == Some(i as int));
        if holds_duplicate(&books[i], &clip.entry) {
            return ;
        }
        push_entry(&mut books[i], clip.chapter, clip.entry);
        assert(books_view(books@) =~= bv.update(
            i as int,
            push_entry_spec(bv[i as int], cv.chapter, cv.entry),
        ));
    } else {
        let book = Book {
            title: clip.title,
            author: clip.author,
            citation: String::new(),
            source: Source::CrossinkClippings,
            sections: Vec::new(),
        };
        assert(book.citation@ =~= Seq::<char>::empty());
        assert(sections_view(book.sections@) =~= Seq::<SectionView>::empty());
        assert(book@ == new_book(cv.title, cv.author));
        books.push(book);
        let last = books.len() - 1;
        push_entry(&mut books[last], clip.chapter, clip.entry);
        assert(books_view(books@) =~= bv.push(
            push_entry_spec(new_book(cv.title, cv.author), cv.chapter, cv.entry),
        ));
    }
}

/// A book whose entries carry Kindle Location numbers came from a real Kindle.
pub fn detect_source(book: &Book) -> (r: Source)
    ensures
        r == detect_source_spec(book@),
{
    let ghost bv = book@;
    let mut s: usize = 0;
    while s < book.sections.len()
        invariant
            bv == book@,
            s <= book.sections@.len(),
            forall|si: int, ei: int|
                0 <= si < s && 0 <= ei < bv.sections[si].entries.len() ==> (
                #[trigger] entry_location(bv.sections[si].entries[ei])) is None,
        decreases book.sections@.len() - s,
    {
        let sec = &book.sections[s];
        assert(bv.sections[s as int] == sec@);
        let mut j: usize = 0;
        while j < sec.entries.len()
            invariant
                bv == book@,
                s < book.sections@.len(),
                sec == &book.sections@[s as int],
                bv.sections[s as int] == sec@,
                j <= sec.entries@.len(),
                forall|si: int, ei: int|
                    0 <= si < s && 0 <= ei < bv.sections[si].entries.len() ==> (
                    #[trigger] entry_location(bv.sections[si].entries[ei])) is None,
                forall|ei: int|
                    0 <= ei < j ==> (#[trigger] entry_location(
                        bv.sections[s as int].entries[ei],
                    )) is None,
            decreases sec.entries@.len() - j,
        {
            assert(bv.sections[s as int].entries[j as int] == sec.entries@[j as int]@);
            let located = match &sec.entries[j] {
                Entry::Highlight(h) => h.location.is_some(),
                Entry::Note(n) => n.location.is_some(),
                Entry::Bookmark(b) => b.location.is_some(),
            };
            if located {
                assert((entry_location(bv.sections[s as int].entries[j as int])) is Some);
                return Source::KindleClippings;
            }
            j = j + 1;
        }
        s = s + 1;
    }
    Source::CrossinkClippings
}

/// Parse a whole `My Clippings.txt`, grouping clippings into books by
/// (title, author) in order of first appearance, one section per chapter (or a
/// single "Highlights" section when the dialect has no chapters), with exact
/// duplicates within a book dropped.
pub fn parse_clippings(content: &str) -> (r: ParsedClippings)
    ensures
        r@ == parse_clippings_spec(content@),
{
    let all = chars_of(content);
    let body = if all.len() > 0 && all[0] == '\u{feff}' {
        let b = slice_subrange(all.as_slice(), 1, all.len());
        assert(b@ =~= all@.drop_first());
        b
    } else {
        all.as_slice()
    };
    let sep = chars_of("==========");
    let blocks = split_pieces(body, sep.as_slice());
    let ghost bs = seqs(blocks@);
    assert(bs == blocks_of(content@));
    let mut books: Vec<Book> = Vec::new();
    let mut warnings: Vec<String> = Vec::new();
    let mut i: usize = 0;
    while i < blocks.len()
        invariant
            bs == seqs(blocks@),
            i <= blocks@.len(),
            books_view(books@) == fold_blocks(bs, i as nat).books,
            strings_view(warnings@) == fold_blocks(bs, i as nat).warnings,
        decreases blocks@.len() - i,
    {
        assert(bs[i as int] == blocks@[i as int]@);
        match parse_block(blocks[i].as_slice()) {
            Ok(None) => {},
            Err(reason) => {
                let mut w = chars_of("Skipped clipping ");
                push_decimal(&mut w, (i + 1) as u64);
                push_str(&mut w, ": ");
                push_chars(&mut w, reason.as_slice());
                let ws = string_from(w.as_slice());
                let ghost before = strings_view(warnings@);
                warnings.push(ws);
                assert(strings_view(warnings@) =~= before.push(warning_text((i + 1) as nat, reason@)));
            },
            Ok(Some(clip)) => {
                add_clipping(&mut books, clip);
            },
        }
        i = i + 1;
    }
    let ghost st = fold_blocks(bs, bs.len());
    let mut k: usize = 0;
    while k < books.len()
        invariant
            k <= books@.len(),
            books@.len() == st.books.len(),
            forall|j: int|
                0 <= j < k ==> #[trigger] books_view(books@)[j] == (BookView {
                    source: detect_source_spec(st.books[j]),
                    ..st.books[j]
                }),
            forall|j: int| k <= j < books@.len() ==> #[trigger] books_view(books@)[j] == st.books[j],
        decreases books@.len() - k,
    {
        let src = detect_source(&books[k]);
        let ghost prev = books@;
        books[k].source = src;
        proof {
            assert forall|j: int| 0 <= j < books@.len() && j != k implies books@[j] == prev[j] by {}
            assert(books_view(prev)[k as int] == prev[k as int]@);
            assert(books_view(prev)[k as int] == st.books[k as int]);
            assert(books@[k as int].sections == prev[k as int].sections);
            assert(books@[k as int]@ == (BookView { source: src, ..prev[k as int]@ }));
            assert(books_view(books@)[k as int] == (BookView {
                source: detect_source_spec(st.books[k as int]),
                ..st.books[k as int]
            }));
            assert forall|j: int| 0 <= j < books@.len() && j != k implies #[trigger] books_view(
                books@,
            )[j] == books_view(prev)[j] by {}
        }
        k = k + 1;
    }
    assert(books_view(books@) =~= st.books.map_values(
        |b: BookView| BookView { source: detect_source_spec(b), ..b },
    ));
    ParsedClippings { books, warnings }
}

} // verus!
