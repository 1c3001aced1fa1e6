//! The book model shared by both importers, and the parser for Kindle macOS
//! "Export Notebook" HTML files.
use crate::text::{
    chars_of, contains, find, find_char, find_char_in, find_in, first_run, first_run_in,
    has_prefix, numeric_pred, owned, parse_number, parse_u32, same, starts_with, string_from, trim,
    trimmed, lemma_find,
};
use vstd::prelude::*;
use vstd::slice::slice_subrange;

verus! {

/// Where a book's highlights came from. Written to the `source` frontmatter
/// field so notes from different pipelines can be told apart in Obsidian.
#[derive(Debug, Clone, Copy, PartialEq, Eq, Structural)]
pub enum Source {
    /// Kindle macOS app "Export Notebook" HTML.
    KindleExport,
    /// `My Clippings.txt` written by a physical Kindle (has Location fields).
    KindleClippings,
    /// `My Clippings.txt` written by CrossInk firmware (chapter titles, no Locations).
    CrossinkClippings,
}

/// The frontmatter spelling of a source.
pub open spec fn source_name(s: Source) -> Seq<char> {
    match s {
        Source::KindleExport => "kindle-export"@,
        Source::KindleClippings => "kindle-clippings"@,
        Source::CrossinkClippings => "crossink-clippings"@,
    }
}

impl Source {
    pub fn as_str(self) -> (r: &'static str)
        ensures
            r@ == source_name(self),
    {
        match self {
            Source::KindleExport => "kindle-export",
            Source::KindleClippings => "kindle-clippings",
            Source::CrossinkClippings => "crossink-clippings",
        }
    }
}

#[derive(Debug, Clone)]
pub struct Book {
    pub title: String,
    pub author: String,
    pub citation: String,
    pub source: Source,
    pub sections: Vec<Section>,
}

#[derive(Debug, Clone)]
pub struct Section {
    pub heading: String,
    pub entries: Vec<Entry>,
}

#[derive(Debug, Clone)]
pub enum Entry {
    Highlight(Highlight),
    Note(Note),
    Bookmark(Bookmark),
}

#[derive(Debug, Clone)]
pub struct Highlight {
    pub color: String,
    pub page: Option<u32>,
    pub location: Option<u32>,
    pub subheading: Option<String>,
    pub text: String,
}

#[derive(Debug, Clone)]
pub struct Note {
    pub page: Option<u32>,
    pub location: Option<u32>,
    pub subheading: Option<String>,
    pub text: String,
}

#[derive(Debug, Clone)]
pub struct Bookmark {
    pub page: Option<u32>,
    pub location: Option<u32>,
    pub subheading: Option<String>,
}

/// The contents of an optional string.
pub open spec fn opt_chars(o: Option<String>) -> Option<Seq<char>> {
    match o {
        Some(s) => Some(s@),
        None => None,
    }
}

/// A highlight as plain values.
pub struct HighlightView {
    pub color: Seq<char>,
    pub page: Option<u32>,
    pub location: Option<u32>,
    pub subheading: Option<Seq<char>>,
    pub text: Seq<char>,
}

/// A note as plain values.
pub struct NoteView {
    pub page: Option<u32>,
    pub location: Option<u32>,
    pub subheading: Option<Seq<char>>,
    pub text: Seq<char>,
}

/// A bookmark as plain values.
pub struct BookmarkView {
    pub page: Option<u32>,
    pub location: Option<u32>,
    pub subheading: Option<Seq<char>>,
}

/// An entry as plain values.
pub enum EntryView {
    Highlight(HighlightView),
    Note(NoteView),
    Bookmark(BookmarkView),
}

/// A section as plain values.
pub struct SectionView {
    pub heading: Seq<char>,
    pub entries: Seq<EntryView>,
}

/// A book as plain values.
pub struct BookView {
    pub title: Seq<char>,
    pub author: Seq<char>,
    pub citation: Seq<char>,
    pub source: Source,
    pub sections: Seq<SectionView>,
}

impl View for Highlight {
    type V = HighlightView;

    open spec fn view(&self) -> HighlightView {
        HighlightView {
            color: self.color@,
            page: self.page,
            location: self.location,
            subheading: opt_chars(self.subheading),
            text: self.text@,
        }
    }
}

impl View for Note {
    type V = NoteView;

    open spec fn view(&self) -> NoteView {
        NoteView {
            page: self.page,
            location: self.location,
            subheading: opt_chars(self.subheading),
            text: self.text@,
        }
    }
}

impl View for Bookmark {
    type V = BookmarkView;

    open spec fn view(&self) -> BookmarkView {
        BookmarkView { page: self.page, location: self.location, subheading: opt_chars(self.subheading) }
    }
}

impl View for Entry {
    type V = EntryView;

    open spec fn view(&self) -> EntryView {
        match self {
            Entry::Highlight(h) => EntryView::Highlight(h@),
            Entry::Note(n) => EntryView::Note(n@),
            Entry::Bookmark(b) => EntryView::Bookmark(b@),
        }
    }
}

/// The contents of a sequence of entries.
pub open spec fn entries_view(v: Seq<Entry>) -> Seq<EntryView> {
    v.map_values(|e: Entry| e@)
}

impl View for Section {
    type V = SectionView;

    open spec fn view(&self) -> SectionView {
        SectionView { heading: self.heading@, entries: entries_view(self.entries@) }
    }
}

/// The contents of a sequence of sections.
pub open spec fn sections_view(v: Seq<Section>) -> Seq<SectionView> {
    v.map_values(|s: Section| s@)
}

impl View for Book {
    type V = BookView;

    open spec fn view(&self) -> BookView {
        BookView {
            title: self.title@,
            author: self.author@,
            citation: self.citation@,
            source: self.source,
            sections: sections_view(self.sections@),
        }
    }
}

/// The contents of a sequence of books.
pub open spec fn books_view(v: Seq<Book>) -> Seq<BookView> {
    v.map_values(|b: Book| b@)
}

/// The page an entry carries.
pub open spec fn entry_page(e: EntryView) -> Option<u32> {
    match e {
        EntryView::Highlight(h) => h.page,
        EntryView::Note(n) => n.page,
        EntryView::Bookmark(b) => b.page,
    }
}

/// The location an entry carries.
pub open spec fn entry_location(e: EntryView) -> Option<u32> {
    match e {
        EntryView::Highlight(h) => h.location,
        EntryView::Note(n) => n.location,
        EntryView::Bookmark(b) => b.location,
    }
}

// ---------------------------------------------------------------------------
// Note headings
// ---------------------------------------------------------------------------

/// Why a note heading could not be read.
#[derive(Debug)]
pub enum EntryError {
    /// The heading starts with none of "Highlight", "Note", "Bookmark".
    UnknownEntryType(String),
    /// The heading has a "Location " with no number after it.
    LocationUnreadable,
}

/// Why a note heading could not be read, as plain values.
pub enum EntryErrorView {
    UnknownEntryType(Seq<char>),
    LocationUnreadable,
}

impl View for EntryError {
    type V = EntryErrorView;

    open spec fn view(&self) -> EntryErrorView {
        match self {
            EntryError::UnknownEntryType(h) => EntryErrorView::UnknownEntryType(h@),
            EntryError::LocationUnreadable => EntryErrorView::LocationUnreadable,
        }
    }
}

/// Reading the color between `(` and `)` would slice backwards: the first
/// `)` comes before the first `(`. The color extraction panics there.
pub open spec fn color_slice_reversed(t: Seq<char>) -> bool {
    match (find_char(t, '('), find_char(t, ')')) {
        (Some(open), Some(close)) => close <= open,
        _ => false,
    }
}

/// The named highlight colors, in the order the fallback search tries them.
pub open spec fn known_colors() -> Seq<Seq<char>> {
    seq!["yellow"@, "pink"@, "blue"@, "orange"@, "green"@, "aqua"@]
}

/// The first of `colors` (from index `i` on) that occurs in `t`.
pub open spec fn first_contained(t: Seq<char>, colors: Seq<Seq<char>>, i: int) -> Option<Seq<char>>
    decreases colors.len() - i,
{
    if i < 0 || i >= colors.len() {
        None
    } else if contains(t, colors[i]) {
        Some(colors[i])
    } else {
        first_contained(t, colors, i + 1)
    }
}

/// Color from "Highlight(yellow)": the text between the first `(` and the
/// first `)`; failing that, the first known color word the text contains.
pub open spec fn highlight_color_spec(t: Seq<char>) -> Option<Seq<char>> {
    match (find_char(t, '('), find_char(t, ')')) {
        (Some(open), Some(close)) => Some(t.subrange(open + 1, close)),
        _ => first_contained(t, known_colors(), 0),
    }
}

/// The number in the first run of numeric characters of `s`.
pub open spec fn first_number(s: Seq<char>) -> Option<u32> {
    match first_run(s, numeric_pred()) {
        Some(run) => parse_u32(run),
        None => None,
    }
}

/// "Page XX" and "Location XX" anywhere in a heading. A "Location " with no
/// number after it is an error; a "Page " with none is no page.
pub open spec fn page_location_spec(t: Seq<char>) -> Result<(Option<u32>, Option<u32>), ()> {
    let page = match find(t, "Page "@) {
        Some(p) => first_number(t.skip(p + "Page "@.len())),
        None => None,
    };
    match find(t, "Location "@) {
        None => Ok((page, None)),
        Some(l) => match first_number(t.skip(l + "Location "@.len())) {
            Some(v) => Ok((page, Some(v))),
            None => Err(()),
        },
    }
}

/// Subheading from "Note - Getting stuck in organisations > Page 16": the
/// trimmed text between the first " - " and the first " > " after it.
pub open spec fn subheading_spec(t: Seq<char>) -> Option<Seq<char>> {
    match find(t, " - "@) {
        Some(d) => {
            let after = t.skip(d + " - "@.len());
            match find(after, " > "@) {
                Some(g) => Some(trim(after.take(g))),
                None => None,
            }
        },
        None => None,
    }
}

/// Reading this note heading would panic: a "Highlight" heading whose color
/// parentheses are reversed.
pub open spec fn entry_panics(heading_text: Seq<char>) -> bool {
    let h = trim(heading_text);
    starts_with(h, "Highlight"@) && color_slice_reversed(h)
}

/// The text of an entry, or the empty text.
pub open spec fn text_or_empty(text: Option<Seq<char>>) -> Seq<char> {
    match text {
        Some(t) => t,
        None => Seq::empty(),
    }
}

/// The entry a note heading (and its optional text) describes.
pub open spec fn parse_entry_spec(heading_text: Seq<char>, text: Option<Seq<char>>) -> Result<
    EntryView,
    EntryErrorView,
> {
    let h = trim(heading_text);
    if starts_with(h, "Highlight"@) {
        match page_location_spec(h) {
            Err(_) => Err(EntryErrorView::LocationUnreadable),
            Ok((page, location)) => Ok(
                EntryView::Highlight(
                    HighlightView {
                        color: match highlight_color_spec(h) {
                            Some(c) => c,
                            None => "yellow"@,
                        },
                        page,
                        location,
                        subheading: subheading_spec(h),
                        text: text_or_empty(text),
                    },
                ),
            ),
        }
    } else if starts_with(h, "Note"@) {
        match page_location_spec(h) {
            Err(_) => Err(EntryErrorView::LocationUnreadable),
            Ok((page, location)) => Ok(
                EntryView::Note(
                    NoteView {
                        page,
                        location,
                        subheading: subheading_spec(h),
                        text: text_or_empty(text),
                    },
                ),
            ),
        }
    } else if starts_with(h, "Bookmark"@) {
        match page_location_spec(h) {
            Err(_) => Err(EntryErrorView::LocationUnreadable),
            Ok((page, location)) => Ok(
                EntryView::Bookmark(BookmarkView { page, location, subheading: subheading_spec(h) }),
            ),
        }
    } else {
        Err(EntryErrorView::UnknownEntryType(h))
    }
}

/// Color from "Highlight(yellow)", or from a color word in the text.
pub fn extract_highlight_color(text: &str) -> (r: Option<String>)
    requires
        !color_slice_reversed(text@),
    ensures
        opt_chars(r) == highlight_color_spec(text@),
{
    let t = chars_of(text);
    let ts = t.as_slice();
    if let Some(open) = find_char_in(ts, '(') {
        if let Some(close) = find_char_in(ts, ')') {
            proof {
                lemma_find(t@, seq!['(']);
                lemma_find(t@, seq![')']);
            }
            return Some(string_from(slice_subrange(ts, open + 1, close)));
        }
    }
    let colors = [
        owned("yellow"),
        owned("pink"),
        owned("blue"),
        owned("orange"),
        owned("green"),
        owned("aqua"),
    ];
    let ghost kc = known_colors();
    assert(colors@.map_values(|c: String| c@) =~= kc);
    let mut i: usize = 0;
    while i < 6
        invariant
            i <= 6,
            kc == known_colors(),
            colors@.len() == 6,
            forall|j: int| 0 <= j < 6 ==> (#[trigger] colors@[j])@ == kc[j],
            highlight_color_spec(text@) == first_contained(t@, kc, i as int),
            t@ == text@,
            ts@ == t@,
        decreases 6 - i,
    {
        let c = chars_of(colors[i].as_str());
        if find_in(ts, c.as_slice()).is_some() {
            return Some(owned_copy(&colors[i]));
        }
        i = i + 1;
    }
    None
}

/// A copy of a string.
fn owned_copy(s: &String) -> (r: String)
    ensures
        r@ == s@,
{
    let v = chars_of(s.as_str());
    string_from(v.as_slice())
}

/// The number in the first run of numeric characters of `s`.
fn first_number_in(s: &[char]) -> (r: Option<u32>)
    ensures
        r == first_number(s@),
{
    match first_run_in(s, true) {
        Some(run) => parse_number(run),
        None => None,
    }
}

/// The rest of `t` after the first occurrence of `pat`.
fn after_first<'a>(t: &'a [char], pat: &[char]) -> (r: Option<&'a [char]>)
    ensures
        match find(t@, pat@) {
            Some(k) => r matches Some(x) && x@ == t@.skip(k + pat@.len()),
            None => r is None,
        },
{
    match find_in(t, pat) {
        Some(k) => {
            proof {
                lemma_find(t@, pat@);
            }
            let tl = t.len();
            assert(k + pat@.len() <= tl);
            let rest = slice_subrange(t, k + pat.len(), tl);
            assert(rest@ =~= t@.skip(k + pat@.len()));
            Some(rest)
        },
        None => None,
    }
}

/// "Page XX" and "Location XX" anywhere in a heading.
pub fn extract_page_location(text: &str) -> (r: Result<(Option<u32>, Option<u32>), EntryError>)
    ensures
        match r {
            Ok(pl) => page_location_spec(text@) == Ok::<(Option<u32>, Option<u32>), ()>(pl),
            Err(e) => page_location_spec(text@) is Err && e@ == EntryErrorView::LocationUnreadable,
        },
{
    let t = chars_of(text);
    let page_pat = chars_of("Page ");
    let loc_pat = chars_of("Location ");
    let page = match after_first(t.as_slice(), page_pat.as_slice()) {
        Some(rest) => first_number_in(rest),
        None => None,
    };
    match after_first(t.as_slice(), loc_pat.as_slice()) {
        None => Ok((page, None)),
        Some(rest) => match first_number_in(rest) {
            Some(v) => Ok((page, Some(v))),
            None => Err(EntryError::LocationUnreadable),
        },
    }
}

/// Subheading from "Note - Getting stuck in organisations > Page 16".
pub fn extract_subheading(text: &str) -> (r: Option<String>)
    ensures
        opt_chars(r) == subheading_spec(text@),
{
    let t = chars_of(text);
    let dash = chars_of(" - ");
    let gt = chars_of(" > ");
    match after_first(t.as_slice(), dash.as_slice()) {
        Some(after) => match find_in(after, gt.as_slice()) {
            Some(g) => {
                proof {
                    lemma_find(after@, gt@);
                }
                let head = slice_subrange(after, 0, g);
                assert(head@ =~= after@.take(g as int));
                Some(string_from(trimmed(head)))
            },
            None => None,
        },
        None => None,
    }
}

/// Read one note heading ("Highlight(yellow) - Page 11 · Location 108",
/// "Note - ...", "Bookmark - ...") and its optional text.
pub fn parse_entry(heading_text: &str, text: Option<String>) -> (r: Result<Entry, EntryError>)
    requires
        !entry_panics(heading_text@),
    ensures
        match r {
            Ok(e) => parse_entry_spec(heading_text@, opt_chars(text)) == Ok::<
                EntryView,
                EntryErrorView,
            >(e@),
            Err(e) => parse_entry_spec(heading_text@, opt_chars(text)) == Err::<
                EntryView,
                EntryErrorView,
            >(e@),
        },
{
    let hv = chars_of(heading_text);
    let hs = trimmed(hv.as_slice());
    let heading = string_from(hs);
    let h = heading.as_str();
    let ghost tv = text_or_empty(opt_chars(text));
    let body = match text {
        Some(t) => t,
        None => String::new(),
    };
    assert(body@ == tv);
    if has_prefix(hs, chars_of("Highlight").as_slice()) {
        let color = match extract_highlight_color(h) {
            Some(c) => c,
            None => owned("yellow"),
        };
        let (page, location) = match extract_page_location(h) {
            Ok(pl) => pl,
            Err(e) => {
                return Err(e);
            },
        };
        let subheading = extract_subheading(h);
        Ok(Entry::Highlight(Highlight { color, page, location, subheading, text: body }))
    } else if has_prefix(hs, chars_of("Note").as_slice()) {
        let (page, location) = match extract_page_location(h) {
            Ok(pl) => pl,
            Err(e) => {
                return Err(e);
            },
        };
        let subheading = extract_subheading(h);
        Ok(Entry::Note(Note { page, location, subheading, text: body }))
    } else if has_prefix(hs, chars_of("Bookmark").as_slice()) {
        let (page, location) = match extract_page_location(h) {
            Ok(pl) => pl,
            Err(e) => {
                return Err(e);
            },
        };
        let subheading = extract_subheading(h);
        Ok(Entry::Bookmark(Bookmark { page, location, subheading }))
    } else {
        Err(EntryError::UnknownEntryType(heading))
    }
}

// ---------------------------------------------------------------------------
// The notebook body
// ---------------------------------------------------------------------------

/// One child element of the notebook's body container: its `class`
/// attribute, if it has one, and its text content.
#[derive(Debug)]
pub struct HtmlBlock {
    pub class: Option<String>,
    pub text: String,
}

/// A body element as plain values.
pub struct HtmlBlockView {
    pub class: Option<Seq<char>>,
    pub text: Seq<char>,
}

impl View for HtmlBlock {
    type V = HtmlBlockView;

    open spec fn view(&self) -> HtmlBlockView {
        HtmlBlockView { class: opt_chars(self.class), text: self.text@ }
    }
}

/// The contents of a sequence of body elements.
pub open spec fn blocks_view(v: Seq<HtmlBlock>) -> Seq<HtmlBlockView> {
    v.map_values(|b: HtmlBlock| b@)
}

/// The class of an element, or the empty string when it has none.
pub open spec fn class_of(b: HtmlBlockView) -> Seq<char> {
    match b.class {
        Some(c) => c,
        None => Seq::empty(),
    }
}

/// Where the walk over the body elements stands: the finished sections, the
/// section being filled, and a note heading whose text has not arrived yet.
pub struct WalkState {
    pub done: Seq<SectionView>,
    pub current: Option<SectionView>,
    pub pending: Option<Seq<char>>,
}

/// Push a heading that never received a noteText into the section. Only
/// bookmarks are legitimately text-less; a highlight or note without text is
/// malformed and is dropped. The pending heading is cleared either way.
pub open spec fn flush_spec(st: WalkState) -> WalkState {
    let cleared = WalkState { pending: None, ..st };
    match (st.pending, st.current) {
        (Some(h), Some(sec)) => match parse_entry_spec(h, None) {
            Ok(EntryView::Bookmark(b)) => WalkState {
                current: Some(
                    SectionView { entries: sec.entries.push(EntryView::Bookmark(b)), ..sec },
                ),
                ..cleared
            },
            _ => cleared,
        },
        _ => cleared,
    }
}

/// The finished sections once the walk is over: the last section, if any,
/// is closed.
pub open spec fn close_spec(st: WalkState) -> Seq<SectionView> {
    match st.current {
        Some(c) => st.done.push(c),
        None => st.done,
    }
}

/// One step of the walk over the body elements.
pub open spec fn walk_step(st: WalkState, b: HtmlBlockView) -> WalkState {
    let class = class_of(b);
    if class == "sectionHeading"@ {
        let f = flush_spec(st);
        WalkState {
            done: close_spec(f),
            current: Some(SectionView { heading: trim(b.text), entries: Seq::empty() }),
            pending: None,
        }
    } else if class == "noteHeading"@ {
        WalkState { pending: Some(b.text), ..flush_spec(st) }
    } else if class == "noteText"@ {
        let cleared = WalkState { pending: None, ..st };
        match (st.pending, st.current) {
            (Some(h), Some(sec)) => match parse_entry_spec(h, Some(trim(b.text))) {
                Ok(e) => WalkState {
                    current: Some(SectionView { entries: sec.entries.push(e), ..sec }),
                    ..cleared
                },
                Err(_) => cleared,
            },
            _ => cleared,
        }
    } else {
        st
    }
}

/// The walk over the first `n` body elements.
pub open spec fn walk(blocks: Seq<HtmlBlockView>, n: nat) -> WalkState
    decreases n,
{
    if n == 0 {
        WalkState { done: Seq::empty(), current: None, pending: None }
    } else {
        walk_step(walk(blocks, (n - 1) as nat), blocks[n - 1])
    }
}

/// The sections of a notebook body: a "sectionHeading" opens a section, a
/// "noteHeading" followed by its "noteText" adds an entry to it, and a
/// heading left without text adds only a bookmark.
pub open spec fn sections_spec(blocks: Seq<HtmlBlockView>) -> Seq<SectionView> {
    close_spec(flush_spec(walk(blocks, blocks.len())))
}

/// Walking the body never reads a note heading that would panic: no
/// "noteHeading" after a "sectionHeading" has reversed color parentheses.
/// (Headings before the first section are never read.)
pub open spec fn blocks_readable(blocks: Seq<HtmlBlockView>) -> bool {
    forall|j: int, i: int|
        0 <= j < i < blocks.len() && class_of(#[trigger] blocks[j]) == "sectionHeading"@
            && class_of(#[trigger] blocks[i]) == "noteHeading"@ ==> !entry_panics(blocks[i].text)
}

/// Some element before position `n` is a "sectionHeading".
pub open spec fn section_before(blocks: Seq<HtmlBlockView>, n: int) -> bool {
    exists|j: int| 0 <= j < n && class_of(#[trigger] blocks[j]) == "sectionHeading"@
}

/// An optional section as plain values.
pub open spec fn opt_section(o: Option<Section>) -> Option<SectionView> {
    match o {
        Some(s) => Some(s@),
        None => None,
    }
}

/// Push a heading that never received a noteText into the section; only a
/// bookmark is kept.
pub fn flush_pending(pending: &mut Option<String>, section: &mut Option<Section>)
    requires
        *old(section) is Some ==> (*old(pending) matches Some(h) ==> !entry_panics(h@)),
    ensures
        *final(pending) is None,
        opt_section(*final(section)) == flush_spec(
            WalkState {
                done: Seq::empty(),
                current: opt_section(*old(section)),
                pending: opt_chars(*old(pending)),
            },
        ).current,
{
    let mut heading: Option<String> = None;
    std::mem::swap(&mut heading, pending);
    let mut current: Option<Section> = None;
    std::mem::swap(&mut current, section);
    match (heading, current) {
        (Some(h), Some(mut sec)) => {
            let ghost before = sec@;
            match parse_entry(h.as_str(), None) {
                Ok(Entry::Bookmark(b)) => {
                    let ghost e = Entry::Bookmark(b)@;
                    sec.entries.push(Entry::Bookmark(b));
                    assert(entries_view(sec.entries@) =~= before.entries.push(e));
                },
                _ => {},
            }
            *section = Some(sec);
        },
        (_, current) => {
            *section = current;
        },
    }
}

/// Whether walking these body elements reads only note headings that can be
/// read without panicking.
pub fn blocks_are_readable(blocks: &[HtmlBlock]) -> (r: bool)
    ensures
        r == blocks_readable(blocks_view(blocks@)),
{
    let ghost bv = blocks_view(blocks@);
    let section_class = chars_of("sectionHeading");
    let heading_class = chars_of("noteHeading");
    let mut seen_section = false;
    let mut i: usize = 0;
    while i < blocks.len()
        invariant
            bv == blocks_view(blocks@),
            section_class@ == "sectionHeading"@,
            heading_class@ == "noteHeading"@,
            i <= blocks@.len(),
            seen_section == section_before(bv, i as int),
            forall|j: int, k: int|
                0 <= j < k < i && class_of(#[trigger] bv[j]) == "sectionHeading"@ && class_of(
                    #[trigger] bv[k],
                ) == "noteHeading"@ ==> !entry_panics(bv[k].text),
        decreases blocks@.len() - i,
    {
        let class = class_chars(&blocks[i]);
        assert(bv[i as int] == blocks@[i as int]@);
        if seen_section && same(class.as_slice(), heading_class.as_slice()) {
            let t = chars_of(blocks[i].text.as_str());
            if panicking_heading(t.as_slice()) {
                let ghost j = choose|j: int| 0 <= j < i && class_of(#[trigger] bv[j]) == "sectionHeading"@;
                assert(class_of(bv[j]) == "sectionHeading"@ && class_of(bv[i as int]) == "noteHeading"@);
                return false;
            }
        }
        if same(class.as_slice(), section_class.as_slice()) {
            seen_section = true;
        }
        proof {
            assert(section_before(bv, i + 1) == (section_before(bv, i as int) || class_of(
                bv[i as int],
            ) == "sectionHeading"@));
        }
        i = i + 1;
    }
    true
}

/// The walk state held by the executable walk.
pub open spec fn walk_state_of(
    done: Seq<Section>,
    current: Option<Section>,
    pending: Option<String>,
) -> WalkState {
    WalkState {
        done: sections_view(done),
        current: opt_section(current),
        pending: opt_chars(pending),
    }
}

/// The sections of a notebook body, from its child elements.
pub fn sections_from_blocks(blocks: &[HtmlBlock]) -> (r: Vec<Section>)
    requires
        blocks_readable(blocks_view(blocks@)),
    ensures
        sections_view(r@) == sections_spec(blocks_view(blocks@)),
{
    let ghost bv = blocks_view(blocks@);
    let section_class = chars_of("sectionHeading");
    let heading_class = chars_of("noteHeading");
    let text_class = chars_of("noteText");
    let mut done: Vec<Section> = Vec::new();
    let mut current: Option<Section> = None;
    let mut pending: Option<String> = None;
    let mut i: usize = 0;
    assert(sections_view(done@) =~= Seq::<SectionView>::empty());
    while i < blocks.len()
        invariant
            bv == blocks_view(blocks@),
            blocks_readable(bv),
            section_class@ == "sectionHeading"@,
            heading_class@ == "noteHeading"@,
            text_class@ == "noteText"@,
            i <= blocks@.len(),
            walk_state_of(done@, current, pending) == walk(bv, i as nat),
            current is Some ==> section_before(bv, i as int),
            current is Some ==> (pending matches Some(h) ==> !entry_panics(h@)),
        decreases blocks@.len() - i,
    {
        let b = &blocks[i];
        assert(bv[i as int] == b@);
        let class = class_chars(b);
        let ghost st = walk_state_of(done@, current, pending);
        if same(class.as_slice(), section_class.as_slice()) {
            flush_pending(&mut pending, &mut current);
            let mut finished: Option<Section> = None;
            std::mem::swap(&mut finished, &mut current);
            let ghost before = done@;
            match finished {
                Some(sec) => {
                    done.push(sec);
                },
                None => {},
            }
            assert(sections_view(done@) =~= close_spec(flush_spec(st)));
            let tv = chars_of(b.text.as_str());
            let heading = string_from(trimmed(tv.as_slice()));
            let sec = Section { heading, entries: Vec::new() };
            assert(entries_view(sec.entries@) =~= Seq::<EntryView>::empty());
            current = Some(sec);
            proof {
                assert(class_of(bv[i as int]) == "sectionHeading"@);
            }
        } else if same(class.as_slice(), heading_class.as_slice()) {
            flush_pending(&mut pending, &mut current);
            pending = Some(owned_copy(&b.text));
            proof {
                if current is Some {
                    let j = choose|j: int| 0 <= j < i && class_of(#[trigger] bv[j]) == "sectionHeading"@;
                    assert(class_of(bv[j]) == "sectionHeading"@ && class_of(bv[i as int]) == "noteHeading"@);
                }
            }
        } else if same(class.as_slice(), text_class.as_slice()) {
            let mut heading: Option<String> = None;
            std::mem::swap(&mut heading, &mut pending);
            match heading {
                Some(h) => {
                    let mut open: Option<Section> = None;
                    std::mem::swap(&mut open, &mut current);
                    match open {
                        Some(mut sec) => {
                            let ghost before = sec@;
                            let tv = chars_of(b.text.as_str());
                            let text = string_from(trimmed(tv.as_slice()));
                            match parse_entry(h.as_str(), Some(text)) {
                                Ok(e) => {
                                    let ghost ev = e@;
                                    sec.entries.push(e);
                                    assert(entries_view(sec.entries@) =~= before.entries.push(ev));
                                },
                                Err(_) => {},
                            }
                            current = Some(sec);
                        },
                        None => {},
                    }
                },
                None => {},
            }
        }
        proof {
            assert(walk(bv, (i + 1) as nat) == walk_step(walk(bv, i as nat), bv[i as int]));
            if current is Some {
                assert(section_before(bv, i as int) || class_of(bv[i as int]) == "sectionHeading"@);
                if !section_before(bv, i as int) {
                    assert(class_of(bv[i as int]) == "sectionHeading"@);
                }
            }
        }
        i = i + 1;
    }
    proof {
        if current is Some {
            assert(section_before(bv, i as int));
        }
    }
    let ghost st = walk_state_of(done@, current, pending);
    flush_pending(&mut pending, &mut current);
    match current {
        Some(sec) => {
            done.push(sec);
        },
        None => {},
    }
    assert(sections_view(done@) =~= close_spec(flush_spec(st)));
    done
}

// ---------------------------------------------------------------------------
// Reading the HTML document
// ---------------------------------------------------------------------------

/// Why a notebook export could not be read.
#[derive(Debug, Clone, Copy, PartialEq, Eq, Structural)]
pub enum HtmlError {
    /// No element matches `.bookTitle`.
    TitleNotFound,
    /// No element matches `.authors`.
    AuthorNotFound,
    /// No element matches `.bodyContainer`.
    BodyNotFound,
    /// A highlight heading whose `)` comes before its `(`.
    ReversedColorParentheses,
}

impl HtmlError {
    /// What went wrong, in words.
    pub fn message(&self) -> (r: String)
        ensures
            r@ == match self {
                HtmlError::TitleNotFound => "Book title not found"@,
                HtmlError::AuthorNotFound => "Author not found"@,
                HtmlError::BodyNotFound => "Body container not found"@,
                HtmlError::ReversedColorParentheses => "Highlight heading has ')' before '('"@,
            },
    {
        match self {
            HtmlError::TitleNotFound => owned("Book title not found"),
            HtmlError::AuthorNotFound => owned("Author not found"),
            HtmlError::BodyNotFound => owned("Body container not found"),
            HtmlError::ReversedColorParentheses => owned("Highlight heading has ')' before '('"),
        }
    }
}

/// The text content of the first element of the parsed HTML document `html`
/// that CSS selector `selector` matches; `None` when the selector does not
/// parse or nothing matches.
pub uninterp spec fn html_first_text(html: Seq<char>, selector: Seq<char>) -> Option<Seq<char>>;

/// The child elements (class attribute and text content) of the first
/// element of the parsed HTML document `html` that CSS selector `container`
/// matches; `None` when the selector does not parse or nothing matches.
pub uninterp spec fn html_child_blocks(html: Seq<char>, container: Seq<char>) -> Option<
    Seq<HtmlBlockView>,
>;

/// Parses `html` with `scraper::Html::parse_document`, and takes the text
/// (`ElementRef::text`, concatenated) of the first element that
/// `scraper::Selector::parse(selector)` matches. Claimed: the result is
/// `html_first_text(html, selector)`, a function of the two strings.
#[verifier::external_body]
fn first_match_text(html: &str, selector: &str) -> (r: Option<String>)
    ensures
        opt_chars(r) == html_first_text(html@, selector@),
{
    let document = scraper::Html::parse_document(html);
    let selector = scraper::Selector::parse(selector).ok()?;
    document.select(&selector).next().map(|el| el.text().collect::<String>())
}

/// Parses `html` with `scraper::Html::parse_document`, and lists the child
/// elements (`ElementRef::child_elements`) of the first element that
/// `scraper::Selector::parse(container)` matches, each with its `class`
/// attribute and its text. Claimed: the result is
/// `html_child_blocks(html, container)`, a function of the two strings.
#[verifier::external_body]
fn child_blocks(html: &str, container: &str) -> (r: Option<Vec<HtmlBlock>>)
    ensures
        match r {
            Some(v) => html_child_blocks(html@, container@) == Some(blocks_view(v@)),
            None => html_child_blocks(html@, container@) is None,
        },
{
    let document = scraper::Html::parse_document(html);
    let selector = scraper::Selector::parse(container).ok()?;
    let body = document.select(&selector).next()?;
    Some(
        body.child_elements().map(
            |el| HtmlBlock { class: el.attr("class").map(String::from), text: el.text().collect() },
        ).collect(),
    )
}

/// An optional text, trimmed.
pub open spec fn opt_trim(o: Option<Seq<char>>) -> Option<Seq<char>> {
    match o {
        Some(t) => Some(trim(t)),
        None => None,
    }
}

/// The trimmed text of the first element that `selector` matches.
pub fn extract_text(html: &str, selector: &str) -> (r: Option<String>)
    ensures
        opt_chars(r) == opt_trim(html_first_text(html@, selector@)),
{
    match first_match_text(html, selector) {
        Some(t) => {
            let v = chars_of(t.as_str());
            Some(string_from(trimmed(v.as_slice())))
        },
        None => None,
    }
}

/// The sections read from a notebook's body elements, or why they cannot be.
pub open spec fn sections_result(blocks: Option<Seq<HtmlBlockView>>) -> Result<
    Seq<SectionView>,
    HtmlError,
> {
    match blocks {
        None => Err(HtmlError::BodyNotFound),
        Some(bs) => if blocks_readable(bs) {
            Ok(sections_spec(bs))
        } else {
            Err(HtmlError::ReversedColorParentheses)
        },
    }
}

/// The sections of the notebook in `html` (the children of `.bodyContainer`).
pub fn parse_sections(html: &str) -> (r: Result<Vec<Section>, HtmlError>)
    ensures
        match r {
            Ok(v) => sections_result(html_child_blocks(html@, ".bodyContainer"@)) == Ok::<
                Seq<SectionView>,
                HtmlError,
            >(sections_view(v@)),
            Err(e) => sections_result(html_child_blocks(html@, ".bodyContainer"@)) == Err::<
                Seq<SectionView>,
                HtmlError,
            >(e),
        },
{
    match child_blocks(html, ".bodyContainer") {
        None => Err(HtmlError::BodyNotFound),
        Some(blocks) => {
            if blocks_are_readable(blocks.as_slice()) {
                Ok(sections_from_blocks(blocks.as_slice()))
            } else {
                Err(HtmlError::ReversedColorParentheses)
            }
        },
    }
}

/// The book a notebook export describes, from what its document holds.
pub open spec fn parse_html_spec(html: Seq<char>) -> Result<BookView, HtmlError> {
    match opt_trim(html_first_text(html, ".bookTitle"@)) {
        None => Err(HtmlError::TitleNotFound),
        Some(title) => match opt_trim(html_first_text(html, ".authors"@)) {
            None => Err(HtmlError::AuthorNotFound),
            Some(author) => match sections_result(html_child_blocks(html, ".bodyContainer"@)) {
                Err(e) => Err(e),
                Ok(sections) => Ok(
                    BookView {
                        title,
                        author,
                        citation: match opt_trim(html_first_text(html, ".citation"@)) {
                            Some(c) => c,
                            None => Seq::empty(),
                        },
                        source: Source::KindleExport,
                        sections,
                    },
                ),
            },
        },
    }
}

/// Read a Kindle macOS "Export Notebook" HTML file.
pub fn parse_html(html_content: &str) -> (r: Result<Book, HtmlError>)
    ensures
        match r {
            Ok(b) => parse_html_spec(html_content@) == Ok::<BookView, HtmlError>(b@),
            Err(e) => parse_html_spec(html_content@) == Err::<BookView, HtmlError>(e),
        },
{
    let title = match extract_text(html_content, ".bookTitle") {
        Some(t) => t,
        None => {
            return Err(HtmlError::TitleNotFound);
        },
    };
    let author = match extract_text(html_content, ".authors") {
        Some(a) => a,
        None => {
            return Err(HtmlError::AuthorNotFound);
        },
    };
    let citation = match extract_text(html_content, ".citation") {
        Some(c) => c,
        None => String::new(),
    };
    let sections = match parse_sections(html_content) {
        Ok(s) => s,
        Err(e) => {
            return Err(e);
        },
    };
    Ok(Book { title, author, citation, source: Source::KindleExport, sections })
}

/// The class of a body element, or nothing.
fn class_chars(b: &HtmlBlock) -> (r: Vec<char>)
    ensures
        r@ == class_of(b@),
{
    match &b.class {
        Some(c) => chars_of(c.as_str()),
        None => Vec::new(),
    }
}

/// Whether reading this note heading would panic.
fn panicking_heading(t: &[char]) -> (r: bool)
    ensures
        r == entry_panics(t@),
{
    let h = trimmed(t);
    if !has_prefix(h, chars_of("Highlight").as_slice()) {
        return false;
    }
    match (find_char_in(h, '('), find_char_in(h, ')')) {
        (Some(open), Some(close)) => close <= open,
        _ => false,
    }
}

} // verus!
