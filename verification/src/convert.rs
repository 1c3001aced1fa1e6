//! The conversion pipeline around the parsers: which parser an input file
//! gets, where each generated note goes, and what its file is called.
use crate::clippings::{ascii_lower, ascii_lowercase, parse_clippings, parse_clippings_spec, strings_view};
use crate::parser::{books_view, parse_html, parse_html_spec, Book, HtmlError};
use crate::text::{chars_of, push_str, same, string_from};
use vstd::prelude::*;

verus! {

// ---------------------------------------------------------------------------
// File names
// ---------------------------------------------------------------------------

/// Characters that cannot stand in a file name on some platform.
pub open spec fn forbidden_in_file_name(c: char) -> bool {
    c == '/' || c == '\\' || c == ':' || c == '*' || c == '?' || c == '"' || c == '<' || c == '>'
        || c == '|'
}

/// Every character that cannot stand in a file name becomes `_`.
pub open spec fn sanitize_spec(name: Seq<char>) -> Seq<char> {
    name.map_values(|c: char| if forbidden_in_file_name(c) { '_' } else { c })
}

/// Replace every character that cannot stand in a file name with `_`.
pub fn sanitize_filename(name: &str) -> (r: String)
    ensures
        r@ == sanitize_spec(name@),
{
    let v = chars_of(name);
    let mut out: Vec<char> = Vec::new();
    let mut i: usize = 0;
    while i < v.len()
        invariant
            i <= v@.len(),
            out@ =~= sanitize_spec(v@.take(i as int)),
        decreases v@.len() - i,
    {
        let c = v[i];
        let forbidden = c == '/' || c == '\\' || c == ':' || c == '*' || c == '?' || c == '"' || c
            == '<' || c == '>' || c == '|';
        out.push(if forbidden { '_' } else { c });
        assert(v@.take(i + 1) =~= v@.take(i as int).push(c));
        i = i + 1;
    }
    assert(v@.take(v@.len() as int) =~= v@);
    string_from(out.as_slice())
}

/// The file name of a book's note: "<Author> - <Title>.md", sanitized.
pub open spec fn note_file_name_spec(author: Seq<char>, title: Seq<char>) -> Seq<char> {
    sanitize_spec(author + " - "@ + title + ".md"@)
}

/// The path `std::path::Path::join` gives for `name` under `dir`. What it is
/// depends on the target platform (which separator is added, and which names
/// count as absolute and replace `dir`), so it is named here, not spelled out.
pub uninterp spec fn path_joined(dir: Seq<char>, name: Seq<char>) -> Seq<char>;

/// `Path::new(dir).join(name)`, as a string. Claimed: the result is
/// `path_joined(dir, name)`, a function of the two strings.
#[verifier::external_body]
pub(crate) fn join_path(dir: &str, name: &str) -> (r: String)
    ensures
        r@ == path_joined(dir@, name@),
{
    std::path::Path::new(dir).join(name).to_string_lossy().into_owned()
}

/// The extension `std::path::Path::extension` finds in a path.
pub uninterp spec fn path_extension(path: Seq<char>) -> Option<Seq<char>>;

/// `Path::new(path).extension()`, as a string. Claimed: the result is
/// `path_extension(path)`, a function of the string.
#[verifier::external_body]
fn extension_of(path: &str) -> (r: Option<String>)
    ensures
        crate::parser::opt_chars(r) == path_extension(path@),
{
    std::path::Path::new(path).extension().map(|e| e.to_string_lossy().into_owned())
}

/// `ext.eq_ignore_ascii_case("txt")`.
pub open spec fn is_txt(ext: Option<Seq<char>>) -> bool {
    match ext {
        Some(e) => ascii_lower(e) == ascii_lower("txt"@),
        None => false,
    }
}

/// Whether an extension names a text file, ignoring ASCII case.
pub fn is_txt_extension(ext: Option<&str>) -> (r: bool)
    ensures
        r == is_txt(match ext {
            Some(e) => Some(e@),
            None => None,
        }),
{
    match ext {
        Some(e) => {
            let l = ascii_lowercase(chars_of(e).as_slice());
            let t = ascii_lowercase(chars_of("txt").as_slice());
            same(l.as_slice(), t.as_slice())
        },
        None => false,
    }
}

/// A `.txt` input is a Kindle-device clippings file (many books); anything
/// else is a Kindle HTML notebook export (one book).
pub fn is_clippings_file(input: &str) -> (r: bool)
    ensures
        r == is_txt(path_extension(input@)),
{
    match extension_of(input) {
        Some(e) => is_txt_extension(Some(e.as_str())),
        None => is_txt_extension(None),
    }
}

// ---------------------------------------------------------------------------
// Destinations
// ---------------------------------------------------------------------------

/// Where the generated notes go: a single named file, or a folder that gets
/// one "<Author> - <Title>.md" per book.
#[derive(Debug)]
pub enum Destination {
    File(String),
    Folder(String),
}

/// The path of a book's note.
pub open spec fn path_for_spec(d: Destination, b: crate::parser::BookView) -> Seq<char> {
    match d {
        Destination::File(path) => path@,
        Destination::Folder(dir) => path_joined(dir@, note_file_name_spec(b.author, b.title)),
    }
}

impl Destination {
    /// The path of `book`'s note.
    pub fn path_for(&self, book: &Book) -> (r: String)
        ensures
            r@ == path_for_spec(*self, book@),
    {
        match self {
            Destination::File(path) => string_from(chars_of(path.as_str()).as_slice()),
            Destination::Folder(dir) => {
                let mut name: Vec<char> = Vec::new();
                push_str(&mut name, book.author.as_str());
                push_str(&mut name, " - ");
                push_str(&mut name, book.title.as_str());
                push_str(&mut name, ".md");
                let file = sanitize_filename(string_from(name.as_slice()).as_str());
                join_path(dir.as_str(), file.as_str())
            },
        }
    }
}

/// Where notes go: `--output` names a single file and is refused when the
/// input holds more than one book (the error carries the book count);
/// otherwise the export folder given on the command line, or the configured
/// default.
pub fn choose_destination(
    output: Option<String>,
    export_dir: Option<String>,
    default_folder: String,
    book_count: usize,
) -> (r: Result<Destination, usize>)
    ensures
        match output {
            Some(path) => if book_count > 1 {
                r == Err::<Destination, usize>(book_count)
            } else {
                r matches Ok(Destination::File(p)) && p@ == path@
            },
            None => r matches Ok(Destination::Folder(dir)) && dir@ == (match export_dir {
                Some(d) => d@,
                None => default_folder@,
            }),
        },
{
    match output {
        Some(path) => if book_count > 1 {
            Err(book_count)
        } else {
            Ok(Destination::File(path))
        },
        None => match export_dir {
            Some(d) => Ok(Destination::Folder(d)),
            None => Ok(Destination::Folder(default_folder)),
        },
    }
}

// ---------------------------------------------------------------------------
// Choosing the parser
// ---------------------------------------------------------------------------

/// Why an input yields no books.
#[derive(Debug)]
pub enum InputError {
    /// A clippings file in which no clipping could be read.
    NoClippings,
    /// A notebook export that could not be read.
    Html(HtmlError),
}

/// The books an input holds, with the warnings about skipped clippings.
pub struct ParsedInput {
    pub warnings: Vec<String>,
    pub books: Result<Vec<Book>, InputError>,
}

/// Pick the parser by file type: `.txt` is a Kindle-device clippings file
/// (many books, with a warning for each skipped clipping, and an error when
/// there are none), anything else is a Kindle HTML notebook export (one book).
pub fn parse_input(input: &str, content: &str) -> (r: ParsedInput)
    ensures
        is_txt(path_extension(input@)) ==> {
            &&& strings_view(r.warnings@) == parse_clippings_spec(content@).warnings
            &&& match r.books {
                Ok(bs) => parse_clippings_spec(content@).books.len() > 0 && books_view(bs@)
                    == parse_clippings_spec(content@).books,
                Err(e) => parse_clippings_spec(content@).books.len() == 0 && e
                    is NoClippings,
            }
        },
        !is_txt(path_extension(input@)) ==> {
            &&& r.warnings@.len() == 0
            &&& match r.books {
                Ok(bs) => bs@.len() == 1 && parse_html_spec(content@) == Ok::<
                    crate::parser::BookView,
                    HtmlError,
                >(bs@[0]@),
                Err(e) => e matches InputError::Html(h) && parse_html_spec(content@) == Err::<
                    crate::parser::BookView,
                    HtmlError,
                >(h),
            }
        },
{
    if is_clippings_file(input) {
        let parsed = parse_clippings(content);
        let books = if parsed.books.len() == 0 {
            Err(InputError::NoClippings)
        } else {
            Ok(parsed.books)
        };
        ParsedInput { warnings: parsed.warnings, books }
    } else {
        let books = match parse_html(content) {
            Ok(book) => Ok(vec![book]),
            Err(e) => Err(InputError::Html(e)),
        };
        ParsedInput { warnings: Vec::new(), books }
    }
}

} // verus!
