# inkwell

Converts e-reader highlights to Markdown notes for Obsidian: Kindle macOS
"Export Notebook" HTML files and `My Clippings.txt` files (physical Kindles and
CrossInk firmware) become one note per book, with highlights grouped by
chapter and YAML frontmatter.

The library is verified with Verus:

- `src/text.rs` — trimming, searching, splitting and number reading on
  character sequences, specified over `Seq<char>`.
- `src/clippings.rs` — the `My Clippings.txt` parser, specified as a fold over
  the file's blocks.
- `src/parser.rs` — the book model and the notebook-export parser; the HTML
  itself is parsed by `scraper`, and the walk over the body elements is
  verified.
- `src/markdown.rs` — the note renderer.
- `src/convert.rs` — parser choice, destinations and note file names.
- `src/config.rs` — the settings, their defaults, and which configuration
  file is read (local, beside the program, then the user's).
- `src/properties.rs` — properties that hold for every input: books and
  sections in order of first appearance, duplicates dropped and nothing else,
  one warning per unreadable clipping, bookmarks kept, frontmatter escaping.
- `src/clipping_properties.rs` — what a single clipping block gives, the exact
  warning list, entries in file order, which duplicates are dropped, and the
  shape of every entry read from a clippings file.

`app/` holds the command-line program: arguments, reading and writing the
configuration and note files, and the environment.
