//! Further properties of the clippings importer: what a single block gives,
//! which warnings a file produces, and what the entries of a book look like.
use crate::clippings::{
    add_clipping_spec, blocks_of, book_has_key, collect_text_spec, dedupe_key, find_book_from,
    find_section_from, first_nonblank_from, fold_blocks, heading_of, last_nonblank_before,
    new_book, parse_block_spec, parse_clippings_spec, parse_metadata_spec, push_entry_spec, quoted,
    split_title_author_spec, warning_text, ClippingView, Kind,
};
use crate::parser::{BookView, EntryView};
use crate::properties::{
    books_wf, clipping_at, filed, filed_at, files_under, from_clipping, has_section,
    lemma_find_book, lemma_find_section, lemma_fold_blocks, lemma_fold_sections, lemma_with_sources,
    sections_complete, skipped_count,
};
use crate::text::{is_blank, join, lines, trim};
use vstd::prelude::*;

verus! {

// ---------------------------------------------------------------------------
// Blank lines
// ---------------------------------------------------------------------------

/// An empty line is blank.
pub proof fn lemma_empty_is_blank(s: Seq<char>)
    requires
        s.len() == 0,
    ensures
        is_blank(s),
{
    assert(trim(s).len() == 0);
}

/// What `first_nonblank_from` finds.
pub proof fn lemma_first_nonblank(ls: Seq<Seq<char>>, i: int)
    requires
        0 <= i,
    ensures
        first_nonblank_from(ls, i) matches Some(t) ==> {
            &&& i <= t < ls.len()
            &&& !is_blank(ls[t])
            &&& forall|j: int| i <= j < t ==> is_blank(#[trigger] ls[j])
        },
        first_nonblank_from(ls, i) is None ==> forall|j: int|
            i <= j < ls.len() ==> is_blank(#[trigger] ls[j]),
    decreases ls.len() - i,
{
    if i < ls.len() && is_blank(ls[i]) {
        lemma_first_nonblank(ls, i + 1);
    }
}

/// What `last_nonblank_before` finds.
pub proof fn lemma_last_nonblank(ls: Seq<Seq<char>>, i: int)
    requires
        0 <= i <= ls.len(),
    ensures
        last_nonblank_before(ls, i) matches Some(e) ==> {
            &&& 0 <= e < i
            &&& !is_blank(ls[e])
            &&& forall|j: int| e < j < i ==> is_blank(#[trigger] ls[j])
        },
        last_nonblank_before(ls, i) is None ==> forall|j: int|
            0 <= j < i ==> is_blank(#[trigger] ls[j]),
    decreases i,
{
    if i > 0 && is_blank(ls[i - 1]) {
        lemma_last_nonblank(ls, i - 1);
    }
}

/// A joined sequence of lines starts with its first line.
pub proof fn lemma_join_starts_with_first(parts: Seq<Seq<char>>, sep: Seq<char>)
    requires
        parts.len() > 0,
    ensures
        join(parts, sep).len() >= parts[0].len(),
    decreases parts.len(),
{
    if parts.len() > 1 {
        lemma_join_starts_with_first(parts.drop_last(), sep);
    }
}

/// The lines of a clipping's body text: `Some` with the lines from the first
/// to the last non-blank one, or `None` when every line is blank.
pub proof fn lemma_collect_text(body: Seq<Seq<char>>)
    ensures
        (forall|j: int| 0 <= j < body.len() ==> is_blank(#[trigger] body[j])) ==> collect_text_spec(
            body,
        ).len() == 0,
        (exists|j: int| 0 <= j < body.len() && !is_blank(#[trigger] body[j])) ==> exists|
            ls: Seq<Seq<char>>,
        |
            {
                &&& collect_text_spec(body) == join(ls, seq!['\n'])
                &&& ls.len() > 0
                &&& !is_blank(ls[0])
                &&& !is_blank(ls.last())
                &&& collect_text_spec(body).len() > 0
            },
{
    lemma_first_nonblank(body, 0);
    lemma_last_nonblank(body, body.len() as int);
    if exists|j: int| 0 <= j < body.len() && !is_blank(#[trigger] body[j]) {
        let j = choose|j: int| 0 <= j < body.len() && !is_blank(#[trigger] body[j]);
        let s = first_nonblank_from(body, 0)->0;
        let e = last_nonblank_before(body, body.len() as int)->0;
        assert(s <= j <= e);
        let ls = body.subrange(s, e + 1);
        assert(ls[0] == body[s]);
        assert(ls.last() == body[e]);
        lemma_join_starts_with_first(ls, seq!['\n']);
        if ls[0].len() == 0 {
            lemma_empty_is_blank(ls[0]);
        }
        assert(collect_text_spec(body) == join(ls, seq!['\n']));
    }
}

// ---------------------------------------------------------------------------
// One block
// ---------------------------------------------------------------------------

/// What one block of a clippings file gives. A block of blank lines is
/// nothing. Otherwise its first non-blank line is the title line, and
/// - when no line follows it, the block is an error: the title line has no
///   metadata line;
/// - when the next line is no metadata line, the block is that line's error;
/// - a highlight or a note with only blank lines after the metadata line is an
///   error naming the title ("empty highlight in ..." / "empty note in ...");
/// - anything else is a clipping.
pub proof fn law_clippings_block_outcomes(block: Seq<char>)
    ensures
        (forall|j: int| 0 <= j < lines(block).len() ==> is_blank(#[trigger] lines(block)[j]))
            ==> parse_block_spec(block) == Ok::<Option<ClippingView>, Seq<char>>(None),
        forall|t: int|
            0 <= t < lines(block).len() && !is_blank(#[trigger] lines(block)[t]) && (forall|j: int|
                0 <= j < t ==> is_blank(#[trigger] lines(block)[j])) ==> block_outcome(block, t),
{
    let ls = lines(block);
    lemma_first_nonblank(ls, 0);
    assert forall|t: int|
        0 <= t < ls.len() && !is_blank(#[trigger] ls[t]) && (forall|j: int|
            0 <= j < t ==> is_blank(#[trigger] ls[j])) implies block_outcome(block, t) by {
        lemma_block_outcome(block, t);
    }
}

/// What the block gives when line `t` is its first non-blank line.
pub open spec fn block_outcome(block: Seq<char>, t: int) -> bool {
    let ls = lines(block);
    let r = parse_block_spec(block);
    let title = split_title_author_spec(trim(ls[t])).0;
    let rest_blank = forall|j: int| t + 2 <= j < ls.len() ==> is_blank(#[trigger] ls[j]);
    &&& t + 1 == ls.len() ==> r == Err::<Option<ClippingView>, Seq<char>>(
        quoted(trim(ls[t])) + " has no metadata line"@,
    )
    &&& t + 1 < ls.len() ==> match parse_metadata_spec(trim(ls[t + 1])) {
        Err(e) => r == Err::<Option<ClippingView>, Seq<char>>(e),
        Ok(m) => if m.kind == Kind::Highlight && rest_blank {
            r == Err::<Option<ClippingView>, Seq<char>>("empty highlight in "@ + quoted(title))
        } else if m.kind == Kind::Note && rest_blank {
            r == Err::<Option<ClippingView>, Seq<char>>("empty note in "@ + quoted(title))
        } else {
            r matches Ok(Some(_))
        },
    }
}

#[verifier::rlimit(30)]
proof fn lemma_block_outcome(block: Seq<char>, t: int)
    requires
        0 <= t < lines(block).len(),
        !is_blank(lines(block)[t]),
        forall|j: int| 0 <= j < t ==> is_blank(#[trigger] lines(block)[j]),
    ensures
        block_outcome(block, t),
{
    let ls = lines(block);
    lemma_first_nonblank(ls, 0);
    let f = first_nonblank_from(ls, 0)->0;
    assert(f <= t);
    assert(f >= t);
    assert(first_nonblank_from(ls, 0) == Some(t));
    if t + 1 < ls.len() {
        let body = ls.subrange(t + 2, ls.len() as int);
        lemma_collect_text(body);
        let rest_blank = forall|j: int| t + 2 <= j < ls.len() ==> is_blank(#[trigger] ls[j]);
        if rest_blank {
            assert forall|j: int| 0 <= j < body.len() implies is_blank(#[trigger] body[j]) by {
                assert(body[j] == ls[t + 2 + j]);
            }
            assert(collect_text_spec(body).len() == 0);
        } else {
            let j = choose|j: int| t + 2 <= j < ls.len() && !is_blank(#[trigger] ls[j]);
            assert(body[j - t - 2] == ls[j]);
            assert(collect_text_spec(body).len() > 0);
        }
    }
}

// ---------------------------------------------------------------------------
// Warnings
// ---------------------------------------------------------------------------

/// After the first `n` blocks, the warning for each skipped block `k` stands
/// at the position given by the number of skipped blocks before it.
pub proof fn lemma_fold_warnings(blocks: Seq<Seq<char>>, n: nat)
    requires
        n <= blocks.len(),
    ensures
        fold_blocks(blocks, n).warnings.len() == skipped_count(blocks, n),
        forall|k: int|
            0 <= k < n && #[trigger] parse_block_spec(blocks[k]) is Err ==> skipped_count(
                blocks,
                k as nat,
            ) < skipped_count(blocks, n) && fold_blocks(blocks, n).warnings[skipped_count(
                blocks,
                k as nat,
            ) as int] == warning_text((k + 1) as nat, parse_block_spec(blocks[k])->Err_0),
    decreases n,
{
    if n > 0 {
        let m = (n - 1) as nat;
        lemma_fold_warnings(blocks, m);
        lemma_skipped_count_grows(blocks, m);
        let prev = fold_blocks(blocks, m);
        let cur = fold_blocks(blocks, n);
        assert forall|k: int|
            0 <= k < n && #[trigger] parse_block_spec(blocks[k]) is Err implies skipped_count(
            blocks,
            k as nat,
        ) < skipped_count(blocks, n) && cur.warnings[skipped_count(blocks, k as nat) as int]
            == warning_text((k + 1) as nat, parse_block_spec(blocks[k])->Err_0) by {
            if k < m {
                assert(skipped_count(blocks, k as nat) < skipped_count(blocks, m));
            }
        }
    }
}

/// The count of skipped blocks never falls.
pub proof fn lemma_skipped_count_grows(blocks: Seq<Seq<char>>, n: nat)
    ensures
        forall|k: nat| k <= n ==> skipped_count(blocks, k) <= #[trigger] skipped_count(blocks, n),
    decreases n,
{
    if n > 0 {
        lemma_skipped_count_grows(blocks, (n - 1) as nat);
    }
}

/// The warnings of a clippings file are exactly one per skipped block, in
/// file order: the warning of block `k` (counted from 1 in the text) names it
/// and gives the reason it could not be read, and stands after the warnings
/// of all skipped blocks before it.
pub proof fn law_clippings_warnings_name_skipped_blocks(content: Seq<char>)
    ensures
        ({
            let blocks = blocks_of(content);
            let w = parse_clippings_spec(content).warnings;
            &&& w.len() == skipped_count(blocks, blocks.len())
            &&& forall|k: int|
                0 <= k < blocks.len() && #[trigger] parse_block_spec(blocks[k]) is Err ==> {
                    &&& skipped_count(blocks, k as nat) < w.len()
                    &&& w[skipped_count(blocks, k as nat) as int] == warning_text(
                        (k + 1) as nat,
                        parse_block_spec(blocks[k])->Err_0,
                    )
                }
        }),
{
    let blocks = blocks_of(content);
    lemma_fold_warnings(blocks, blocks.len());
}

/// A byte-order mark at the start of a clippings file changes nothing.
pub proof fn law_clippings_byte_order_mark_ignored(content: Seq<char>)
    requires
        content.len() == 0 || content[0] != '\u{feff}',
    ensures
        parse_clippings_spec(seq!['\u{feff}'] + content) == parse_clippings_spec(content),
{
    assert((seq!['\u{feff}'] + content).drop_first() =~= content);
    assert(blocks_of(seq!['\u{feff}'] + content) == blocks_of(content));
}

// ---------------------------------------------------------------------------
// Entries
// ---------------------------------------------------------------------------

/// Text made of lines joined by line breaks, the first and the last of them
/// non-blank.
pub open spec fn trimmed_text(text: Seq<char>) -> bool {
    exists|ls: Seq<Seq<char>>|
        {
            &&& text == join(ls, seq!['\n'])
            &&& ls.len() > 0
            &&& !is_blank(ls[0])
            &&& !is_blank(ls.last())
        }
}

/// The shape of an entry read from a clippings file: no subheading, yellow
/// highlights, and highlight and note texts that start and end with a
/// non-blank line.
pub open spec fn clippings_entry_shape(e: EntryView) -> bool {
    match e {
        EntryView::Highlight(h) => h.color == "yellow"@ && h.subheading is None && trimmed_text(
            h.text,
        ),
        EntryView::Note(n) => n.subheading is None && trimmed_text(n.text),
        EntryView::Bookmark(b) => b.subheading is None,
    }
}

/// A clipping read from a block has that shape.
pub proof fn lemma_block_entry_shape(block: Seq<char>)
    ensures
        parse_block_spec(block) matches Ok(Some(c)) ==> clippings_entry_shape(c.entry),
{
    let ls = lines(block);
    lemma_first_nonblank(ls, 0);
    if let Some(t) = first_nonblank_from(ls, 0) {
        if t + 1 < ls.len() {
            let body = ls.subrange(t + 2, ls.len() as int);
            lemma_collect_text(body);
        }
    }
}

/// Every entry of a book read from a clippings file has no subheading; every
/// highlight is yellow; and the text of every highlight and note starts and
/// ends with a non-blank line.
pub proof fn law_clippings_entry_shape(content: Seq<char>)
    ensures
        forall|i: int, s: int, x: int|
            0 <= i < parse_clippings_spec(content).books.len() && 0 <= s < parse_clippings_spec(
                content,
            ).books[i].sections.len() && 0 <= x < parse_clippings_spec(content).books[i].sections[s].entries.len()
                ==> clippings_entry_shape(
                #[trigger] parse_clippings_spec(content).books[i].sections[s].entries[x],
            ),
{
    let blocks = blocks_of(content);
    let st = fold_blocks(blocks, blocks.len());
    let r = parse_clippings_spec(content);
    lemma_fold_blocks(blocks, blocks.len());
    lemma_with_sources(st.books);
    assert forall|i: int, s: int, x: int|
        0 <= i < r.books.len() && 0 <= s < r.books[i].sections.len() && 0 <= x
            < r.books[i].sections[s].entries.len() implies clippings_entry_shape(
        #[trigger] r.books[i].sections[s].entries[x],
    ) by {
        assert(r.books[i].sections == st.books[i].sections);
        assert(from_clipping(blocks, blocks.len() as int, st.books[i], s, x));
        let k = choose|k: int|
            {
                &&& 0 <= k < blocks.len()
                &&& #[trigger] clipping_at(blocks, k) matches Some(c)
                &&& c.title == st.books[i].title
                &&& c.author == st.books[i].author
                &&& crate::clippings::heading_of(c.chapter) == st.books[i].sections[s].heading
                &&& c.entry == st.books[i].sections[s].entries[x]
            };
        lemma_block_entry_shape(blocks[k]);
    }
}

// ---------------------------------------------------------------------------
// Order of entries and duplicates
// ---------------------------------------------------------------------------

/// Block `k` holds a clipping, and an earlier block holds a clipping of the
/// same book (title and author) with the same key.
pub open spec fn earlier_duplicate(blocks: Seq<Seq<char>>, k: int) -> bool {
    exists|j: int|
        {
            &&& 0 <= j < k
            &&& #[trigger] clipping_at(blocks, j) matches Some(d)
            &&& clipping_at(blocks, k) matches Some(c)
            &&& d.title == c.title
            &&& d.author == c.author
            &&& dedupe_key(d.entry) == dedupe_key(c.entry)
        }
}

/// A clipping is filed exactly when no earlier clipping of its book has the
/// same key.
pub proof fn lemma_filed_at(blocks: Seq<Seq<char>>, k: int)
    requires
        0 <= k < blocks.len(),
        clipping_at(blocks, k) is Some,
    ensures
        filed_at(blocks, k) <==> !earlier_duplicate(blocks, k),
{
    let c = clipping_at(blocks, k)->0;
    let key = dedupe_key(c.entry);
    let bs = fold_blocks(blocks, k as nat).books;
    lemma_fold_blocks(blocks, k as nat);
    lemma_find_book(bs, c.title, c.author, 0);
    if earlier_duplicate(blocks, k) {
        let j = choose|j: int|
            {
                &&& 0 <= j < k
                &&& #[trigger] clipping_at(blocks, j) matches Some(d)
                &&& clipping_at(blocks, k) matches Some(c)
                &&& d.title == c.title
                &&& d.author == c.author
                &&& dedupe_key(d.entry) == dedupe_key(c.entry)
            };
        assert(clipping_at(blocks, j) is Some);
        assert(filed(bs, c.title, c.author, key));
        let i = choose|i: int|
            0 <= i < bs.len() && (#[trigger] bs[i]).title == c.title && bs[i].author == c.author
                && book_has_key(bs[i], key);
        let f = find_book_from(bs, c.title, c.author, 0)->0;
        assert(f == i);
    }
    if !filed_at(blocks, k) {
        let i = find_book_from(bs, c.title, c.author, 0)->0;
        assert(book_has_key(bs[i], key));
        let (s, x) = choose|s: int, x: int|
            0 <= s < bs[i].sections.len() && 0 <= x < bs[i].sections[s].entries.len()
                && #[trigger] dedupe_key(bs[i].sections[s].entries[x]) == key;
        assert(from_clipping(blocks, k, bs[i], s, x));
        let j = choose|j: int|
            {
                &&& 0 <= j < k
                &&& #[trigger] clipping_at(blocks, j) matches Some(d)
                &&& d.title == bs[i].title
                &&& d.author == bs[i].author
                &&& heading_of(d.chapter) == bs[i].sections[s].heading
                &&& d.entry == bs[i].sections[s].entries[x]
            };
        assert(clipping_at(blocks, j) is Some);
    }
}

/// The entries of the clippings among the first `n` blocks that were filed
/// under heading `h` of the book with title `t` and author `a`, in file order.
pub open spec fn filed_entries(blocks: Seq<Seq<char>>, n: nat, t: Seq<char>, a: Seq<char>, h: Seq<char>) -> Seq<
    EntryView,
>
    decreases n,
{
    if n == 0 {
        Seq::empty()
    } else {
        let prev = filed_entries(blocks, (n - 1) as nat, t, a, h);
        if files_under(blocks, n - 1, t, a, h) {
            prev.push(clipping_at(blocks, n - 1)->0.entry)
        } else {
            prev
        }
    }
}

proof fn lemma_filed_entries_nonempty(
    blocks: Seq<Seq<char>>,
    n: nat,
    t: Seq<char>,
    a: Seq<char>,
    h: Seq<char>,
)
    ensures
        filed_entries(blocks, n, t, a, h).len() > 0 ==> exists|k: int|
            0 <= k < n && #[trigger] files_under(blocks, k, t, a, h),
    decreases n,
{
    if n > 0 {
        lemma_filed_entries_nonempty(blocks, (n - 1) as nat, t, a, h);
    }
}

/// Each section of each book holds exactly the entries filed under it, in
/// file order.
pub open spec fn entries_in_file_order(blocks: Seq<Seq<char>>, n: nat, bs: Seq<BookView>) -> bool {
    forall|i: int, s: int|
        0 <= i < bs.len() && 0 <= s < bs[i].sections.len() ==> (#[trigger] bs[i].sections[s]).entries
            == filed_entries(blocks, n, bs[i].title, bs[i].author, bs[i].sections[s].heading)
}

/// Nothing was filed under a heading that the book (or a book with that
/// title and author) does not have.
proof fn lemma_nothing_filed(
    blocks: Seq<Seq<char>>,
    n: nat,
    t: Seq<char>,
    a: Seq<char>,
    h: Seq<char>,
)
    requires
        n <= blocks.len(),
        forall|i: int|
            0 <= i < fold_blocks(blocks, n).books.len() && (#[trigger] fold_blocks(
                blocks,
                n,
            ).books[i]).title == t && fold_blocks(blocks, n).books[i].author == a ==> !has_section(
                fold_blocks(blocks, n).books[i],
                h,
            ),
    ensures
        filed_entries(blocks, n, t, a, h) == Seq::<EntryView>::empty(),
{
    lemma_fold_sections(blocks, n);
    lemma_filed_entries_nonempty(blocks, n, t, a, h);
    if filed_entries(blocks, n, t, a, h).len() > 0 {
        let k = choose|k: int| 0 <= k < n && #[trigger] files_under(blocks, k, t, a, h);
        assert(sections_complete(blocks, n as int, fold_blocks(blocks, n).books));
    }
}

#[verifier::rlimit(40)]
pub proof fn lemma_fold_entries(blocks: Seq<Seq<char>>, n: nat)
    requires
        n <= blocks.len(),
    ensures
        entries_in_file_order(blocks, n, fold_blocks(blocks, n).books),
    decreases n,
{
    if n > 0 {
        let m = (n - 1) as nat;
        lemma_fold_entries(blocks, m);
        lemma_fold_blocks(blocks, m);
        let prev = fold_blocks(blocks, m).books;
        let cur = fold_blocks(blocks, n).books;
        assert forall|t: Seq<char>, a: Seq<char>, h: Seq<char>|
            !files_under(blocks, m as int, t, a, h) implies #[trigger] filed_entries(
            blocks,
            n,
            t,
            a,
            h,
        ) == filed_entries(blocks, m, t, a, h) by {}
        match parse_block_spec(blocks[m as int]) {
            Ok(Some(c)) => {
                assert(clipping_at(blocks, m as int) == Some(c));
                let e = c.entry;
                let h = heading_of(c.chapter);
                lemma_find_book(prev, c.title, c.author, 0);
                assert(cur == add_clipping_spec(prev, c));
                if !filed_at(blocks, m as int) {
                    assert(cur == prev);
                    assert forall|i: int, s: int|
                        0 <= i < cur.len() && 0 <= s < cur[i].sections.len() implies (
                    #[trigger] cur[i].sections[s]).entries == filed_entries(
                        blocks,
                        n,
                        cur[i].title,
                        cur[i].author,
                        cur[i].sections[s].heading,
                    ) by {
                        assert(!files_under(
                            blocks,
                            m as int,
                            cur[i].title,
                            cur[i].author,
                            cur[i].sections[s].heading,
                        ));
                    }
                } else {
                    lemma_filed_step(blocks, m, c);
                }
            },
            _ => {
                assert(clipping_at(blocks, m as int) is None);
                assert(cur == prev);
                assert forall|i: int, s: int|
                    0 <= i < cur.len() && 0 <= s < cur[i].sections.len() implies (
                #[trigger] cur[i].sections[s]).entries == filed_entries(
                    blocks,
                    n,
                    cur[i].title,
                    cur[i].author,
                    cur[i].sections[s].heading,
                ) by {
                    assert(!files_under(
                        blocks,
                        m as int,
                        cur[i].title,
                        cur[i].author,
                        cur[i].sections[s].heading,
                    ));
                }
            },
        }
    }
}

/// The step of `lemma_fold_entries` for a block whose clipping is filed.
#[verifier::rlimit(60)]
proof fn lemma_filed_step(blocks: Seq<Seq<char>>, m: nat, c: ClippingView)
    requires
        m < blocks.len(),
        clipping_at(blocks, m as int) == Some(c),
        parse_block_spec(blocks[m as int]) == Ok::<Option<ClippingView>, Seq<char>>(Some(c)),
        filed_at(blocks, m as int),
        entries_in_file_order(blocks, m, fold_blocks(blocks, m).books),
        books_wf(fold_blocks(blocks, m).books),
    ensures
        entries_in_file_order(blocks, m + 1, fold_blocks(blocks, m + 1).books),
{
    let n = m + 1;
    let prev = fold_blocks(blocks, m).books;
    let cur = fold_blocks(blocks, n).books;
    let e = c.entry;
    let h = heading_of(c.chapter);
    assert(cur == add_clipping_spec(prev, c));
    lemma_find_book(prev, c.title, c.author, 0);
    assert forall|t: Seq<char>, a: Seq<char>, hh: Seq<char>|
        !files_under(blocks, m as int, t, a, hh) implies #[trigger] filed_entries(
        blocks,
        n,
        t,
        a,
        hh,
    ) == filed_entries(blocks, m, t, a, hh) by {}
    assert(files_under(blocks, m as int, c.title, c.author, h));
    assert(filed_entries(blocks, n, c.title, c.author, h) == filed_entries(
        blocks,
        m,
        c.title,
        c.author,
        h,
    ).push(e));
    match find_book_from(prev, c.title, c.author, 0) {
        Some(i) => {
            let b = prev[i];
            lemma_find_section(b.sections, h, 0);
            let nb = push_entry_spec(b, c.chapter, e);
            assert(cur == prev.update(i, nb));
            assert forall|j: int, s: int|
                0 <= j < cur.len() && 0 <= s < cur[j].sections.len() implies (
            #[trigger] cur[j].sections[s]).entries == filed_entries(
                blocks,
                n,
                cur[j].title,
                cur[j].author,
                cur[j].sections[s].heading,
            ) by {
                if j != i {
                    assert(cur[j] == prev[j]);
                    assert(!files_under(
                        blocks,
                        m as int,
                        cur[j].title,
                        cur[j].author,
                        cur[j].sections[s].heading,
                    ));
                } else {
                    match find_section_from(b.sections, h, 0) {
                        Some(sj) => {
                            if s != sj {
                                assert(cur[j].sections[s] == b.sections[s]);
                                assert(!files_under(
                                    blocks,
                                    m as int,
                                    cur[j].title,
                                    cur[j].author,
                                    cur[j].sections[s].heading,
                                ));
                            } else {
                                assert(cur[j].sections[s].entries == b.sections[s].entries.push(e));
                            }
                        },
                        None => {
                            if s < b.sections.len() {
                                assert(cur[j].sections[s] == b.sections[s]);
                                assert(!files_under(
                                    blocks,
                                    m as int,
                                    cur[j].title,
                                    cur[j].author,
                                    cur[j].sections[s].heading,
                                ));
                            } else {
                                assert forall|i2: int|
                                    0 <= i2 < prev.len() && (#[trigger] prev[i2]).title == c.title
                                        && prev[i2].author == c.author implies !has_section(
                                    prev[i2],
                                    h,
                                ) by {
                                    assert(i2 == i);
                                }
                                lemma_nothing_filed(blocks, m, c.title, c.author, h);
                                assert(cur[j].sections[s].entries =~= seq![e]);
                                assert(filed_entries(blocks, n, c.title, c.author, h) =~= seq![e]);
                            }
                        },
                    }
                }
            }
        },
        None => {
            let nb = push_entry_spec(new_book(c.title, c.author), c.chapter, e);
            assert(cur == prev.push(nb));
            assert(nb.sections =~= seq![crate::parser::SectionView { heading: h, entries: seq![e] }]);
            assert forall|j: int, s: int|
                0 <= j < cur.len() && 0 <= s < cur[j].sections.len() implies (
            #[trigger] cur[j].sections[s]).entries == filed_entries(
                blocks,
                n,
                cur[j].title,
                cur[j].author,
                cur[j].sections[s].heading,
            ) by {
                if j < prev.len() {
                    assert(cur[j] == prev[j]);
                    assert(!files_under(
                        blocks,
                        m as int,
                        cur[j].title,
                        cur[j].author,
                        cur[j].sections[s].heading,
                    ));
                } else {
                    lemma_nothing_filed(blocks, m, c.title, c.author, h);
                    assert(filed_entries(blocks, n, c.title, c.author, h) =~= seq![e]);
                }
            }
        },
    }
}

/// Within each book of a clippings file, each section holds exactly the
/// entries of the clippings of that book filed under its heading, in the
/// order in which they appear in the file.
pub proof fn law_clippings_entries_in_file_order(content: Seq<char>)
    ensures
        forall|i: int, s: int|
            0 <= i < parse_clippings_spec(content).books.len() && 0 <= s < parse_clippings_spec(
                content,
            ).books[i].sections.len() ==> (#[trigger] parse_clippings_spec(content).books[i].sections[s]).entries
                == filed_entries(
                blocks_of(content),
                blocks_of(content).len(),
                parse_clippings_spec(content).books[i].title,
                parse_clippings_spec(content).books[i].author,
                parse_clippings_spec(content).books[i].sections[s].heading,
            ),
{
    let blocks = blocks_of(content);
    let st = fold_blocks(blocks, blocks.len());
    lemma_fold_entries(blocks, blocks.len());
    lemma_with_sources(st.books);
    let r = parse_clippings_spec(content);
    assert forall|i: int, s: int|
        0 <= i < r.books.len() && 0 <= s < r.books[i].sections.len() implies (
    #[trigger] r.books[i].sections[s]).entries == filed_entries(
        blocks,
        blocks.len(),
        r.books[i].title,
        r.books[i].author,
        r.books[i].sections[s].heading,
    ) by {
        assert(r.books[i].sections == st.books[i].sections);
        assert(st.books[i].sections[s] == r.books[i].sections[s]);
    }
}

/// A clipping read from a clippings file is dropped exactly when an earlier
/// clipping of the same book (same title and author) has the same text (for
/// highlights and notes) or the same position (for bookmarks); equal
/// clippings of different books are all kept.
pub proof fn law_clippings_duplicates_dropped(content: Seq<char>)
    ensures
        forall|k: int|
            0 <= k < blocks_of(content).len() && (#[trigger] clipping_at(blocks_of(content), k)) is Some
                ==> (filed_at(blocks_of(content), k) <==> !earlier_duplicate(blocks_of(content), k)),
{
    let blocks = blocks_of(content);
    assert forall|k: int| 0 <= k < blocks.len() && (#[trigger] clipping_at(blocks, k)) is Some implies (
    filed_at(blocks, k) <==> !earlier_duplicate(blocks, k)) by {
        lemma_filed_at(blocks, k);
    }
}

// ---------------------------------------------------------------------------
// Duplicate keys
// ---------------------------------------------------------------------------

/// Two entries count as duplicates exactly when they are of the same kind
/// and, for highlights and notes, have the same whole text, or, for
/// bookmarks, the same page and location.
pub proof fn law_duplicate_keys_compare_whole_entries(a: EntryView, b: EntryView)
    ensures
        dedupe_key(a) == dedupe_key(b) <==> match (a, b) {
            (EntryView::Highlight(x), EntryView::Highlight(y)) => x.text == y.text,
            (EntryView::Note(x), EntryView::Note(y)) => x.text == y.text,
            (EntryView::Bookmark(x), EntryView::Bookmark(y)) => x.page == y.page && x.location
                == y.location,
            _ => false,
        },
{
}

} // verus!
