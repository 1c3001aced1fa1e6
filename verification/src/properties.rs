//! Properties of the importers that hold for every input: how clippings are
//! grouped into books and sections, what duplicates are dropped, and what is
//! reported for blocks that cannot be read.
use crate::clippings::{
    add_clipping_spec, blocks_of, book_has_key, dedupe_key, detect_source_spec,
    find_book_from, find_section_from, fold_blocks, has_location, heading_of, new_book,
    parse_block_spec, parse_clippings_spec, push_entry_spec, ClippingView, DedupeKey,
};
use crate::convert::{forbidden_in_file_name, sanitize_spec};
use crate::markdown::{escape_yaml_spec, yaml_char};
use crate::parser::{
    class_of, close_spec, first_number, flush_spec, page_location_spec, parse_entry_spec, sections_spec, walk, walk_step,
    BookmarkView, BookView, EntryView, HtmlBlockView, SectionView, Source, WalkState,
};
use crate::text::{contains, find, trim};
use vstd::prelude::*;

verus! {

// ---------------------------------------------------------------------------
// Shape of a book
// ---------------------------------------------------------------------------

/// No two entries of the book are duplicates of each other.
pub open spec fn keys_distinct(b: BookView) -> bool {
    forall|s1: int, e1: int, s2: int, e2: int|
        0 <= s1 < b.sections.len() && 0 <= e1 < b.sections[s1].entries.len() && 0 <= s2
            < b.sections.len() && 0 <= e2 < b.sections[s2].entries.len() && (s1 != s2 || e1
            != e2) ==> dedupe_key(#[trigger] b.sections[s1].entries[e1]) != dedupe_key(
            #[trigger] b.sections[s2].entries[e2],
        )
}

/// No two sections of the book share a heading.
pub open spec fn headings_distinct(b: BookView) -> bool {
    forall|s1: int, s2: int|
        0 <= s1 < b.sections.len() && 0 <= s2 < b.sections.len() && s1 != s2 ==> (
        #[trigger] b.sections[s1]).heading != (#[trigger] b.sections[s2]).heading
}

/// Every section holds at least one entry.
pub open spec fn sections_filled(b: BookView) -> bool {
    forall|s: int| 0 <= s < b.sections.len() ==> (#[trigger] b.sections[s]).entries.len() > 0
}

/// The shape every book of a clippings file has.
pub open spec fn book_wf(b: BookView) -> bool {
    &&& keys_distinct(b)
    &&& headings_distinct(b)
    &&& sections_filled(b)
    &&& b.sections.len() > 0
    &&& b.citation.len() == 0
}

/// No two books share both title and author.
pub open spec fn books_distinct(bs: Seq<BookView>) -> bool {
    forall|i: int, j: int|
        0 <= i < bs.len() && 0 <= j < bs.len() && i != j ==> !((#[trigger] bs[i]).title
            == (#[trigger] bs[j]).title && bs[i].author == bs[j].author)
}

/// The invariant of the grouping: well-formed books, distinct by title and
/// author.
pub open spec fn books_wf(bs: Seq<BookView>) -> bool {
    &&& books_distinct(bs)
    &&& forall|i: int| 0 <= i < bs.len() ==> book_wf(#[trigger] bs[i])
}

/// Some book with this title and author holds an entry with key `k`.
pub open spec fn filed(bs: Seq<BookView>, title: Seq<char>, author: Seq<char>, k: DedupeKey) -> bool {
    exists|i: int|
        0 <= i < bs.len() && (#[trigger] bs[i]).title == title && bs[i].author == author
            && book_has_key(bs[i], k)
}

/// The clipping block `k` holds, if it holds one.
pub open spec fn clipping_at(blocks: Seq<Seq<char>>, k: int) -> Option<ClippingView> {
    match parse_block_spec(blocks[k]) {
        Ok(Some(c)) => Some(c),
        _ => None,
    }
}

/// The entry at section `s`, position `x` of book `i` was filed from some
/// clipping among the first `n` blocks: one with the book's title and author,
/// that clipping's entry, under the heading its chapter gives.
pub open spec fn from_clipping(blocks: Seq<Seq<char>>, n: int, b: BookView, s: int, x: int) -> bool {
    exists|k: int|
        {
            &&& 0 <= k < n
            &&& #[trigger] clipping_at(blocks, k) matches Some(c)
            &&& c.title == b.title
            &&& c.author == b.author
            &&& heading_of(c.chapter) == b.sections[s].heading
            &&& c.entry == b.sections[s].entries[x]
        }
}

/// Every entry of every book was filed from one of the first `n` blocks.
pub open spec fn all_from_clippings(blocks: Seq<Seq<char>>, n: int, bs: Seq<BookView>) -> bool {
    forall|i: int, s: int, x: int|
        0 <= i < bs.len() && 0 <= s < bs[i].sections.len() && 0 <= x < bs[i].sections[s].entries.len()
            ==> #[trigger] from_clipping(blocks, n, bs[i], s, x)
}

/// Number of blocks among the first `n` that could not be read.
pub open spec fn skipped_count(blocks: Seq<Seq<char>>, n: nat) -> nat
    decreases n,
{
    if n == 0 {
        0
    } else if parse_block_spec(blocks[n - 1]) is Err {
        skipped_count(blocks, (n - 1) as nat) + 1
    } else {
        skipped_count(blocks, (n - 1) as nat)
    }
}

/// Filing a clipping keeps the grouping invariant, keeps every book (with its
/// title, author and entries in place), and leaves the clipping's entry filed
/// under its book.
pub proof fn lemma_add_clipping(bs: Seq<BookView>, c: ClippingView)
    requires
        books_wf(bs),
    ensures
        books_wf(add_clipping_spec(bs, c)),
        filed(add_clipping_spec(bs, c), c.title, c.author, dedupe_key(c.entry)),
        forall|t: Seq<char>, a: Seq<char>, k: DedupeKey|
            filed(bs, t, a, k) ==> filed(add_clipping_spec(bs, c), t, a, k),
        bs.len() <= add_clipping_spec(bs, c).len(),
        forall|i: int|
            0 <= i < bs.len() ==> (#[trigger] add_clipping_spec(bs, c)[i]).title == bs[i].title
                && add_clipping_spec(bs, c)[i].author == bs[i].author && kept_in_place(
                bs[i],
                add_clipping_spec(bs, c)[i],
            ),
        forall|i: int, s: int, x: int|
            0 <= i < add_clipping_spec(bs, c).len() && 0 <= s < add_clipping_spec(bs, c)[i].sections.len()
                && 0 <= x < add_clipping_spec(bs, c)[i].sections[s].entries.len() ==> (i < bs.len()
                && s < bs[i].sections.len() && x < bs[i].sections[s].entries.len()) || (
            #[trigger] add_clipping_spec(bs, c)[i].sections[s].entries[x] == c.entry
                && add_clipping_spec(bs, c)[i].title == c.title && add_clipping_spec(bs, c)[i].author
                == c.author && add_clipping_spec(bs, c)[i].sections[s].heading == heading_of(
                c.chapter,
            )),
{
    let r = add_clipping_spec(bs, c);
    let k = dedupe_key(c.entry);
    lemma_find_book(bs, c.title, c.author, 0);
    match find_book_from(bs, c.title, c.author, 0) {
        Some(i) => {
            if book_has_key(bs[i], k) {
                assert(filed(r, c.title, c.author, k));
                assert forall|j: int| 0 <= j < bs.len() implies kept_in_place(
                    bs[j],
                    #[trigger] r[j],
                ) by {}
            } else {
                lemma_push_entry(bs[i], c.chapter, c.entry);
                assert forall|j: int| 0 <= j < r.len() && j != i implies #[trigger] r[j] == bs[j] by {}
                assert forall|j: int| 0 <= j < r.len() implies book_wf(#[trigger] r[j]) by {
                    if j != i {
                        assert(r[j] == bs[j]);
                    }
                }
                assert forall|j1: int, j2: int|
                    0 <= j1 < r.len() && 0 <= j2 < r.len() && j1 != j2 implies !((#[trigger] r[j1]).title
                    == (#[trigger] r[j2]).title && r[j1].author == r[j2].author) by {
                    assert(r[j1].title == bs[j1].title && r[j1].author == bs[j1].author);
                    assert(r[j2].title == bs[j2].title && r[j2].author == bs[j2].author);
                }
                assert(r[i].title == c.title);
                assert(filed(r, c.title, c.author, k));
                assert forall|t: Seq<char>, a: Seq<char>, kk: DedupeKey|
                    filed(bs, t, a, kk) implies filed(r, t, a, kk) by {
                    let j = choose|j: int|
                        0 <= j < bs.len() && (#[trigger] bs[j]).title == t && bs[j].author == a
                            && book_has_key(bs[j], kk);
                    assert(r[j].title == t);
                }
                assert forall|j: int| 0 <= j < bs.len() implies kept_in_place(
                    bs[j],
                    #[trigger] r[j],
                ) by {
                    if j != i {
                        assert(r[j] == bs[j]);
                    }
                }
            }
        },
        None => {
            let nb = new_book(c.title, c.author);
            assert(!book_has_key(nb, k));
            lemma_push_entry(nb, c.chapter, c.entry);
            let n = bs.len();
            assert forall|j: int| 0 <= j < n implies #[trigger] r[j] == bs[j] by {}
            assert forall|j: int| 0 <= j < r.len() implies book_wf(#[trigger] r[j]) by {
                if j < n {
                    assert(r[j] == bs[j]);
                }
            }
            assert forall|j1: int, j2: int|
                0 <= j1 < r.len() && 0 <= j2 < r.len() && j1 != j2 implies !((#[trigger] r[j1]).title
                == (#[trigger] r[j2]).title && r[j1].author == r[j2].author) by {
                if j1 < n {
                    assert(r[j1] == bs[j1]);
                }
                if j2 < n {
                    assert(r[j2] == bs[j2]);
                }
            }
            assert(r[n as int].title == c.title);
            assert(filed(r, c.title, c.author, k));
            assert forall|t: Seq<char>, a: Seq<char>, kk: DedupeKey|
                filed(bs, t, a, kk) implies filed(r, t, a, kk) by {
                let j = choose|j: int|
                    0 <= j < bs.len() && (#[trigger] bs[j]).title == t && bs[j].author == a
                        && book_has_key(bs[j], kk);
                assert(r[j] == bs[j]);
            }
            assert forall|j: int| 0 <= j < bs.len() implies kept_in_place(bs[j], #[trigger] r[j]) by {
                assert(r[j] == bs[j]);
            }
            assert(nb.sections.len() == 0);
        },
    }
}

pub proof fn lemma_find_section(secs: Seq<SectionView>, h: Seq<char>, i: int)
    requires
        0 <= i,
    ensures
        find_section_from(secs, h, i) matches Some(j) ==> {
            &&& i <= j < secs.len()
            &&& secs[j].heading == h
        },
        find_section_from(secs, h, i) is None ==> forall|k: int|
            i <= k < secs.len() ==> (#[trigger] secs[k]).heading != h,
    decreases secs.len() - i,
{
    if i < secs.len() && secs[i].heading != h {
        lemma_find_section(secs, h, i + 1);
    }
}

pub proof fn lemma_find_book(bs: Seq<BookView>, t: Seq<char>, a: Seq<char>, i: int)
    requires
        0 <= i,
    ensures
        find_book_from(bs, t, a, i) matches Some(j) ==> {
            &&& i <= j < bs.len()
            &&& bs[j].title == t
            &&& bs[j].author == a
        },
        find_book_from(bs, t, a, i) is None ==> forall|k: int|
            i <= k < bs.len() ==> !((#[trigger] bs[k]).title == t && bs[k].author == a),
    decreases bs.len() - i,
{
    if i < bs.len() && !(bs[i].title == t && bs[i].author == a) {
        lemma_find_book(bs, t, a, i + 1);
    }
}

/// Every section and entry of `b` is still at its position in `r`.
pub open spec fn kept_in_place(b: BookView, r: BookView) -> bool {
    &&& b.sections.len() <= r.sections.len()
    &&& forall|s: int|
        0 <= s < b.sections.len() ==> (#[trigger] r.sections[s]).heading == b.sections[s].heading
            && b.sections[s].entries.len() <= r.sections[s].entries.len()
    &&& forall|s: int, x: int|
        0 <= s < b.sections.len() && 0 <= x < b.sections[s].entries.len() ==> (
        #[trigger] r.sections[s].entries[x]) == b.sections[s].entries[x]
}

/// Filing an entry that the book does not hold yet keeps the book's shape,
/// keeps every entry it held, and makes the book hold the new entry.
pub proof fn lemma_push_entry(b: BookView, ch: Option<Seq<char>>, e: EntryView)
    requires
        keys_distinct(b),
        headings_distinct(b),
        sections_filled(b),
        b.citation.len() == 0,
        !book_has_key(b, dedupe_key(e)),
    ensures
        book_wf(push_entry_spec(b, ch, e)),
        book_has_key(push_entry_spec(b, ch, e), dedupe_key(e)),
        push_entry_spec(b, ch, e).title == b.title,
        push_entry_spec(b, ch, e).author == b.author,
        forall|k: DedupeKey| book_has_key(b, k) ==> book_has_key(push_entry_spec(b, ch, e), k),
        kept_in_place(b, push_entry_spec(b, ch, e)),
        forall|s: int, x: int|
            0 <= s < push_entry_spec(b, ch, e).sections.len() && 0 <= x < push_entry_spec(
                b,
                ch,
                e,
            ).sections[s].entries.len() ==> (s < b.sections.len() && x < b.sections[s].entries.len())
                || (push_entry_spec(b, ch, e).sections[s].heading == heading_of(ch)
                && #[trigger] push_entry_spec(b, ch, e).sections[s].entries[x] == e),
{
    let h = heading_of(ch);
    let r = push_entry_spec(b, ch, e);
    lemma_find_section(b.sections, h, 0);
    match find_section_from(b.sections, h, 0) {
        Some(j) => {
            let old_entries = b.sections[j].entries;
            assert(r.sections.len() == b.sections.len());
            assert forall|s: int| 0 <= s < r.sections.len() && s != j implies #[trigger] r.sections[s]
                == b.sections[s] by {}
            assert(r.sections[j].entries == old_entries.push(e));
            assert forall|s1: int, e1: int, s2: int, e2: int|
                0 <= s1 < r.sections.len() && 0 <= e1 < r.sections[s1].entries.len() && 0 <= s2
                    < r.sections.len() && 0 <= e2 < r.sections[s2].entries.len() && (s1 != s2
                    || e1 != e2) implies dedupe_key(#[trigger] r.sections[s1].entries[e1])
                != dedupe_key(#[trigger] r.sections[s2].entries[e2]) by {
                let new1 = s1 == j && e1 == old_entries.len();
                let new2 = s2 == j && e2 == old_entries.len();
                if !new1 {
                    assert(r.sections[s1].entries[e1] == b.sections[s1].entries[e1]);
                }
                if !new2 {
                    assert(r.sections[s2].entries[e2] == b.sections[s2].entries[e2]);
                }
                if new1 && !new2 {
                    assert(r.sections[s1].entries[e1] == e);
                    if dedupe_key(b.sections[s2].entries[e2]) == dedupe_key(e) {
                        assert(book_has_key(b, dedupe_key(e)));
                    }
                }
                if new2 && !new1 {
                    assert(r.sections[s2].entries[e2] == e);
                    if dedupe_key(b.sections[s1].entries[e1]) == dedupe_key(e) {
                        assert(book_has_key(b, dedupe_key(e)));
                    }
                }
            }
            assert forall|s1: int, s2: int|
                0 <= s1 < r.sections.len() && 0 <= s2 < r.sections.len() && s1 != s2 implies (
            #[trigger] r.sections[s1]).heading != (#[trigger] r.sections[s2]).heading by {
                assert(r.sections[s1].heading == b.sections[s1].heading);
                assert(r.sections[s2].heading == b.sections[s2].heading);
            }
            assert forall|s: int| 0 <= s < r.sections.len() implies (
            #[trigger] r.sections[s]).entries.len() > 0 by {
                if s != j {
                    assert(r.sections[s] == b.sections[s]);
                }
            }
            assert(r.sections[j].entries[old_entries.len() as int] == e);
            assert(book_has_key(r, dedupe_key(e)));
            assert forall|k: DedupeKey| book_has_key(b, k) implies book_has_key(r, k) by {
                let (s, x) = choose|s: int, x: int|
                    0 <= s < b.sections.len() && 0 <= x < b.sections[s].entries.len()
                        && #[trigger] dedupe_key(b.sections[s].entries[x]) == k;
                assert(r.sections[s].entries[x] == b.sections[s].entries[x]);
            }
        },
        None => {
            let n = b.sections.len();
            assert(r.sections == b.sections.push(SectionView { heading: h, entries: seq![e] }));
            assert forall|s: int| 0 <= s < n implies #[trigger] r.sections[s] == b.sections[s] by {}
            assert forall|s1: int, e1: int, s2: int, e2: int|
                0 <= s1 < r.sections.len() && 0 <= e1 < r.sections[s1].entries.len() && 0 <= s2
                    < r.sections.len() && 0 <= e2 < r.sections[s2].entries.len() && (s1 != s2
                    || e1 != e2) implies dedupe_key(#[trigger] r.sections[s1].entries[e1])
                != dedupe_key(#[trigger] r.sections[s2].entries[e2]) by {
                if s1 < n {
                    assert(r.sections[s1] == b.sections[s1]);
                }
                if s2 < n {
                    assert(r.sections[s2] == b.sections[s2]);
                }
                if s1 == n && s2 < n {
                    if dedupe_key(b.sections[s2].entries[e2]) == dedupe_key(e) {
                        assert(book_has_key(b, dedupe_key(e)));
                    }
                }
                if s2 == n && s1 < n {
                    if dedupe_key(b.sections[s1].entries[e1]) == dedupe_key(e) {
                        assert(book_has_key(b, dedupe_key(e)));
                    }
                }
            }
            assert forall|s1: int, s2: int|
                0 <= s1 < r.sections.len() && 0 <= s2 < r.sections.len() && s1 != s2 implies (
            #[trigger] r.sections[s1]).heading != (#[trigger] r.sections[s2]).heading by {
                if s1 < n {
                    assert(r.sections[s1] == b.sections[s1]);
                }
                if s2 < n {
                    assert(r.sections[s2] == b.sections[s2]);
                }
            }
            assert forall|s: int| 0 <= s < r.sections.len() implies (
            #[trigger] r.sections[s]).entries.len() > 0 by {
                if s < n {
                    assert(r.sections[s] == b.sections[s]);
                }
            }
            assert(r.sections[n as int].entries[0] == e);
            assert(book_has_key(r, dedupe_key(e)));
            assert forall|k: DedupeKey| book_has_key(b, k) implies book_has_key(r, k) by {
                let (s, x) = choose|s: int, x: int|
                    0 <= s < b.sections.len() && 0 <= x < b.sections[s].entries.len()
                        && #[trigger] dedupe_key(b.sections[s].entries[x]) == k;
                assert(r.sections[s] == b.sections[s]);
            }
        },
    }
}

/// The grouping invariant, completeness and provenance after the first `n`
/// blocks, and the number of warnings.
pub proof fn lemma_fold_blocks(blocks: Seq<Seq<char>>, n: nat)
    requires
        n <= blocks.len(),
    ensures
        books_wf(fold_blocks(blocks, n).books),
        forall|k: int|
            0 <= k < n && (#[trigger] clipping_at(blocks, k)) is Some ==> filed(
                fold_blocks(blocks, n).books,
                clipping_at(blocks, k)->0.title,
                clipping_at(blocks, k)->0.author,
                dedupe_key(clipping_at(blocks, k)->0.entry),
            ),
        all_from_clippings(blocks, n as int, fold_blocks(blocks, n).books),
        fold_blocks(blocks, n).warnings.len() == skipped_count(blocks, n),
    decreases n,
{
    if n > 0 {
        let m = (n - 1) as nat;
        lemma_fold_blocks(blocks, m);
        let prev = fold_blocks(blocks, m);
        let cur = fold_blocks(blocks, n);
        assert forall|i: int, s: int, x: int|
            0 <= i < prev.books.len() && 0 <= s < prev.books[i].sections.len() && 0 <= x
                < prev.books[i].sections[s].entries.len() implies #[trigger] from_clipping(
            blocks,
            n as int,
            prev.books[i],
            s,
            x,
        ) by {
            assert(from_clipping(blocks, m as int, prev.books[i], s, x));
            let k = choose|k: int|
                {
                    &&& 0 <= k < m
                    &&& #[trigger] clipping_at(blocks, k) matches Some(c)
                    &&& c.title == prev.books[i].title
                    &&& c.author == prev.books[i].author
                    &&& heading_of(c.chapter) == prev.books[i].sections[s].heading
                    &&& c.entry == prev.books[i].sections[s].entries[x]
                };
            assert(clipping_at(blocks, k) is Some);
        }
        match parse_block_spec(blocks[n - 1]) {
            Ok(None) => {
                assert(clipping_at(blocks, n - 1) is None);
            },
            Err(reason) => {
                assert(clipping_at(blocks, n - 1) is None);
            },
            Ok(Some(c)) => {
                assert(clipping_at(blocks, n - 1) == Some(c));
                lemma_add_clipping(prev.books, c);
                let r = cur.books;
                assert(r == add_clipping_spec(prev.books, c));
                assert forall|k: int|
                    0 <= k < n && (#[trigger] clipping_at(blocks, k)) is Some implies filed(
                    r,
                    clipping_at(blocks, k)->0.title,
                    clipping_at(blocks, k)->0.author,
                    dedupe_key(clipping_at(blocks, k)->0.entry),
                ) by {
                    if k < m {
                    }
                }
                assert forall|i: int, s: int, x: int|
                    0 <= i < r.len() && 0 <= s < r[i].sections.len() && 0 <= x
                        < r[i].sections[s].entries.len() implies #[trigger] from_clipping(
                    blocks,
                    n as int,
                    r[i],
                    s,
                    x,
                ) by {
                    if i < prev.books.len() && s < prev.books[i].sections.len() && x
                        < prev.books[i].sections[s].entries.len() {
                        assert(kept_in_place(prev.books[i], r[i]));
                        assert(r[i].sections[s].entries[x] == prev.books[i].sections[s].entries[x]);
                        assert(r[i].sections[s].heading == prev.books[i].sections[s].heading);
                        assert(from_clipping(blocks, n as int, prev.books[i], s, x));
                        let k = choose|k: int|
                            {
                                &&& 0 <= k < n
                                &&& #[trigger] clipping_at(blocks, k) matches Some(c)
                                &&& c.title == prev.books[i].title
                                &&& c.author == prev.books[i].author
                                &&& heading_of(c.chapter) == prev.books[i].sections[s].heading
                                &&& c.entry == prev.books[i].sections[s].entries[x]
                            };
                        assert(clipping_at(blocks, k) is Some);
                    } else {
                        assert(r[i].sections[s].entries[x] == c.entry);
                        assert(clipping_at(blocks, n - 1) is Some);
                    }
                }
            },
        }
    }
}

/// Block `k` holds a clipping of the book with this title and author.
pub open spec fn clipping_of_book(blocks: Seq<Seq<char>>, k: int, t: Seq<char>, a: Seq<char>) -> bool {
    clipping_at(blocks, k) matches Some(c) && c.title == t && c.author == a
}

/// Block `k` holds the first clipping of the book with this title and author.
pub open spec fn first_clipping_of_book(blocks: Seq<Seq<char>>, k: int, t: Seq<char>, a: Seq<char>) -> bool {
    &&& 0 <= k
    &&& clipping_of_book(blocks, k, t, a)
    &&& forall|j: int| 0 <= j < k ==> !#[trigger] clipping_of_book(blocks, j, t, a)
}

/// The book's first clipping is among the first `n` blocks.
pub open spec fn first_appears_within(blocks: Seq<Seq<char>>, n: int, b: BookView) -> bool {
    exists|k: int| k < n && #[trigger] first_clipping_of_book(blocks, k, b.title, b.author)
}

/// Books stand in the order in which their first clippings appear among the
/// first `n` blocks.
pub open spec fn in_order_of_first_appearance(blocks: Seq<Seq<char>>, n: int, bs: Seq<BookView>) -> bool {
    &&& forall|i: int| 0 <= i < bs.len() ==> #[trigger] first_appears_within(blocks, n, bs[i])
    &&& forall|i: int, j: int, ki: int, kj: int|
        0 <= i < j < bs.len() && #[trigger] first_clipping_of_book(blocks, ki, bs[i].title, bs[i].author)
            && #[trigger] first_clipping_of_book(blocks, kj, bs[j].title, bs[j].author) ==> ki < kj
}

proof fn lemma_first_clipping_unique(blocks: Seq<Seq<char>>, k1: int, k2: int, t: Seq<char>, a: Seq<char>)
    requires
        first_clipping_of_book(blocks, k1, t, a),
        first_clipping_of_book(blocks, k2, t, a),
    ensures
        k1 == k2,
{
    if k1 < k2 {
        assert(!clipping_of_book(blocks, k1, t, a));
    }
    if k2 < k1 {
        assert(!clipping_of_book(blocks, k2, t, a));
    }
}

/// The books after the first `n` blocks stand in order of first appearance.
pub proof fn lemma_fold_order(blocks: Seq<Seq<char>>, n: nat)
    requires
        n <= blocks.len(),
    ensures
        in_order_of_first_appearance(blocks, n as int, fold_blocks(blocks, n).books),
    decreases n,
{
    if n > 0 {
        let m = (n - 1) as nat;
        lemma_fold_order(blocks, m);
        lemma_fold_blocks(blocks, m);
        let prev = fold_blocks(blocks, m).books;
        let cur = fold_blocks(blocks, n).books;
        match parse_block_spec(blocks[m as int]) {
            Ok(None) => {
                assert(clipping_at(blocks, m as int) is None);
                assert(cur == prev);
                assert forall|i: int| 0 <= i < cur.len() implies #[trigger] first_appears_within(blocks, n as int, cur[i]) by {
                    assert(first_appears_within(blocks, m as int, prev[i]));
                    let k = choose|k: int| k < m && #[trigger] first_clipping_of_book(blocks, k, prev[i].title, prev[i].author);
                }
            },
            Err(_) => {
                assert(clipping_at(blocks, m as int) is None);
                assert(cur == prev);
                assert forall|i: int| 0 <= i < cur.len() implies #[trigger] first_appears_within(blocks, n as int, cur[i]) by {
                    assert(first_appears_within(blocks, m as int, prev[i]));
                    let k = choose|k: int| k < m && #[trigger] first_clipping_of_book(blocks, k, prev[i].title, prev[i].author);
                }
            },
            Ok(Some(c)) => {
                assert(clipping_at(blocks, m as int) == Some(c));
                lemma_add_clipping(prev, c);
                lemma_find_book(prev, c.title, c.author, 0);
                assert(cur == add_clipping_spec(prev, c));
                match find_book_from(prev, c.title, c.author, 0) {
                    Some(idx) => {
                        assert(cur.len() == prev.len());
                        assert forall|i: int| 0 <= i < cur.len() implies cur[i].title == prev[i].title
                            && cur[i].author == prev[i].author by {}
                        assert forall|i: int| 0 <= i < cur.len() implies #[trigger] first_appears_within(blocks, n as int, cur[i]) by {
                            assert(first_appears_within(blocks, m as int, prev[i]));
                            let k = choose|k: int| k < m && #[trigger] first_clipping_of_book(blocks, k, prev[i].title, prev[i].author);
                            assert(first_clipping_of_book(blocks, k, cur[i].title, cur[i].author));
                        }
                        assert forall|i: int, j: int, ki: int, kj: int|
                            0 <= i < j < cur.len() && #[trigger] first_clipping_of_book(blocks, ki, cur[i].title, cur[i].author)
                                && #[trigger] first_clipping_of_book(blocks, kj, cur[j].title, cur[j].author) implies ki < kj by {
                            assert(first_clipping_of_book(blocks, ki, prev[i].title, prev[i].author));
                            assert(first_clipping_of_book(blocks, kj, prev[j].title, prev[j].author));
                        }
                    },
                    None => {
                        let nb = prev.len();
                        assert(cur.len() == nb + 1);
                        assert forall|i: int| 0 <= i < nb implies #[trigger] cur[i] == prev[i] by {}
                        assert(cur[nb as int].title == c.title && cur[nb as int].author == c.author);
                        // No earlier block holds a clipping of the new book: it would have filed one.
                        assert forall|j: int| 0 <= j < m implies !#[trigger] clipping_of_book(
                            blocks,
                            j,
                            c.title,
                            c.author,
                        ) by {
                            if clipping_of_book(blocks, j, c.title, c.author) {
                                assert(clipping_at(blocks, j) is Some);
                                assert(filed(prev, c.title, c.author, dedupe_key(clipping_at(blocks, j)->0.entry)));
                                let w = choose|w: int|
                                    0 <= w < prev.len() && (#[trigger] prev[w]).title == c.title
                                        && prev[w].author == c.author && book_has_key(
                                        prev[w],
                                        dedupe_key(clipping_at(blocks, j)->0.entry),
                                    );
                                assert(!(prev[w].title == c.title && prev[w].author == c.author));
                            }
                        }
                        assert(first_clipping_of_book(blocks, m as int, c.title, c.author));
                        assert forall|i: int| 0 <= i < cur.len() implies #[trigger] first_appears_within(blocks, n as int, cur[i]) by {
                            if i < nb {
                                assert(first_appears_within(blocks, m as int, prev[i]));
                                let k = choose|k: int| k < m && #[trigger] first_clipping_of_book(blocks, k, prev[i].title, prev[i].author);
                            } else {
                                assert(first_clipping_of_book(blocks, m as int, cur[i].title, cur[i].author));
                            }
                        }
                        assert forall|i: int, j: int, ki: int, kj: int|
                            0 <= i < j < cur.len() && #[trigger] first_clipping_of_book(blocks, ki, cur[i].title, cur[i].author)
                                && #[trigger] first_clipping_of_book(blocks, kj, cur[j].title, cur[j].author) implies ki < kj by {
                            assert(cur[i] == prev[i]);
                            assert(first_appears_within(blocks, m as int, prev[i]));
                            let k = choose|k: int| k < m && #[trigger] first_clipping_of_book(blocks, k, prev[i].title, prev[i].author);
                            lemma_first_clipping_unique(blocks, k, ki, prev[i].title, prev[i].author);
                            if j < nb {
                                assert(cur[j] == prev[j]);
                            } else {
                                lemma_first_clipping_unique(blocks, m as int, kj, c.title, c.author);
                            }
                        }
                    },
                }
            },
        }
    }
}

/// Block `k` holds a clipping that was filed, not dropped as a duplicate.
pub open spec fn filed_at(blocks: Seq<Seq<char>>, k: int) -> bool {
    clipping_at(blocks, k) matches Some(c) && ({
        let bs = fold_blocks(blocks, k as nat).books;
        match find_book_from(bs, c.title, c.author, 0) {
            Some(i) => !book_has_key(bs[i], dedupe_key(c.entry)),
            None => true,
        }
    })
}

/// Block `k` holds a filed clipping of this book under heading `h`.
pub open spec fn files_under(blocks: Seq<Seq<char>>, k: int, t: Seq<char>, a: Seq<char>, h: Seq<char>) -> bool {
    &&& filed_at(blocks, k)
    &&& clipping_of_book(blocks, k, t, a)
    &&& heading_of(clipping_at(blocks, k)->0.chapter) == h
}

/// Block `k` holds the first filed clipping of this book under heading `h`.
pub open spec fn first_files_under(blocks: Seq<Seq<char>>, k: int, t: Seq<char>, a: Seq<char>, h: Seq<char>) -> bool {
    &&& 0 <= k
    &&& files_under(blocks, k, t, a, h)
    &&& forall|j: int| 0 <= j < k ==> !#[trigger] files_under(blocks, j, t, a, h)
}

/// The first filed clipping under section `s` of book `b` is among the first
/// `n` blocks.
pub open spec fn section_first_within(blocks: Seq<Seq<char>>, n: int, b: BookView, s: int) -> bool {
    exists|k: int| k < n && #[trigger] first_files_under(blocks, k, b.title, b.author, b.sections[s].heading)
}

/// Book `b` has a section headed `h`.
pub open spec fn has_section(b: BookView, h: Seq<char>) -> bool {
    exists|s: int| 0 <= s < b.sections.len() && (#[trigger] b.sections[s]).heading == h
}

/// Within each book, sections stand in the order in which their first filed
/// clippings appear among the first `n` blocks.
pub open spec fn sections_in_order(blocks: Seq<Seq<char>>, n: int, bs: Seq<BookView>) -> bool {
    &&& forall|i: int, s: int|
        0 <= i < bs.len() && 0 <= s < bs[i].sections.len() ==> #[trigger] section_first_within(
            blocks,
            n,
            bs[i],
            s,
        )
    &&& forall|i: int, s1: int, s2: int, k1: int, k2: int|
        0 <= i < bs.len() && 0 <= s1 < s2 < bs[i].sections.len() && #[trigger] first_files_under(
            blocks,
            k1,
            bs[i].title,
            bs[i].author,
            bs[i].sections[s1].heading,
        ) && #[trigger] first_files_under(
            blocks,
            k2,
            bs[i].title,
            bs[i].author,
            bs[i].sections[s2].heading,
        ) ==> k1 < k2
}

/// Every filed clipping among the first `n` blocks has its section in its
/// book.
pub open spec fn sections_complete(blocks: Seq<Seq<char>>, n: int, bs: Seq<BookView>) -> bool {
    forall|k: int, t: Seq<char>, a: Seq<char>, h: Seq<char>|
        0 <= k < n && #[trigger] files_under(blocks, k, t, a, h) ==> exists|i: int|
            0 <= i < bs.len() && (#[trigger] bs[i]).title == t && bs[i].author == a && has_section(bs[i], h)
}

proof fn lemma_first_files_unique(
    blocks: Seq<Seq<char>>,
    k1: int,
    k2: int,
    t: Seq<char>,
    a: Seq<char>,
    h: Seq<char>,
)
    requires
        first_files_under(blocks, k1, t, a, h),
        first_files_under(blocks, k2, t, a, h),
    ensures
        k1 == k2,
{
    if k1 < k2 {
        assert(!files_under(blocks, k1, t, a, h));
    }
    if k2 < k1 {
        assert(!files_under(blocks, k2, t, a, h));
    }
}

/// After the first `n` blocks, every filed clipping has its section, and
/// sections stand in order of their first filed clippings.
pub proof fn lemma_fold_sections(blocks: Seq<Seq<char>>, n: nat)
    requires
        n <= blocks.len(),
    ensures
        sections_complete(blocks, n as int, fold_blocks(blocks, n).books),
        sections_in_order(blocks, n as int, fold_blocks(blocks, n).books),
    decreases n,
{
    if n > 0 {
        let m = (n - 1) as nat;
        lemma_fold_sections(blocks, m);
        lemma_fold_blocks(blocks, m);
        let prev = fold_blocks(blocks, m).books;
        let cur = fold_blocks(blocks, n).books;
        if !filed_at(blocks, m as int) {
            // Nothing is filed: a blank block, an unreadable one, or a duplicate.
            assert(cur == prev) by {
                match parse_block_spec(blocks[m as int]) {
                    Ok(Some(c)) => {
                        assert(clipping_at(blocks, m as int) == Some(c));
                    },
                    _ => {},
                }
            }
            assert forall|k: int, t: Seq<char>, a: Seq<char>, h: Seq<char>|
                0 <= k < n && #[trigger] files_under(blocks, k, t, a, h) implies exists|i: int|
                    0 <= i < cur.len() && (#[trigger] cur[i]).title == t && cur[i].author == a
                        && has_section(cur[i], h) by {
                if k == m {
                    assert(filed_at(blocks, m as int));
                }
            }
            assert forall|i: int, s: int|
                0 <= i < cur.len() && 0 <= s < cur[i].sections.len() implies #[trigger] section_first_within(
                blocks,
                n as int,
                cur[i],
                s,
            ) by {
                assert(section_first_within(blocks, m as int, prev[i], s));
            }
        } else {
            let c = clipping_at(blocks, m as int)->0;
            assert(parse_block_spec(blocks[m as int]) == Ok::<Option<ClippingView>, Seq<char>>(Some(c)));
            assert(cur == add_clipping_spec(prev, c));
            let hc = heading_of(c.chapter);
            assert(files_under(blocks, m as int, c.title, c.author, hc));
            lemma_find_book(prev, c.title, c.author, 0);
            match find_book_from(prev, c.title, c.author, 0) {
                Some(idx) => {
                    let b = prev[idx];
                    let nb = push_entry_spec(b, c.chapter, c.entry);
                    assert(cur == prev.update(idx, nb));
                    lemma_find_section(b.sections, hc, 0);
                    assert forall|j: int| 0 <= j < cur.len() && j != idx implies #[trigger] cur[j] == prev[j] by {}
                    assert(nb.title == b.title && nb.author == b.author);
                    match find_section_from(b.sections, hc, 0) {
                        Some(sj) => {
                            assert(nb.sections.len() == b.sections.len());
                            assert forall|s: int| 0 <= s < nb.sections.len() implies (#[trigger] nb.sections[s]).heading
                                == b.sections[s].heading by {}
                        },
                        None => {
                            assert(nb.sections == b.sections.push(
                                SectionView { heading: hc, entries: seq![c.entry] },
                            ));
                            // No earlier block filed under `hc` in this book.
                            assert forall|j: int| 0 <= j < m implies !#[trigger] files_under(
                                blocks,
                                j,
                                c.title,
                                c.author,
                                hc,
                            ) by {
                                if files_under(blocks, j, c.title, c.author, hc) {
                                    let w = choose|w: int|
                                        0 <= w < prev.len() && (#[trigger] prev[w]).title == c.title
                                            && prev[w].author == c.author && has_section(prev[w], hc);
                                    assert(w == idx);
                                    let s = choose|s: int|
                                        0 <= s < b.sections.len() && (#[trigger] b.sections[s]).heading == hc;
                                }
                            }
                            assert(first_files_under(blocks, m as int, c.title, c.author, hc));
                        },
                    }
                    assert forall|k: int, t: Seq<char>, a: Seq<char>, h: Seq<char>|
                        0 <= k < n && #[trigger] files_under(blocks, k, t, a, h) implies exists|i: int|
                            0 <= i < cur.len() && (#[trigger] cur[i]).title == t && cur[i].author == a
                                && has_section(cur[i], h) by {
                        if k == m {
                            assert(t == c.title && a == c.author && h == hc);
                            assert(cur[idx] == nb);
                            match find_section_from(b.sections, hc, 0) {
                                Some(sj) => {
                                    assert(nb.sections[sj].heading == hc);
                                },
                                None => {
                                    assert(nb.sections[b.sections.len() as int].heading == hc);
                                },
                            }
                        } else {
                            let w = choose|w: int|
                                0 <= w < prev.len() && (#[trigger] prev[w]).title == t && prev[w].author == a
                                    && has_section(prev[w], h);
                            let s = choose|s: int|
                                0 <= s < prev[w].sections.len() && (#[trigger] prev[w].sections[s]).heading == h;
                            assert(cur[w].title == t && cur[w].author == a);
                            assert(cur[w].sections[s].heading == h);
                        }
                    }
                    assert forall|i: int, s: int|
                        0 <= i < cur.len() && 0 <= s < cur[i].sections.len() implies #[trigger] section_first_within(
                        blocks,
                        n as int,
                        cur[i],
                        s,
                    ) by {
                        if i != idx || s < b.sections.len() {
                            assert(cur[i].title == prev[i].title && cur[i].author == prev[i].author);
                            assert(cur[i].sections[s].heading == prev[i].sections[s].heading);
                            assert(section_first_within(blocks, m as int, prev[i], s));
                            let k = choose|k: int|
                                k < m && #[trigger] first_files_under(
                                    blocks,
                                    k,
                                    prev[i].title,
                                    prev[i].author,
                                    prev[i].sections[s].heading,
                                );
                        } else {
                            assert(cur[i].sections[s].heading == hc);
                        }
                    }
                    assert forall|i: int, s1: int, s2: int, k1: int, k2: int|
                        0 <= i < cur.len() && 0 <= s1 < s2 < cur[i].sections.len() && #[trigger] first_files_under(
                            blocks,
                            k1,
                            cur[i].title,
                            cur[i].author,
                            cur[i].sections[s1].heading,
                        ) && #[trigger] first_files_under(
                            blocks,
                            k2,
                            cur[i].title,
                            cur[i].author,
                            cur[i].sections[s2].heading,
                        ) implies k1 < k2 by {
                        assert(cur[i].title == prev[i].title && cur[i].author == prev[i].author);
                        assert(cur[i].sections[s1].heading == prev[i].sections[s1].heading);
                        assert(section_first_within(blocks, m as int, prev[i], s1));
                        let q1 = choose|k: int|
                            k < m && #[trigger] first_files_under(
                                blocks,
                                k,
                                prev[i].title,
                                prev[i].author,
                                prev[i].sections[s1].heading,
                            );
                        lemma_first_files_unique(
                            blocks,
                            q1,
                            k1,
                            prev[i].title,
                            prev[i].author,
                            prev[i].sections[s1].heading,
                        );
                        if i != idx || s2 < b.sections.len() {
                            assert(cur[i].sections[s2].heading == prev[i].sections[s2].heading);
                        } else {
                            lemma_first_files_unique(blocks, m as int, k2, c.title, c.author, hc);
                        }
                    }
                },
                None => {
                    let nb0 = new_book(c.title, c.author);
                    let nb = push_entry_spec(nb0, c.chapter, c.entry);
                    let last = prev.len() as int;
                    assert(cur == prev.push(nb));
                    assert(nb.sections == seq![SectionView { heading: hc, entries: seq![c.entry] }]);
                    assert forall|j: int| 0 <= j < m implies !#[trigger] files_under(
                        blocks,
                        j,
                        c.title,
                        c.author,
                        hc,
                    ) by {
                        if files_under(blocks, j, c.title, c.author, hc) {
                            let w = choose|w: int|
                                0 <= w < prev.len() && (#[trigger] prev[w]).title == c.title
                                    && prev[w].author == c.author && has_section(prev[w], hc);
                        }
                    }
                    assert(first_files_under(blocks, m as int, c.title, c.author, hc));
                    assert forall|k: int, t: Seq<char>, a: Seq<char>, h: Seq<char>|
                        0 <= k < n && #[trigger] files_under(blocks, k, t, a, h) implies exists|i: int|
                            0 <= i < cur.len() && (#[trigger] cur[i]).title == t && cur[i].author == a
                                && has_section(cur[i], h) by {
                        if k == m {
                            assert(cur[last].sections[0].heading == hc);
                            assert(has_section(cur[last], h));
                        } else {
                            let w = choose|w: int|
                                0 <= w < prev.len() && (#[trigger] prev[w]).title == t && prev[w].author == a
                                    && has_section(prev[w], h);
                            assert(cur[w] == prev[w]);
                        }
                    }
                    assert forall|i: int, s: int|
                        0 <= i < cur.len() && 0 <= s < cur[i].sections.len() implies #[trigger] section_first_within(
                        blocks,
                        n as int,
                        cur[i],
                        s,
                    ) by {
                        if i < last {
                            assert(cur[i] == prev[i]);
                            assert(section_first_within(blocks, m as int, prev[i], s));
                            let k = choose|k: int|
                                k < m && #[trigger] first_files_under(
                                    blocks,
                                    k,
                                    prev[i].title,
                                    prev[i].author,
                                    prev[i].sections[s].heading,
                                );
                        } else {
                            assert(cur[i].sections[s].heading == hc);
                        }
                    }
                    assert forall|i: int, s1: int, s2: int, k1: int, k2: int|
                        0 <= i < cur.len() && 0 <= s1 < s2 < cur[i].sections.len() && #[trigger] first_files_under(
                            blocks,
                            k1,
                            cur[i].title,
                            cur[i].author,
                            cur[i].sections[s1].heading,
                        ) && #[trigger] first_files_under(
                            blocks,
                            k2,
                            cur[i].title,
                            cur[i].author,
                            cur[i].sections[s2].heading,
                        ) implies k1 < k2 by {
                        assert(i < last);
                        assert(cur[i] == prev[i]);
                    }
                },
            }
        }
    }
}

/// Telling each book's source changes nothing else about the books.
pub proof fn lemma_with_sources(bs: Seq<BookView>)
    ensures
        ({
            let r = bs.map_values(|b: BookView| BookView { source: detect_source_spec(b), ..b });
            &&& r.len() == bs.len()
            &&& forall|i: int|
                0 <= i < bs.len() ==> (#[trigger] r[i]).sections == bs[i].sections && r[i].title
                    == bs[i].title && r[i].author == bs[i].author && r[i].citation
                    == bs[i].citation && r[i].source == detect_source_spec(bs[i])
        }),
{
}

/// Books stand in the order in which their first clippings appear in the
/// file.
pub proof fn law_clippings_books_in_order_of_first_appearance(content: Seq<char>)
    ensures
        in_order_of_first_appearance(
            blocks_of(content),
            blocks_of(content).len() as int,
            parse_clippings_spec(content).books,
        ),
{
    let blocks = blocks_of(content);
    lemma_fold_order(blocks, blocks.len());
    let st = fold_blocks(blocks, blocks.len());
    let r = parse_clippings_spec(content).books;
    lemma_with_sources(st.books);
    assert forall|i: int| 0 <= i < r.len() implies #[trigger] first_appears_within(blocks, blocks.len() as int, r[i]) by {
        assert(first_appears_within(blocks, blocks.len() as int, st.books[i]));
        let k = choose|k: int| k < blocks.len() && #[trigger] first_clipping_of_book(blocks, k, st.books[i].title, st.books[i].author);
    }
    assert forall|i: int, j: int, ki: int, kj: int|
        0 <= i < j < r.len() && #[trigger] first_clipping_of_book(blocks, ki, r[i].title, r[i].author)
            && #[trigger] first_clipping_of_book(blocks, kj, r[j].title, r[j].author) implies ki < kj by {
        assert(first_clipping_of_book(blocks, ki, st.books[i].title, st.books[i].author));
        assert(first_clipping_of_book(blocks, kj, st.books[j].title, st.books[j].author));
    }
}

/// Within each book, chapters become sections in the order in which their
/// first filed clippings (those not dropped as duplicates) appear in the file.
pub proof fn law_clippings_sections_in_order_of_first_appearance(content: Seq<char>)
    ensures
        sections_in_order(
            blocks_of(content),
            blocks_of(content).len() as int,
            parse_clippings_spec(content).books,
        ),
{
    let blocks = blocks_of(content);
    lemma_fold_sections(blocks, blocks.len());
    let st = fold_blocks(blocks, blocks.len());
    let r = parse_clippings_spec(content).books;
    lemma_with_sources(st.books);
    let n = blocks.len() as int;
    assert forall|i: int, s: int|
        0 <= i < r.len() && 0 <= s < r[i].sections.len() implies #[trigger] section_first_within(
        blocks,
        n,
        r[i],
        s,
    ) by {
        assert(section_first_within(blocks, n, st.books[i], s));
        let k = choose|k: int|
            k < n && #[trigger] first_files_under(
                blocks,
                k,
                st.books[i].title,
                st.books[i].author,
                st.books[i].sections[s].heading,
            );
    }
    assert forall|i: int, s1: int, s2: int, k1: int, k2: int|
        0 <= i < r.len() && 0 <= s1 < s2 < r[i].sections.len() && #[trigger] first_files_under(
            blocks,
            k1,
            r[i].title,
            r[i].author,
            r[i].sections[s1].heading,
        ) && #[trigger] first_files_under(
            blocks,
            k2,
            r[i].title,
            r[i].author,
            r[i].sections[s2].heading,
        ) implies k1 < k2 by {
        assert(first_files_under(blocks, k1, st.books[i].title, st.books[i].author, st.books[i].sections[s1].heading));
        assert(first_files_under(blocks, k2, st.books[i].title, st.books[i].author, st.books[i].sections[s2].heading));
    }
}

/// Books of a clippings file are well formed: no two share both title and
/// author, no book has two sections with the same heading, every book has a
/// section and every section an entry, no book holds two entries with the same
/// text (highlights, notes) or the same position (bookmarks), and no book has
/// a citation.
pub proof fn law_clippings_books_well_formed(content: Seq<char>)
    ensures
        books_wf(parse_clippings_spec(content).books),
{
    let blocks = blocks_of(content);
    lemma_fold_blocks(blocks, blocks.len());
    let st = fold_blocks(blocks, blocks.len());
    let r = parse_clippings_spec(content).books;
    lemma_with_sources(st.books);
    assert forall|i: int| 0 <= i < r.len() implies book_wf(#[trigger] r[i]) by {
        assert(book_wf(st.books[i]));
    }
}

/// Every clipping read from the file is filed under its book (same title and
/// author): the book holds an entry with the clipping's text (or, for a
/// bookmark, its position). Only exact duplicates within a book are dropped.
pub proof fn law_clippings_every_clipping_filed(content: Seq<char>, k: int)
    requires
        0 <= k < blocks_of(content).len(),
        clipping_at(blocks_of(content), k) is Some,
    ensures
        filed(
            parse_clippings_spec(content).books,
            clipping_at(blocks_of(content), k)->0.title,
            clipping_at(blocks_of(content), k)->0.author,
            dedupe_key(clipping_at(blocks_of(content), k)->0.entry),
        ),
{
    let blocks = blocks_of(content);
    lemma_fold_blocks(blocks, blocks.len());
    let st = fold_blocks(blocks, blocks.len());
    let r = parse_clippings_spec(content).books;
    lemma_with_sources(st.books);
    let c = clipping_at(blocks, k)->0;
    let i = choose|i: int|
        0 <= i < st.books.len() && (#[trigger] st.books[i]).title == c.title && st.books[i].author
            == c.author && book_has_key(st.books[i], dedupe_key(c.entry));
    assert(r[i].sections == st.books[i].sections);
    assert(book_has_key(r[i], dedupe_key(c.entry)));
}

/// Every entry of every book comes from a clipping of the file with that
/// book's title and author, and sits in the section its chapter names (the
/// "Highlights" section when the clipping has no chapter).
pub proof fn law_clippings_entries_come_from_file(content: Seq<char>)
    ensures
        all_from_clippings(
            blocks_of(content),
            blocks_of(content).len() as int,
            parse_clippings_spec(content).books,
        ),
{
    let blocks = blocks_of(content);
    lemma_fold_blocks(blocks, blocks.len());
    let st = fold_blocks(blocks, blocks.len());
    let r = parse_clippings_spec(content).books;
    lemma_with_sources(st.books);
    assert forall|i: int, s: int, x: int|
        0 <= i < r.len() && 0 <= s < r[i].sections.len() && 0 <= x < r[i].sections[s].entries.len()
            implies #[trigger] from_clipping(blocks, blocks.len() as int, r[i], s, x) by {
        assert(from_clipping(blocks, blocks.len() as int, st.books[i], s, x));
        let k = choose|k: int|
            {
                &&& 0 <= k < blocks.len()
                &&& #[trigger] clipping_at(blocks, k) matches Some(c)
                &&& c.title == st.books[i].title
                &&& c.author == st.books[i].author
                &&& heading_of(c.chapter) == st.books[i].sections[s].heading
                &&& c.entry == st.books[i].sections[s].entries[x]
            };
        assert(clipping_at(blocks, k) is Some);
    }
}

/// Each block that looks like a clipping but cannot be read is skipped with
/// exactly one warning; blank blocks and clippings give none.
pub proof fn law_clippings_one_warning_per_skipped_block(content: Seq<char>)
    ensures
        parse_clippings_spec(content).warnings.len() == skipped_count(
            blocks_of(content),
            blocks_of(content).len(),
        ),
{
    lemma_fold_blocks(blocks_of(content), blocks_of(content).len());
}

/// A book is marked as coming from a Kindle device exactly when one of its
/// entries carries a Location; otherwise it is marked as CrossInk.
pub proof fn law_clippings_source_from_locations(content: Seq<char>)
    ensures
        forall|i: int|
            0 <= i < parse_clippings_spec(content).books.len() ==> ((#[trigger] parse_clippings_spec(
                content,
            ).books[i]).source == Source::KindleClippings <==> has_location(
                parse_clippings_spec(content).books[i],
            )),
{
    let blocks = blocks_of(content);
    let st = fold_blocks(blocks, blocks.len());
    lemma_with_sources(st.books);
}

// ---------------------------------------------------------------------------
// Frontmatter escaping
// ---------------------------------------------------------------------------

/// Reading back a double-quoted YAML scalar body: `\\` stands for a
/// backslash and `\"` for a double quote; any other character stands for
/// itself.
pub open spec fn unescape_yaml(s: Seq<char>) -> Seq<char>
    decreases s.len(),
{
    if s.len() == 0 {
        Seq::empty()
    } else if s.len() >= 2 && s[0] == '\\' {
        seq![s[1]] + unescape_yaml(s.skip(2))
    } else {
        seq![s[0]] + unescape_yaml(s.skip(1))
    }
}

/// A line break read as a space.
pub open spec fn newline_to_space(c: char) -> char {
    if c == '\n' {
        ' '
    } else {
        c
    }
}

proof fn lemma_escape_concat(a: Seq<char>, b: Seq<char>)
    ensures
        escape_yaml_spec(a + b) == escape_yaml_spec(a) + escape_yaml_spec(b),
    decreases b.len(),
{
    if b.len() == 0 {
        assert(a + b =~= a);
        assert(escape_yaml_spec(a) + escape_yaml_spec(b) =~= escape_yaml_spec(a));
    } else {
        lemma_escape_concat(a, b.drop_last());
        assert((a + b).drop_last() =~= a + b.drop_last());
        assert((a + b).last() == b.last());
        assert(escape_yaml_spec(a + b) =~= escape_yaml_spec(a) + escape_yaml_spec(b));
    }
}

/// The escaped form of a value never spans more than one line.
pub proof fn law_escaped_yaml_is_one_line(s: Seq<char>)
    ensures
        forall|i: int| 0 <= i < escape_yaml_spec(s).len() ==> escape_yaml_spec(s)[i] != '\n',
    decreases s.len(),
{
    if s.len() > 0 {
        law_escaped_yaml_is_one_line(s.drop_last());
        let e = escape_yaml_spec(s);
        let p = escape_yaml_spec(s.drop_last());
        assert forall|i: int| 0 <= i < e.len() implies e[i] != '\n' by {
            if i >= p.len() {
                assert(e[i] == yaml_char(s.last())[i - p.len()]);
            } else {
                assert(e[i] == p[i]);
            }
        }
    }
}

/// Reading the escaped form back gives the value again, with its line breaks
/// turned into spaces.
pub proof fn law_escape_yaml_round_trip(s: Seq<char>)
    ensures
        unescape_yaml(escape_yaml_spec(s)) == s.map_values(|c: char| newline_to_space(c)),
    decreases s.len(),
{
    if s.len() == 0 {
        assert(s.map_values(|c: char| newline_to_space(c)) =~= Seq::<char>::empty());
    } else {
        let c = s[0];
        let rest = s.drop_first();
        law_escape_yaml_round_trip(rest);
        assert(s =~= seq![c] + rest);
        lemma_escape_concat(seq![c], rest);
        assert(seq![c].drop_last() =~= Seq::<char>::empty());
        assert(escape_yaml_spec(Seq::<char>::empty()) == Seq::<char>::empty());
        assert(seq![c].last() == c);
        assert(escape_yaml_spec(seq![c]) =~= yaml_char(c));
        let e = yaml_char(c) + escape_yaml_spec(rest);
        assert(escape_yaml_spec(s) == e);
        if c == '\\' || c == '"' {
            assert(e.skip(2) =~= escape_yaml_spec(rest));
        } else {
            assert(e.skip(1) =~= escape_yaml_spec(rest));
        }
        assert(s.map_values(|c: char| newline_to_space(c)) =~= seq![newline_to_space(c)]
            + rest.map_values(|c: char| newline_to_space(c)));
    }
}

// ---------------------------------------------------------------------------
// Note file names
// ---------------------------------------------------------------------------

/// A sanitized file name has the length of the name it came from, holds no
/// character that a file name cannot hold, keeps every other character, and
/// sanitizing it again changes nothing.
pub proof fn law_sanitized_names_are_safe(name: Seq<char>)
    ensures
        sanitize_spec(name).len() == name.len(),
        forall|i: int|
            0 <= i < name.len() ==> !forbidden_in_file_name(#[trigger] sanitize_spec(name)[i]),
        forall|i: int|
            0 <= i < name.len() && !forbidden_in_file_name(name[i]) ==> #[trigger] sanitize_spec(
                name,
            )[i] == name[i],
        sanitize_spec(sanitize_spec(name)) == sanitize_spec(name),
{
    assert(sanitize_spec(sanitize_spec(name)) =~= sanitize_spec(name));
}

// ---------------------------------------------------------------------------
// Notebook exports
// ---------------------------------------------------------------------------

/// The trimmed texts of the "sectionHeading" elements among the first `n`
/// body elements, in document order.
pub open spec fn section_headings(blocks: Seq<HtmlBlockView>, n: nat) -> Seq<Seq<char>>
    decreases n,
{
    if n == 0 {
        Seq::empty()
    } else if class_of(blocks[n - 1]) == "sectionHeading"@ {
        section_headings(blocks, (n - 1) as nat).push(trim(blocks[n - 1].text))
    } else {
        section_headings(blocks, (n - 1) as nat)
    }
}

/// The headings of a list of sections.
pub open spec fn headings_of(ss: Seq<SectionView>) -> Seq<Seq<char>> {
    ss.map_values(|s: SectionView| s.heading)
}

proof fn lemma_flush_keeps_headings(st: WalkState)
    ensures
        headings_of(close_spec(flush_spec(st))) == headings_of(close_spec(st)),
        flush_spec(st).done == st.done,
        flush_spec(st).current is Some == st.current is Some,
{
    assert(headings_of(close_spec(flush_spec(st))) =~= headings_of(close_spec(st)));
}

proof fn lemma_walk_headings(blocks: Seq<HtmlBlockView>, n: nat)
    requires
        n <= blocks.len(),
    ensures
        headings_of(close_spec(walk(blocks, n))) == section_headings(blocks, n),
    decreases n,
{
    if n > 0 {
        let m = (n - 1) as nat;
        lemma_walk_headings(blocks, m);
        let st = walk(blocks, m);
        let b = blocks[m as int];
        lemma_flush_keeps_headings(st);
        let next = walk_step(st, b);
        assert(walk(blocks, n) == next);
        let class = class_of(b);
        if class == "sectionHeading"@ {
            let f = flush_spec(st);
            assert(headings_of(close_spec(next)) =~= headings_of(close_spec(f)).push(trim(b.text)));
        } else if class == "noteHeading"@ {
            assert(headings_of(close_spec(next)) =~= headings_of(close_spec(flush_spec(st))));
        } else if class == "noteText"@ {
            assert(headings_of(close_spec(next)) =~= headings_of(close_spec(st)));
        }
    }
}

/// A notebook export gets one section per "sectionHeading" element, in
/// document order, each headed by that element's trimmed text; nothing before
/// the first section heading opens a section.
pub proof fn law_one_section_per_section_heading(blocks: Seq<HtmlBlockView>)
    ensures
        headings_of(sections_spec(blocks)) == section_headings(blocks, blocks.len()),
{
    lemma_walk_headings(blocks, blocks.len());
    lemma_flush_keeps_headings(walk(blocks, blocks.len()));
}

/// Every section of `a` is still in `b` at its position, with its heading and
/// its entries at their positions.
pub open spec fn sections_kept(a: Seq<SectionView>, b: Seq<SectionView>) -> bool {
    &&& a.len() <= b.len()
    &&& forall|k: int|
        0 <= k < a.len() ==> (#[trigger] b[k]).heading == a[k].heading && a[k].entries.len()
            <= b[k].entries.len()
    &&& forall|k: int, x: int|
        0 <= k < a.len() && 0 <= x < a[k].entries.len() ==> #[trigger] b[k].entries[x]
            == a[k].entries[x]
}

/// Section `idx` holds entry `e`.
pub open spec fn section_holds(ss: Seq<SectionView>, idx: int, e: EntryView) -> bool {
    0 <= idx < ss.len() && exists|x: int| 0 <= x < ss[idx].entries.len() && #[trigger] ss[idx].entries[x] == e
}

proof fn lemma_sections_kept_trans(a: Seq<SectionView>, b: Seq<SectionView>, c: Seq<SectionView>)
    requires
        sections_kept(a, b),
        sections_kept(b, c),
    ensures
        sections_kept(a, c),
{
    assert forall|k: int, x: int| 0 <= k < a.len() && 0 <= x < a[k].entries.len() implies #[trigger] c[k].entries[x]
        == a[k].entries[x] by {
        assert(b[k].entries[x] == a[k].entries[x]);
    }
}

proof fn lemma_sections_kept_holds(a: Seq<SectionView>, b: Seq<SectionView>, idx: int, e: EntryView)
    requires
        sections_kept(a, b),
        section_holds(a, idx, e),
    ensures
        section_holds(b, idx, e),
{
    let x = choose|x: int| 0 <= x < a[idx].entries.len() && #[trigger] a[idx].entries[x] == e;
    assert(b[idx].entries[x] == e);
}

proof fn lemma_flush_keeps_sections(st: WalkState)
    ensures
        sections_kept(close_spec(st), close_spec(flush_spec(st))),
{
    let a = close_spec(st);
    let b = close_spec(flush_spec(st));
    assert forall|k: int, x: int| 0 <= k < a.len() && 0 <= x < a[k].entries.len() implies #[trigger] b[k].entries[x]
        == a[k].entries[x] by {}
}

proof fn lemma_step_keeps_sections(st: WalkState, blk: HtmlBlockView)
    ensures
        sections_kept(close_spec(st), close_spec(walk_step(st, blk))),
{
    lemma_flush_keeps_sections(st);
    let a = close_spec(st);
    let f = close_spec(flush_spec(st));
    let b = close_spec(walk_step(st, blk));
    let class = class_of(blk);
    if class == "sectionHeading"@ {
        assert forall|k: int| 0 <= k < f.len() implies #[trigger] b[k] == f[k] by {}
        lemma_sections_kept_trans(a, f, b);
    } else if class == "noteHeading"@ {
        assert(b == f);
    } else if class == "noteText"@ {
        assert forall|k: int, x: int| 0 <= k < a.len() && 0 <= x < a[k].entries.len() implies #[trigger] b[k].entries[x]
            == a[k].entries[x] by {}
    }
}

proof fn lemma_walk_keeps_sections(blocks: Seq<HtmlBlockView>, i: nat, n: nat)
    requires
        i <= n <= blocks.len(),
    ensures
        sections_kept(close_spec(walk(blocks, i)), close_spec(walk(blocks, n))),
    decreases n - i,
{
    if i == n {
        let a = close_spec(walk(blocks, i));
        assert forall|k: int, x: int| 0 <= k < a.len() && 0 <= x < a[k].entries.len() implies #[trigger] a[k].entries[x]
            == a[k].entries[x] by {}
    } else {
        lemma_walk_keeps_sections(blocks, i, (n - 1) as nat);
        lemma_step_keeps_sections(walk(blocks, (n - 1) as nat), blocks[n - 1]);
        lemma_sections_kept_trans(
            close_spec(walk(blocks, i)),
            close_spec(walk(blocks, (n - 1) as nat)),
            close_spec(walk(blocks, n)),
        );
    }
}

proof fn lemma_walk_current(blocks: Seq<HtmlBlockView>, n: nat)
    requires
        n <= blocks.len(),
    ensures
        walk(blocks, n).current is Some <==> section_headings(blocks, n).len() > 0,
        close_spec(walk(blocks, n)).len() == section_headings(blocks, n).len(),
    decreases n,
{
    lemma_walk_headings(blocks, n);
    if n > 0 {
        lemma_walk_current(blocks, (n - 1) as nat);
        lemma_flush_keeps_headings(walk(blocks, (n - 1) as nat));
    }
}

/// A note heading that reads as a bookmark is always kept: it ends up in the
/// section that was open when it appeared, whether a note text, another note
/// heading, a section heading or the end of the document comes after it.
pub proof fn law_bookmarks_are_kept(blocks: Seq<HtmlBlockView>, i: int, b: BookmarkView)
    requires
        0 <= i < blocks.len(),
        class_of(blocks[i]) == "noteHeading"@,
        section_headings(blocks, i as nat).len() > 0,
        parse_entry_spec(blocks[i].text, None) == Ok::<EntryView, crate::parser::EntryErrorView>(
            EntryView::Bookmark(b),
        ),
    ensures
        section_holds(
            sections_spec(blocks),
            section_headings(blocks, i as nat).len() - 1,
            EntryView::Bookmark(b),
        ),
{
    let idx = section_headings(blocks, i as nat).len() - 1;
    let e = EntryView::Bookmark(b);
    let h = blocks[i].text;
    lemma_walk_current(blocks, i as nat);
    lemma_flush_keeps_headings(walk(blocks, i as nat));
    assert(walk(blocks, (i + 1) as nat) == walk_step(walk(blocks, i as nat), blocks[i]));
    lemma_bookmark_pending(blocks, i, b, blocks.len());
    let last = walk(blocks, blocks.len());
    let fin = sections_spec(blocks);
    lemma_flush_keeps_sections(last);
    if section_holds(close_spec(last), idx, e) {
        lemma_sections_kept_holds(close_spec(last), fin, idx, e);
    } else {
        let sec = last.current->0;
        assert(close_spec(last).len() == last.done.len() + 1);
        assert(flush_spec(last).done == last.done);
        assert(fin[idx] == SectionView { entries: sec.entries.push(e), ..sec });
        assert(fin[idx].entries[sec.entries.len() as int] == e);
    }
}

/// A note heading directly followed by its note text, once a section is
/// open, puts the entry the two describe into that section (the one opened by
/// the last section heading before it), whatever comes after.
pub proof fn law_entry_with_text_lands_in_open_section(blocks: Seq<HtmlBlockView>, i: int, e: EntryView)
    requires
        0 <= i,
        i + 1 < blocks.len(),
        class_of(blocks[i]) == "noteHeading"@,
        class_of(blocks[i + 1]) == "noteText"@,
        section_headings(blocks, i as nat).len() > 0,
        parse_entry_spec(blocks[i].text, Some(trim(blocks[i + 1].text))) == Ok::<
            EntryView,
            crate::parser::EntryErrorView,
        >(e),
    ensures
        section_holds(sections_spec(blocks), section_headings(blocks, i as nat).len() - 1, e),
{
    let idx = section_headings(blocks, i as nat).len() - 1;
    let w0 = walk(blocks, i as nat);
    reveal_strlit("sectionHeading");
    reveal_strlit("noteHeading");
    reveal_strlit("noteText");
    lemma_walk_current(blocks, i as nat);
    lemma_flush_keeps_headings(w0);
    let w1 = walk(blocks, (i + 1) as nat);
    let w2 = walk(blocks, (i + 2) as nat);
    assert(w1 == walk_step(w0, blocks[i]));
    assert(w2 == walk_step(w1, blocks[i + 1]));
    assert(w1.pending == Some(blocks[i].text));
    assert(w1.current is Some);
    let sec = w1.current->0;
    let tb = blocks[i + 1];
    assert(class_of(tb) != "sectionHeading"@);
    assert(class_of(tb) != "noteHeading"@);
    assert(parse_entry_spec(w1.pending->0, Some(trim(tb.text))) == Ok::<
        EntryView,
        crate::parser::EntryErrorView,
    >(e));
    assert(w2.current == Some(SectionView { entries: sec.entries.push(e), ..sec }));
    assert(w2.done == w1.done);
    assert(close_spec(w2).len() == idx + 1);
    assert(close_spec(w2)[idx].entries[sec.entries.len() as int] == e);
    assert(section_holds(close_spec(w2), idx, e));
    lemma_walk_keeps_sections(blocks, (i + 2) as nat, blocks.len());
    lemma_sections_kept_holds(close_spec(w2), close_spec(walk(blocks, blocks.len())), idx, e);
    lemma_flush_keeps_sections(walk(blocks, blocks.len()));
    lemma_sections_kept_holds(
        close_spec(walk(blocks, blocks.len())),
        sections_spec(blocks),
        idx,
        e,
    );
}

/// From the note heading at `i` on, the bookmark it reads as is either still
/// waiting for its text, with its section open, or already in its section.
proof fn lemma_bookmark_pending(blocks: Seq<HtmlBlockView>, i: int, b: BookmarkView, n: nat)
    requires
        0 <= i < n <= blocks.len(),
        class_of(blocks[i]) == "noteHeading"@,
        walk(blocks, i as nat).current is Some,
        close_spec(walk(blocks, i as nat)).len() > 0,
        walk(blocks, (i + 1) as nat) == walk_step(walk(blocks, i as nat), blocks[i]),
        parse_entry_spec(blocks[i].text, None) == Ok::<EntryView, crate::parser::EntryErrorView>(
            EntryView::Bookmark(b),
        ),
    ensures
        ({
            let idx = close_spec(walk(blocks, i as nat)).len() - 1;
            let st = walk(blocks, n);
            ||| (st.pending == Some(blocks[i].text) && st.current is Some && close_spec(st).len()
                == idx + 1)
            ||| section_holds(close_spec(st), idx, EntryView::Bookmark(b))
        }),
    decreases n - i,
{
    let idx = close_spec(walk(blocks, i as nat)).len() - 1;
    let e = EntryView::Bookmark(b);
    let h = blocks[i].text;
    reveal_strlit("sectionHeading");
    reveal_strlit("noteHeading");
    reveal_strlit("noteText");
    if n == i + 1 {
        let w = walk(blocks, i as nat);
        lemma_flush_keeps_headings(w);
        assert(headings_of(close_spec(w)).len() == close_spec(w).len());
        assert(headings_of(close_spec(flush_spec(w))).len() == close_spec(flush_spec(w)).len());
        assert(close_spec(walk(blocks, n)) == close_spec(flush_spec(w)));
    } else {
        let m = (n - 1) as nat;
        lemma_bookmark_pending(blocks, i, b, m);
        let st = walk(blocks, m);
        let blk = blocks[m as int];
        let next = walk(blocks, n);
        assert(next == walk_step(st, blk));
        lemma_step_keeps_sections(st, blk);
        if section_holds(close_spec(st), idx, e) {
            lemma_sections_kept_holds(close_spec(st), close_spec(next), idx, e);
        } else {
            let class = class_of(blk);
            let sec = st.current->0;
            assert(close_spec(st)[idx] == sec);
            if class == "sectionHeading"@ || class == "noteHeading"@ {
                let f = flush_spec(st);
                assert(f.current == Some(SectionView { entries: sec.entries.push(e), ..sec }));
                assert(close_spec(f)[idx].entries[sec.entries.len() as int] == e);
                assert(section_holds(close_spec(f), idx, e));
                if class == "sectionHeading"@ {
                    assert(close_spec(next)[idx] == close_spec(f)[idx]);
                    assert(close_spec(next)[idx].entries[sec.entries.len() as int] == e);
                } else {
                    assert(close_spec(next) == close_spec(f));
                }
            } else if class == "noteText"@ {
                assert(parse_entry_spec(h, Some(trim(blk.text))) == Ok::<
                    EntryView,
                    crate::parser::EntryErrorView,
                >(e));
                assert(close_spec(next)[idx].entries[sec.entries.len() as int] == e);
            }
        }
    }
}

// ---------------------------------------------------------------------------
// Page and location of a notebook heading
// ---------------------------------------------------------------------------

/// Reading the page and location of a heading fails exactly when the heading
/// has a "Location " with no readable number after its first occurrence; a
/// heading without "Location " never fails, whatever follows its "Page ".
pub proof fn law_page_location_fails_only_on_location(t: Seq<char>)
    ensures
        page_location_spec(t) is Err <==> (find(t, "Location "@) matches Some(l) && first_number(
            t.skip(l + "Location "@.len()),
        ) is None),
        !contains(t, "Location "@) ==> page_location_spec(t) is Ok,
{
}

} // verus!
