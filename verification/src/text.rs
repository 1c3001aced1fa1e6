//! Character-sequence primitives shared by the parsers and the renderer.
//!
//! Every executable function here works on `&[char]` (or `Vec<char>`) and is
//! specified over the `Seq<char>` it holds, so that the higher-level contracts
//! can speak of trimming, searching and splitting as plain sequence functions.
use vstd::prelude::*;
use vstd::slice::slice_subrange;
use vstd::slice::slice_to_vec;

verus! {

// ---------------------------------------------------------------------------
// Whitespace and trimming
// ---------------------------------------------------------------------------

/// The Unicode `White_Space` property, which is what `char::is_whitespace`
/// (and therefore `str::trim`) tests.
pub open spec fn is_ws(c: char) -> bool {
    ||| ('\u{9}' <= c && c <= '\u{d}')
    ||| c == ' '
    ||| c == '\u{85}'
    ||| c == '\u{a0}'
    ||| c == '\u{1680}'
    ||| ('\u{2000}' <= c && c <= '\u{200a}')
    ||| c == '\u{2028}'
    ||| c == '\u{2029}'
    ||| c == '\u{202f}'
    ||| c == '\u{205f}'
    ||| c == '\u{3000}'
}

/// Number of whitespace characters at the start of `s`.
pub open spec fn lead_ws(s: Seq<char>) -> nat
    decreases s.len(),
{
    if s.len() == 0 {
        0
    } else if is_ws(s[0]) {
        1 + lead_ws(s.drop_first())
    } else {
        0
    }
}

/// Number of whitespace characters at the end of `s`.
pub open spec fn trail_ws(s: Seq<char>) -> nat
    decreases s.len(),
{
    if s.len() == 0 {
        0
    } else if is_ws(s.last()) {
        1 + trail_ws(s.drop_last())
    } else {
        0
    }
}

/// `str::trim_end`.
pub open spec fn trim_end(s: Seq<char>) -> Seq<char> {
    s.subrange(0, s.len() - trail_ws(s))
}

/// `str::trim_start`.
pub open spec fn trim_start(s: Seq<char>) -> Seq<char> {
    s.subrange(lead_ws(s) as int, s.len() as int)
}

/// `str::trim`.
pub open spec fn trim(s: Seq<char>) -> Seq<char> {
    trim_start(trim_end(s))
}

/// `s.trim().is_empty()`.
pub open spec fn is_blank(s: Seq<char>) -> bool {
    trim(s).len() == 0
}

pub proof fn lemma_lead_ws_bound(s: Seq<char>)
    ensures
        lead_ws(s) <= s.len(),
        forall|i: int| 0 <= i < lead_ws(s) ==> is_ws(#[trigger] s[i]),
        lead_ws(s) < s.len() ==> !is_ws(s[lead_ws(s) as int]),
    decreases s.len(),
{
    if s.len() > 0 && is_ws(s[0]) {
        lemma_lead_ws_bound(s.drop_first());
        assert forall|i: int| 0 <= i < lead_ws(s) implies is_ws(#[trigger] s[i]) by {
            if i > 0 {
                assert(s[i] == s.drop_first()[i - 1]);
            }
        }
    }
}

pub proof fn lemma_trail_ws_bound(s: Seq<char>)
    ensures
        trail_ws(s) <= s.len(),
        forall|i: int| s.len() - trail_ws(s) <= i < s.len() ==> is_ws(#[trigger] s[i]),
        trail_ws(s) < s.len() ==> !is_ws(s[s.len() - trail_ws(s) - 1]),
    decreases s.len(),
{
    if s.len() > 0 && is_ws(s.last()) {
        lemma_trail_ws_bound(s.drop_last());
        assert forall|i: int| s.len() - trail_ws(s) <= i < s.len() implies is_ws(#[trigger] s[i]) by {
            if i < s.len() - 1 {
                assert(s[i] == s.drop_last()[i]);
            }
        }
    }
}

/// Index (within `s`) where `trim_end(s)` ends.
pub fn trim_end_len(s: &[char]) -> (k: usize)
    ensures
        k == s@.len() - trail_ws(s@),
        k == trim_end(s@).len(),
{
    let mut k = s.len();
    assert(s@.subrange(0, s@.len() as int) =~= s@);
    while k > 0 && is_whitespace(s[k - 1])
        invariant
            k <= s@.len(),
            trail_ws(s@) == (s@.len() - k) + trail_ws(s@.subrange(0, k as int)),
        decreases k,
    {
        let ghost t = s@.subrange(0, k as int);
        assert(t.drop_last() =~= s@.subrange(0, k - 1));
        k = k - 1;
    }
    proof {
        lemma_trail_ws_bound(s@);
    }
    k
}

/// Number of leading whitespace characters of `s`.
pub fn lead_ws_len(s: &[char]) -> (k: usize)
    ensures
        k == lead_ws(s@),
{
    let mut k: usize = 0;
    assert(s@.subrange(0, s@.len() as int) =~= s@);
    while k < s.len() && is_whitespace(s[k])
        invariant
            k <= s@.len(),
            lead_ws(s@) == k + lead_ws(s@.subrange(k as int, s@.len() as int)),
        decreases s@.len() - k,
    {
        let ghost t = s@.subrange(k as int, s@.len() as int);
        assert(t.drop_first() =~= s@.subrange(k + 1, s@.len() as int));
        k = k + 1;
    }
    k
}

/// `char::is_whitespace`.
pub fn is_whitespace(c: char) -> (r: bool)
    ensures
        r == is_ws(c),
{
    ('\u{9}' <= c && c <= '\u{d}') || c == ' ' || c == '\u{85}' || c == '\u{a0}' || c == '\u{1680}'
        || ('\u{2000}' <= c && c <= '\u{200a}') || c == '\u{2028}' || c == '\u{2029}' || c
        == '\u{202f}' || c == '\u{205f}' || c == '\u{3000}'
}

/// `str::trim_end`.
pub fn trimmed_end(s: &[char]) -> (r: &[char])
    ensures
        r@ == trim_end(s@),
{
    let k = trim_end_len(s);
    slice_subrange(s, 0, k)
}

/// `str::trim`.
pub fn trimmed(s: &[char]) -> (r: &[char])
    ensures
        r@ == trim(s@),
{
    let e = trimmed_end(s);
    let k = lead_ws_len(e);
    proof {
        lemma_lead_ws_bound(e@);
    }
    slice_subrange(e, k, e.len())
}

/// `s.trim().is_empty()`.
pub fn blank(s: &[char]) -> (r: bool)
    ensures
        r == is_blank(s@),
{
    let t = trimmed(s);
    t.len() == 0
}

// ---------------------------------------------------------------------------
// Prefixes, suffixes, equality
// ---------------------------------------------------------------------------

/// `str::starts_with` with a string pattern.
pub open spec fn starts_with(s: Seq<char>, p: Seq<char>) -> bool {
    p.len() <= s.len() && s.subrange(0, p.len() as int) == p
}

/// `s[i..i + n.len()] == n`.
pub open spec fn match_at(h: Seq<char>, n: Seq<char>, i: int) -> bool {
    0 <= i && i + n.len() <= h.len() && h.subrange(i, i + n.len()) == n
}

/// Equality of two character slices.
pub fn same(a: &[char], b: &[char]) -> (r: bool)
    ensures
        r == (a@ == b@),
{
    if a.len() != b.len() {
        return false;
    }
    let mut i: usize = 0;
    while i < a.len()
        invariant
            a@.len() == b@.len(),
            i <= a@.len(),
            forall|j: int| 0 <= j < i ==> a@[j] == b@[j],
        decreases a@.len() - i,
    {
        if a[i] != b[i] {
            return false;
        }
        i = i + 1;
    }
    assert(a@ =~= b@);
    true
}

/// Whether `n` occurs in `h` at position `i`.
pub fn matches_at(h: &[char], n: &[char], i: usize) -> (r: bool)
    ensures
        r == match_at(h@, n@, i as int),
{
    if i > h.len() || n.len() > h.len() - i {
        return false;
    }
    let mut j: usize = 0;
    while j < n.len()
        invariant
            i + n@.len() <= h@.len(),
            h@.len() == h.len(),
            j <= n@.len(),
            forall|k: int| 0 <= k < j ==> h@[i + k] == n@[k],
        decreases n@.len() - j,
    {
        if h[i + j] != n[j] {
            return false;
        }
        j = j + 1;
    }
    assert(h@.subrange(i as int, i + n@.len()) =~= n@);
    true
}

/// `str::starts_with`.
pub fn has_prefix(s: &[char], p: &[char]) -> (r: bool)
    ensures
        r == starts_with(s@, p@),
{
    matches_at(s, p, 0)
}

// ---------------------------------------------------------------------------
// Searching
// ---------------------------------------------------------------------------

/// First occurrence of `n` in `h` at or after `i`.
pub open spec fn find_from(h: Seq<char>, n: Seq<char>, i: int) -> Option<int>
    decreases h.len() + 1 - i,
{
    if i < 0 || i + n.len() > h.len() {
        None
    } else if match_at(h, n, i) {
        Some(i)
    } else {
        find_from(h, n, i + 1)
    }
}

/// `str::find` with a string pattern.
pub open spec fn find(h: Seq<char>, n: Seq<char>) -> Option<int> {
    find_from(h, n, 0)
}

/// `str::find` with a character pattern.
pub open spec fn find_char(h: Seq<char>, c: char) -> Option<int> {
    find(h, seq![c])
}

/// `str::contains` with a string pattern.
pub open spec fn contains(h: Seq<char>, n: Seq<char>) -> bool {
    find(h, n) is Some
}

pub proof fn lemma_find_from(h: Seq<char>, n: Seq<char>, i: int)
    requires
        0 <= i,
    ensures
        find_from(h, n, i) matches Some(k) ==> {
            &&& i <= k
            &&& match_at(h, n, k)
            &&& forall|j: int| i <= j < k ==> !match_at(h, n, j)
        },
        find_from(h, n, i) is None ==> forall|j: int| i <= j ==> !match_at(h, n, j),
    decreases h.len() + 1 - i,
{
    if i + n.len() > h.len() {
    } else if match_at(h, n, i) {
    } else {
        lemma_find_from(h, n, i + 1);
        assert forall|j: int| i <= j && !(find_from(h, n, i) is Some && j >= find_from(h, n, i)->0)
            implies !match_at(h, n, j) by {
            if j > i {
            }
        }
    }
}

/// Characterization of `find`: the first position where `n` occurs.
pub proof fn lemma_find(h: Seq<char>, n: Seq<char>)
    ensures
        find(h, n) matches Some(k) ==> {
            &&& 0 <= k
            &&& k + n.len() <= h.len()
            &&& h.subrange(k, k + n.len()) == n
            &&& forall|j: int| 0 <= j < k ==> !match_at(h, n, j)
        },
        find(h, n) is None ==> forall|j: int| 0 <= j ==> !match_at(h, n, j),
{
    lemma_find_from(h, n, 0);
}

/// `str::find`.
pub fn find_in(h: &[char], n: &[char]) -> (r: Option<usize>)
    ensures
        r matches Some(k) ==> find(h@, n@) == Some(k as int),
        r is None ==> find(h@, n@) is None,
{
    if n.len() > h.len() {
        return None;
    }
    let last = h.len() - n.len();
    let mut i: usize = 0;
    loop
        invariant
            last == h@.len() - n@.len(),
            i <= last,
            find(h@, n@) == find_from(h@, n@, i as int),
        decreases last - i,
    {
        if matches_at(h, n, i) {
            return Some(i);
        }
        if i == last {
            assert(find_from(h@, n@, i + 1) is None);
            return None;
        }
        i = i + 1;
    }
}

/// `str::find` with a character pattern.
pub fn find_char_in(h: &[char], c: char) -> (r: Option<usize>)
    ensures
        r matches Some(k) ==> find_char(h@, c) == Some(k as int),
        r is None ==> find_char(h@, c) is None,
{
    let pat = [c];
    let p = pat.as_slice();
    assert(p@ =~= seq![c]);
    find_in(h, p)
}

/// Last occurrence of `c` in `s[..i]`.
pub open spec fn rfind_char_before(s: Seq<char>, c: char, i: int) -> Option<int>
    decreases i,
{
    if i <= 0 {
        None
    } else if s[i - 1] == c {
        Some(i - 1)
    } else {
        rfind_char_before(s, c, i - 1)
    }
}

/// `str::rfind` with a character pattern.
pub open spec fn rfind_char(s: Seq<char>, c: char) -> Option<int> {
    rfind_char_before(s, c, s.len() as int)
}

pub proof fn lemma_rfind_char_before(s: Seq<char>, c: char, i: int)
    requires
        i <= s.len(),
    ensures
        rfind_char_before(s, c, i) matches Some(k) ==> {
            &&& 0 <= k < i
            &&& s[k] == c
            &&& forall|j: int| k < j < i ==> s[j] != c
        },
        rfind_char_before(s, c, i) is None ==> forall|j: int| 0 <= j < i ==> s[j] != c,
    decreases i,
{
    if i > 0 && s[i - 1] != c {
        lemma_rfind_char_before(s, c, i - 1);
    }
}

/// `str::rfind` with a character pattern.
pub fn rfind_char_in(s: &[char], c: char) -> (r: Option<usize>)
    ensures
        r matches Some(k) ==> rfind_char(s@, c) == Some(k as int),
        r is None ==> rfind_char(s@, c) is None,
{
    let mut i = s.len();
    while i > 0
        invariant
            i <= s@.len(),
            rfind_char(s@, c) == rfind_char_before(s@, c, i as int),
        decreases i,
    {
        if s[i - 1] == c {
            return Some(i - 1);
        }
        i = i - 1;
    }
    None
}

// ---------------------------------------------------------------------------
// Splitting
// ---------------------------------------------------------------------------

/// The contents of a sequence of character vectors.
pub open spec fn seqs(v: Seq<Vec<char>>) -> Seq<Seq<char>> {
    v.map_values(|x: Vec<char>| x@)
}

/// `str::split` with a non-empty string pattern, as a sequence of pieces.
pub open spec fn split_on(s: Seq<char>, sep: Seq<char>) -> Seq<Seq<char>>
    decreases s.len(),
{
    if sep.len() == 0 {
        seq![s]
    } else {
        match find(s, sep) {
            Some(k) => {
                proof {
                    lemma_find(s, sep);
                }
                seq![s.subrange(0, k)] + split_on(s.subrange(k + sep.len(), s.len() as int), sep)
            },
            None => seq![s],
        }
    }
}

/// `str::lines` followed by `str::trim_end` on each line: the pieces between
/// `'\n'`, without the empty piece after a final line break, each with its
/// trailing whitespace (a `'\r'` before the break among it) removed.
pub open spec fn lines(s: Seq<char>) -> Seq<Seq<char>> {
    let pieces = split_on(s, seq!['\n']);
    let kept = if s.len() == 0 {
        Seq::empty()
    } else if pieces.last().len() == 0 {
        pieces.drop_last()
    } else {
        pieces
    };
    kept.map_values(|l: Seq<char>| trim_end(l))
}

/// `str::split` with a non-empty string pattern.
pub fn split_pieces(s: &[char], sep: &[char]) -> (r: Vec<Vec<char>>)
    ensures
        seqs(r@) == split_on(s@, sep@),
{
    if sep.len() == 0 {
        let whole = vec![slice_to_vec(s)];
        assert(seqs(whole@) =~= seq![s@]);
        return whole;
    }
    let mut pieces: Vec<Vec<char>> = Vec::new();
    let mut rest = s;
    loop
        invariant
            sep@.len() > 0,
            seqs(pieces@) + split_on(rest@, sep@) == split_on(s@, sep@),
        decreases rest@.len(),
    {
        let ghost before = seqs(pieces@);
        match find_in(rest, sep) {
            Some(k) => {
                proof {
                    lemma_find(rest@, sep@);
                }
                let rl = rest.len();
                assert(k + sep@.len() <= rl);
                let next = k + sep.len();
                let head = slice_to_vec(slice_subrange(rest, 0, k));
                pieces.push(head);
                assert(seqs(pieces@) =~= before.push(head@));
                let ghost old_rest = rest@;
                rest = slice_subrange(rest, next, rl);
                assert(split_on(old_rest, sep@) == seq![old_rest.subrange(0, k as int)] + split_on(
                    rest@,
                    sep@,
                ));
                assert(before + split_on(old_rest, sep@) =~= seqs(pieces@) + split_on(
                    rest@,
                    sep@,
                ));
            },
            None => {
                let last = slice_to_vec(rest);
                pieces.push(last);
                assert(seqs(pieces@) =~= before.push(last@));
                assert(seqs(pieces@) =~= before + split_on(rest@, sep@));
                return pieces;
            },
        }
    }
}

/// `str::lines` with `str::trim_end` applied to each line.
pub fn trimmed_lines(s: &[char]) -> (r: Vec<Vec<char>>)
    ensures
        seqs(r@) == lines(s@),
{
    let nl = ['\n'];
    let nls = nl.as_slice();
    assert(nls@ =~= seq!['\n']);
    let pieces = split_pieces(s, nls);
    let ghost pv = seqs(pieces@);
    let mut count = pieces.len();
    if s.len() == 0 {
        count = 0;
    } else if count > 0 && pieces[count - 1].len() == 0 {
        count = count - 1;
    }
    proof {
        assert(pv.len() == pieces@.len());
        if s@.len() != 0 && pv.len() > 0 && pieces[pieces@.len() - 1]@.len() == 0 {
            assert(pv.last() == pieces[pieces@.len() - 1]@);
        }
    }
    let ghost kept = if s@.len() == 0 {
        Seq::<Seq<char>>::empty()
    } else if pv.last().len() == 0 {
        pv.drop_last()
    } else {
        pv
    };
    proof {
        lemma_split_on_nonempty(s@, seq!['\n']);
        assert(kept.len() == count);
        assert forall|j: int| 0 <= j < count implies kept[j] == pv[j] by {}
    }
    let mut out: Vec<Vec<char>> = Vec::new();
    let mut i: usize = 0;
    while i < count
        invariant
            count <= pieces@.len(),
            pv == seqs(pieces@),
            kept.len() == count,
            forall|j: int| 0 <= j < count ==> kept[j] == pv[j],
            i <= count,
            seqs(out@) =~= kept.take(i as int).map_values(|l: Seq<char>| trim_end(l)),
        decreases count - i,
    {
        let line = trimmed_end(pieces[i].as_slice());
        let v = slice_to_vec(line);
        let ghost before = seqs(out@);
        out.push(v);
        proof {
            assert(pv[i as int] == pieces[i as int]@);
            assert(seqs(out@) =~= before.push(v@));
            assert(kept.take(i + 1).map_values(|l: Seq<char>| trim_end(l)) =~= kept.take(
                i as int,
            ).map_values(|l: Seq<char>| trim_end(l)).push(trim_end(kept[i as int])));
        }
        i = i + 1;
    }
    assert(kept.take(count as int) =~= kept);
    out
}

/// `split_on` always yields at least one piece.
pub proof fn lemma_split_on_nonempty(s: Seq<char>, sep: Seq<char>)
    ensures
        split_on(s, sep).len() >= 1,
    decreases s.len(),
{
    if sep.len() > 0 {
        if let Some(k) = find(s, sep) {
            lemma_find(s, sep);
            lemma_split_on_nonempty(s.subrange(k + sep.len(), s.len() as int), sep);
        }
    }
}

// ---------------------------------------------------------------------------
// Runs of characters and numbers
// ---------------------------------------------------------------------------

/// ASCII decimal digit (`char::is_ascii_digit`).
pub open spec fn is_digit(c: char) -> bool {
    '0' <= c && c <= '9'
}

/// `char::is_ascii_digit`.
pub fn is_ascii_digit(c: char) -> (r: bool)
    ensures
        r == is_digit(c),
{
    '0' <= c && c <= '9'
}

/// Length of the run of characters satisfying `p` at the start of `s`.
pub open spec fn run_len(s: Seq<char>, p: spec_fn(char) -> bool) -> nat
    decreases s.len(),
{
    if s.len() == 0 || !p(s[0]) {
        0
    } else {
        1 + run_len(s.drop_first(), p)
    }
}

/// The first maximal run of characters satisfying `p`: what
/// `s.split(|c| !p(c)).find(|piece| !piece.is_empty())` yields.
pub open spec fn first_run(s: Seq<char>, p: spec_fn(char) -> bool) -> Option<Seq<char>>
    decreases s.len(),
{
    if s.len() == 0 {
        None
    } else if p(s[0]) {
        Some(s.take(run_len(s, p) as int))
    } else {
        first_run(s.drop_first(), p)
    }
}

/// ASCII decimal value of a digit sequence.
pub open spec fn digits_value(s: Seq<char>) -> nat
    decreases s.len(),
{
    if s.len() == 0 {
        0
    } else {
        digits_value(s.drop_last()) * 10 + ((s.last() as int - '0' as int) as nat)
    }
}

/// `u32::from_str` on a string without a sign: `Some` exactly for a
/// non-empty run of ASCII digits whose value fits in a `u32`.
pub open spec fn parse_u32(s: Seq<char>) -> Option<u32> {
    if s.len() > 0 && (forall|i: int| 0 <= i < s.len() ==> is_digit(#[trigger] s[i]))
        && digits_value(s) <= u32::MAX {
        Some(digits_value(s) as u32)
    } else {
        None
    }
}

/// Prefixes of a digit sequence never have a larger value.
pub proof fn lemma_digits_value_prefix(s: Seq<char>, i: int)
    requires
        0 <= i <= s.len(),
        forall|j: int| 0 <= j < s.len() ==> is_digit(#[trigger] s[j]),
    ensures
        digits_value(s.take(i)) <= digits_value(s),
    decreases s.len() - i,
{
    if i < s.len() {
        lemma_digits_value_prefix(s, i + 1);
        assert(s.take(i + 1).drop_last() =~= s.take(i));
        assert(s.take(i + 1).last() == s[i]);
    } else {
        assert(s.take(i) =~= s);
    }
}

/// `u32::from_str` on a sign-free run of characters.
pub fn parse_number(s: &[char]) -> (r: Option<u32>)
    ensures
        r == parse_u32(s@),
{
    if s.len() == 0 {
        return None;
    }
    let mut i: usize = 0;
    while i < s.len()
        invariant
            i <= s@.len(),
            forall|j: int| 0 <= j < i ==> is_digit(#[trigger] s@[j]),
        decreases s@.len() - i,
    {
        if !is_ascii_digit(s[i]) {
            return None;
        }
        i = i + 1;
    }
    let mut v: u64 = 0;
    let mut i: usize = 0;
    while i < s.len()
        invariant
            i <= s@.len(),
            forall|j: int| 0 <= j < s@.len() ==> is_digit(#[trigger] s@[j]),
            v == digits_value(s@.take(i as int)),
            v <= u32::MAX,
        decreases s@.len() - i,
    {
        let d = (s[i] as u32 - '0' as u32) as u64;
        let nv = v * 10 + d;
        proof {
            assert(s@.take(i + 1).drop_last() =~= s@.take(i as int));
            assert(s@.take(i + 1).last() == s@[i as int]);
        }
        if nv > 0xffff_ffffu64 {
            proof {
                lemma_digits_value_prefix(s@, i + 1);
            }
            return None;
        }
        v = nv;
        i = i + 1;
    }
    assert(s@.take(s@.len() as int) =~= s@);
    Some(v as u32)
}

/// The character for a decimal digit.
pub open spec fn digit_char(d: nat) -> char {
    seq!['0', '1', '2', '3', '4', '5', '6', '7', '8', '9'][d as int]
}

/// Decimal notation of `n` (`format!("{}", n)`).
pub open spec fn decimal(n: nat) -> Seq<char>
    decreases n,
{
    if n < 10 {
        seq![digit_char(n)]
    } else {
        decimal(n / 10).push(digit_char(n % 10))
    }
}

fn digit(d: u64) -> (c: char)
    requires
        d < 10,
    ensures
        c == digit_char(d as nat),
{
    let digits = ['0', '1', '2', '3', '4', '5', '6', '7', '8', '9'];
    assert(digits@ =~= seq!['0', '1', '2', '3', '4', '5', '6', '7', '8', '9']);
    digits[d as usize]
}

/// Appends the decimal notation of `n` to `out`.
pub fn push_decimal(out: &mut Vec<char>, n: u64)
    ensures
        final(out)@ == old(out)@ + decimal(n as nat),
    decreases n,
{
    if n >= 10 {
        push_decimal(out, n / 10);
    }
    let ghost mid = out@;
    out.push(digit(n % 10));
    proof {
        if n >= 10 {
            assert(out@ =~= old(out)@ + decimal(n as nat));
        } else {
            assert(out@ =~= old(out)@ + decimal(n as nat));
        }
    }
}

// ---------------------------------------------------------------------------
// Building sequences and strings
// ---------------------------------------------------------------------------

/// The characters of a string.
pub fn chars_of(s: &str) -> (v: Vec<char>)
    ensures
        v@ == s@,
{
    let mut v: Vec<char> = Vec::new();
    for c in it: s.chars()
        invariant
            it.seq() == s@,
            v@ == it.seq().take(it.index() as int),
    {
        v.push(c);
    }
    v
}

/// Appends the characters of `s` to `out`.
pub fn push_str(out: &mut Vec<char>, s: &str)
    ensures
        final(out)@ == old(out)@ + s@,
{
    let ghost start = out@;
    for c in it: s.chars()
        invariant
            it.seq() == s@,
            out@ == start + it.seq().take(it.index() as int),
    {
        out.push(c);
    }
}

/// Appends the characters of `s` to `out`.
pub fn push_chars(out: &mut Vec<char>, s: &[char])
    ensures
        final(out)@ == old(out)@ + s@,
{
    let ghost start = out@;
    let mut i: usize = 0;
    while i < s.len()
        invariant
            i <= s@.len(),
            out@ == start + s@.take(i as int),
        decreases s@.len() - i,
    {
        out.push(s[i]);
        assert(s@.take(i + 1) =~= s@.take(i as int).push(s@[i as int]));
        i = i + 1;
    }
    assert(s@.take(s@.len() as int) =~= s@);
}

/// Joins `parts` with `sep` between consecutive parts (`[..].join(sep)`).
pub open spec fn join(parts: Seq<Seq<char>>, sep: Seq<char>) -> Seq<char>
    decreases parts.len(),
{
    if parts.len() == 0 {
        Seq::empty()
    } else if parts.len() == 1 {
        parts[0]
    } else {
        join(parts.drop_last(), sep) + sep + parts.last()
    }
}

/// Appends `parts` joined with `sep` to `out`.
pub fn push_joined(out: &mut Vec<char>, parts: &[Vec<char>], sep: &[char])
    ensures
        final(out)@ == old(out)@ + join(seqs(parts@), sep@),
{
    let ghost start = out@;
    let mut i: usize = 0;
    while i < parts.len()
        invariant
            i <= parts@.len(),
            out@ == start + join(seqs(parts@).take(i as int), sep@),
        decreases parts@.len() - i,
    {
        let ghost ps = seqs(parts@).take(i + 1);
        assert(ps.drop_last() =~= seqs(parts@).take(i as int));
        assert(ps.last() == parts@[i as int]@);
        if i > 0 {
            push_chars(out, sep);
        }
        push_chars(out, parts[i].as_slice());
        proof {
            if i == 0 {
                assert(seqs(parts@).take(i as int) =~= Seq::<Seq<char>>::empty());
                assert(ps.len() == 1);
            }
        }
        i = i + 1;
    }
    assert(seqs(parts@).take(parts@.len() as int) =~= seqs(parts@));
}

/// Equality of two strings.
pub fn same_string(a: &String, b: &String) -> (r: bool)
    ensures
        r == (a@ == b@),
{
    a.eq(b)
}

/// An owned copy of a string slice.
pub fn owned(s: &str) -> (r: String)
    ensures
        r@ == s@,
{
    let v = chars_of(s);
    string_from(v.as_slice())
}

/// Whether `c` belongs to one of Unicode's numeric general categories
/// (`Nd`, `Nl`, `No`): the result of `char::is_numeric`.
pub uninterp spec fn numeric_char(c: char) -> bool;

/// `char::is_numeric`. Claimed of it: the result is `numeric_char(c)`, and
/// for an ASCII character it holds exactly of the ten decimal digits (the
/// only ASCII characters in the numeric general categories).
#[verifier::external_body]
fn is_numeric(c: char) -> (r: bool)
    ensures
        r == numeric_char(c),
        (c as u32) < 128 ==> (r == is_digit(c)),
{
    c.is_numeric()
}

/// The predicate `char::is_ascii_digit` as a spec closure.
pub open spec fn digit_pred() -> spec_fn(char) -> bool {
    |c: char| is_digit(c)
}

/// Whether `char::is_numeric` holds of `c`: of an ASCII character exactly
/// when it is a decimal digit, of any other as `numeric_char` says.
pub open spec fn is_numeric_spec(c: char) -> bool {
    if (c as u32) < 128 {
        is_digit(c)
    } else {
        numeric_char(c)
    }
}

/// The predicate `char::is_numeric` as a spec closure.
pub open spec fn numeric_pred() -> spec_fn(char) -> bool {
    |c: char| is_numeric_spec(c)
}

fn run_pred(c: char, numeric: bool) -> (r: bool)
    ensures
        r == (if numeric { numeric_pred() } else { digit_pred() })(c),
{
    if numeric {
        is_numeric(c)
    } else {
        is_ascii_digit(c)
    }
}

/// The first maximal run of ASCII digits (`numeric == false`) or of numeric
/// characters (`numeric == true`) in `s`.
pub fn first_run_in(s: &[char], numeric: bool) -> (r: Option<&[char]>)
    ensures
        r matches Some(x) ==> first_run(s@, if numeric { numeric_pred() } else { digit_pred() })
            == Some(x@),
        r is None ==> first_run(s@, if numeric { numeric_pred() } else { digit_pred() }) is None,
{
    let ghost p = if numeric { numeric_pred() } else { digit_pred() };
    let mut i: usize = 0;
    assert(s@.skip(0) =~= s@);
    while i < s.len() && !run_pred(s[i], numeric)
        invariant
            i <= s@.len(),
            p == (if numeric { numeric_pred() } else { digit_pred() }),
            first_run(s@, p) == first_run(s@.skip(i as int), p),
        decreases s@.len() - i,
    {
        assert(s@.skip(i as int)[0] == s@[i as int]);
        assert(s@.skip(i as int).drop_first() =~= s@.skip(i + 1));
        i = i + 1;
    }
    if i == s.len() {
        assert(s@.skip(i as int).len() == 0);
        return None;
    }
    assert(s@.skip(i as int)[0] == s@[i as int]);
    let mut j: usize = i;
    while j < s.len() && run_pred(s[j], numeric)
        invariant
            i < s@.len(),
            i <= j <= s@.len(),
            p == (if numeric { numeric_pred() } else { digit_pred() }),
            p(s@[i as int]),
            first_run(s@, p) == first_run(s@.skip(i as int), p),
            run_len(s@.skip(i as int), p) == (j - i) + run_len(s@.skip(j as int), p),
        decreases s@.len() - j,
    {
        assert(s@.skip(j as int)[0] == s@[j as int]);
        assert(s@.skip(j as int).drop_first() =~= s@.skip(j + 1));
        j = j + 1;
    }
    if j < s.len() {
        assert(s@.skip(j as int)[0] == s@[j as int]);
    }
    assert(run_len(s@.skip(j as int), p) == 0);
    assert(s@.skip(i as int).take((j - i) as int) =~= s@.subrange(i as int, j as int));
    Some(slice_subrange(s, i, j))
}

/// A `String` holding the characters of `s`: `String::from_iter` over them.
/// Claimed: the string's characters are those of `s`, in order.
#[verifier::external_body]
pub(crate) fn string_from(s: &[char]) -> (r: String)
    ensures
        r@ == s@,
{
    String::from_iter(s.iter())
}

} // verus!
