//! Properties of the numbers that clippings and notes carry: the decimal text
//! written for a number reads back as that number, and the first run of
//! digits in a text is read as the value of those digits.
use crate::clippings::leading_number_spec;
use crate::markdown::{location_md, note_parts, page_md};
use crate::parser::NoteView;
use crate::parser::{first_number, page_location_spec};
use crate::text::{
    decimal, digit_char, digit_pred, digits_value, find, first_run, is_digit, is_numeric_spec,
    numeric_pred, parse_u32, run_len,
};
use vstd::prelude::*;

verus! {

// ---------------------------------------------------------------------------
// Writing numbers
// ---------------------------------------------------------------------------

/// The character written for a decimal digit is that digit.
pub proof fn lemma_digit_char(d: nat)
    requires
        d < 10,
    ensures
        is_digit(digit_char(d)),
        digit_char(d) as int - '0' as int == d,
        d > 0 ==> digit_char(d) != '0',
{
    let s = seq!['0', '1', '2', '3', '4', '5', '6', '7', '8', '9'];
    assert(digit_char(d) == s[d as int]);
    if d == 0 {
        assert(s[0] == '0');
    } else if d == 1 {
        assert(s[1] == '1');
    } else if d == 2 {
        assert(s[2] == '2');
    } else if d == 3 {
        assert(s[3] == '3');
    } else if d == 4 {
        assert(s[4] == '4');
    } else if d == 5 {
        assert(s[5] == '5');
    } else if d == 6 {
        assert(s[6] == '6');
    } else if d == 7 {
        assert(s[7] == '7');
    } else if d == 8 {
        assert(s[8] == '8');
    } else {
        assert(s[9] == '9');
    }
}

/// Appending a digit multiplies the value by ten and adds the digit.
pub proof fn lemma_digits_value_push(s: Seq<char>, c: char)
    requires
        is_digit(c),
    ensures
        digits_value(s.push(c)) == digits_value(s) * 10 + (c as int - '0' as int),
{
    assert(s.push(c).drop_last() =~= s);
    assert(s.push(c).last() == c);
}

/// The decimal text of a number is a non-empty run of ASCII digits without a
/// leading zero (`0` itself is written `0`), whose value is the number; so
/// reading it back as a `u32` gives the number again whenever it fits.
pub proof fn law_decimal_reads_back(n: nat)
    ensures
        decimal(n).len() > 0,
        forall|i: int| 0 <= i < decimal(n).len() ==> is_digit(#[trigger] decimal(n)[i]),
        n > 0 ==> decimal(n)[0] != '0',
        n == 0 ==> decimal(n) == seq!['0'],
        digits_value(decimal(n)) == n,
        n <= u32::MAX ==> parse_u32(decimal(n)) == Some(n as u32),
    decreases n,
{
    if n < 10 {
        lemma_digit_char(n);
        let c = digit_char(n);
        assert(seq![c] =~= Seq::<char>::empty().push(c));
        lemma_digits_value_push(Seq::<char>::empty(), c);
    } else {
        law_decimal_reads_back(n / 10);
        let s = decimal(n / 10);
        let c = digit_char(n % 10);
        lemma_digit_char(n % 10);
        lemma_digits_value_push(s, c);
        assert(decimal(n) == s.push(c));
        assert((n / 10) * 10 + n % 10 == n) by (nonlinear_arith);
        assert forall|i: int| 0 <= i < decimal(n).len() implies is_digit(#[trigger] decimal(n)[i]) by {
            if i < s.len() {
                assert(decimal(n)[i] == s[i]);
            }
        }
        assert(decimal(n)[0] == s[0]);
    }
}

// ---------------------------------------------------------------------------
// Reading numbers
// ---------------------------------------------------------------------------

/// A run of characters satisfying `p`, followed by the end of the text or by
/// a character that does not, has the run's length.
pub proof fn lemma_run_len_of_run(d: Seq<char>, rest: Seq<char>, p: spec_fn(char) -> bool)
    requires
        forall|i: int| 0 <= i < d.len() ==> p(#[trigger] d[i]),
        rest.len() == 0 || !p(rest[0]),
    ensures
        run_len(d + rest, p) == d.len(),
    decreases d.len(),
{
    if d.len() == 0 {
        assert(d + rest =~= rest);
    } else {
        assert((d + rest).drop_first() =~= d.drop_first() + rest);
        assert((d + rest)[0] == d[0]);
        lemma_run_len_of_run(d.drop_first(), rest, p);
    }
}

/// In `pre + d + rest`, where no character of `pre` satisfies `p`, `d` is a
/// non-empty run that does and `rest` does not continue it, the first run is
/// `d`.
pub proof fn lemma_first_run_is(pre: Seq<char>, d: Seq<char>, rest: Seq<char>, p: spec_fn(char) -> bool)
    requires
        forall|i: int| 0 <= i < pre.len() ==> !p(#[trigger] pre[i]),
        d.len() > 0,
        forall|i: int| 0 <= i < d.len() ==> p(#[trigger] d[i]),
        rest.len() == 0 || !p(rest[0]),
    ensures
        first_run(pre + d + rest, p) == Some(d),
    decreases pre.len(),
{
    let s = pre + d + rest;
    if pre.len() == 0 {
        assert(s =~= d + rest);
        assert(s[0] == d[0]);
        lemma_run_len_of_run(d, rest, p);
        assert(s.take(d.len() as int) =~= d);
    } else {
        assert(s[0] == pre[0]);
        assert(s.drop_first() =~= pre.drop_first() + d + rest);
        lemma_first_run_is(pre.drop_first(), d, rest, p);
    }
}

/// The first number of a Clippings metadata value is the value of its first
/// run of ASCII digits: for text `pre` without digits, digits `d` whose value
/// fits in a `u32`, and a `rest` that does not continue the digits,
/// `pre + d + rest` gives the value of `d` (`123-125` gives 123).
pub proof fn law_leading_number_reads_first_digits(pre: Seq<char>, d: Seq<char>, rest: Seq<char>)
    requires
        forall|i: int| 0 <= i < pre.len() ==> !is_digit(#[trigger] pre[i]),
        d.len() > 0,
        forall|i: int| 0 <= i < d.len() ==> is_digit(#[trigger] d[i]),
        rest.len() == 0 || !is_digit(rest[0]),
        digits_value(d) <= u32::MAX,
    ensures
        leading_number_spec(pre + d + rest) == Some(digits_value(d) as u32),
{
    lemma_first_run_is(pre, d, rest, digit_pred());
}

/// The first number of a notebook heading's text is the value of its first
/// run of numeric characters: for text `pre` without numeric characters,
/// ASCII digits `d` whose value fits in a `u32`, and a `rest` that does not
/// continue them, `pre + d + rest` gives the value of `d`.
pub proof fn law_first_number_reads_first_digits(pre: Seq<char>, d: Seq<char>, rest: Seq<char>)
    requires
        forall|i: int| 0 <= i < pre.len() ==> !is_numeric_spec(#[trigger] pre[i]),
        d.len() > 0,
        forall|i: int| 0 <= i < d.len() ==> is_digit(#[trigger] d[i]),
        rest.len() == 0 || !is_numeric_spec(rest[0]),
        digits_value(d) <= u32::MAX,
    ensures
        first_number(pre + d + rest) == Some(digits_value(d) as u32),
{
    assert forall|i: int| 0 <= i < d.len() implies numeric_pred()(#[trigger] d[i]) by {
        assert(is_digit(d[i]));
        assert((d[i] as u32) < 128);
    }
    lemma_first_run_is(pre, d, rest, numeric_pred());
}

/// A notebook heading whose first "Location " is followed by ASCII digits
/// (whose value fits in a `u32`, and which nothing numeric continues) is
/// read with that location.
pub proof fn law_page_location_reads_location(t: Seq<char>, l: int, d: Seq<char>, rest: Seq<char>)
    requires
        find(t, "Location "@) == Some(l),
        t.skip(l + "Location "@.len()) == d + rest,
        d.len() > 0,
        forall|i: int| 0 <= i < d.len() ==> is_digit(#[trigger] d[i]),
        rest.len() == 0 || !is_numeric_spec(rest[0]),
        digits_value(d) <= u32::MAX,
    ensures
        page_location_spec(t) matches Ok((_, location)) && location == Some(digits_value(d) as u32),
{
    assert(Seq::<char>::empty() + d + rest =~= d + rest);
    law_first_number_reads_first_digits(Seq::<char>::empty(), d, rest);
}

/// A notebook heading whose first "Page " is followed by ASCII digits (whose
/// value fits in a `u32`, and which nothing numeric continues) is read with
/// that page, whenever it is read.
pub proof fn law_page_location_reads_page(t: Seq<char>, p: int, d: Seq<char>, rest: Seq<char>)
    requires
        find(t, "Page "@) == Some(p),
        t.skip(p + "Page "@.len()) == d + rest,
        d.len() > 0,
        forall|i: int| 0 <= i < d.len() ==> is_digit(#[trigger] d[i]),
        rest.len() == 0 || !is_numeric_spec(rest[0]),
        digits_value(d) <= u32::MAX,
    ensures
        page_location_spec(t) matches Ok((page, _)) ==> page == Some(digits_value(d) as u32),
{
    assert(Seq::<char>::empty() + d + rest =~= d + rest);
    law_first_number_reads_first_digits(Seq::<char>::empty(), d, rest);
}

/// `d` is the decimal text of `n`: ASCII digits without a leading zero whose
/// value is `n`.
pub open spec fn writes_number(d: Seq<char>, n: nat) -> bool {
    &&& d.len() > 0
    &&& forall|i: int| 0 <= i < d.len() ==> is_digit(#[trigger] d[i])
    &&& (d.len() > 1 ==> d[0] != '0')
    &&& digits_value(d) == n
}

/// The page and location written on a note's metadata lines are the decimal
/// texts of the entry's page and location numbers: " - Page N" and
/// " - Location N" after a highlight or bookmark, "Page N" and "Location N"
/// among a note's parts.
pub proof fn law_written_page_and_location_read_back(page: Option<u32>, location: Option<u32>, n: NoteView)
    ensures
        page matches Some(p) ==> exists|d: Seq<char>|
            page_md(page) == " - Page "@ + d && #[trigger] writes_number(d, p as nat),
        location matches Some(l) ==> exists|d: Seq<char>|
            location_md(location) == " - Location "@ + d && #[trigger] writes_number(d, l as nat),
        n.page matches Some(p) ==> exists|d: Seq<char>|
            note_parts(n).contains("Page "@ + d) && #[trigger] writes_number(d, p as nat),
        n.location matches Some(l) ==> exists|d: Seq<char>|
            note_parts(n).contains("Location "@ + d) && #[trigger] writes_number(d, l as nat),
{
    if let Some(p) = page {
        law_decimal_reads_back(p as nat);
        assert(writes_number(decimal(p as nat), p as nat));
    }
    if let Some(l) = location {
        law_decimal_reads_back(l as nat);
        assert(writes_number(decimal(l as nat), l as nat));
    }
    let head: Seq<Seq<char>> = match n.subheading {
        Some(s) => seq![s],
        None => Seq::empty(),
    };
    if let Some(p) = n.page {
        law_decimal_reads_back(p as nat);
        let d = decimal(p as nat);
        assert(writes_number(d, p as nat));
        assert(note_parts(n)[head.len() as int] == "Page "@ + d);
    }
    if let Some(l) = n.location {
        law_decimal_reads_back(l as nat);
        let d = decimal(l as nat);
        assert(writes_number(d, l as nat));
        assert(note_parts(n)[note_parts(n).len() - 1] == "Location "@ + d);
    }
}

} // verus!
