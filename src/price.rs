use vstd::prelude::*;

use crate::error::{FieldErrorKind, FieldParsingError};
use crate::text::{
    chars_of, contains, digit_val, digits_value, find_from, is_digit, is_digit_char,
    lemma_digits_value_nonneg, occurs_at,
};

verus! {

/// A price in minor units (grosze), with the "negotiable" flag.
#[derive(Debug, Clone, Copy, PartialEq, Eq, Structural)]
pub struct Price {
    pub value: u32,
    pub negotiable: bool,
}

/// The phrase that marks a price as negotiable.
pub open spec fn negotiable_marker() -> Seq<char> {
    "do negocjacji"@
}

/// Least position at or after `i` that holds a digit, or `s.len()`.
pub open spec fn digit_from(s: Seq<char>, i: int) -> int
    decreases s.len() - i,
{
    if i < 0 || i >= s.len() {
        s.len() as int
    } else if is_digit(s[i]) {
        i
    } else {
        digit_from(s, i + 1)
    }
}

/// End of the integer part that starts at a digit at `j`: digits, where single
/// spaces between two digits are taken as thousands separators.
pub open spec fn group_end(s: Seq<char>, j: int) -> int
    decreases s.len() - j,
{
    if 0 <= j < s.len() && is_digit(s[j]) {
        group_end(s, j + 1)
    } else if 0 <= j && j + 1 < s.len() && s[j] == ' ' && is_digit(s[j + 1]) {
        group_end(s, j + 1)
    } else {
        j
    }
}

/// A comma and two digits follow position `e`.
pub open spec fn has_decimals(s: Seq<char>, e: int) -> bool {
    0 <= e && e + 2 < s.len() && s[e] == ',' && is_digit(s[e + 1]) && is_digit(s[e + 2])
}

pub open spec fn decimals_at(s: Seq<char>, e: int) -> int {
    if has_decimals(s, e) {
        digit_val(s[e + 1]) * 10 + digit_val(s[e + 2])
    } else {
        0
    }
}

/// The value in minor units of the first price written in `s`: the integer part
/// with its spaces removed, times 100, plus the two decimal digits (`00` when
/// there are none). `None` when `s` holds no digit.
pub open spec fn price_value(s: Seq<char>) -> Option<int> {
    let start = digit_from(s, 0);
    if start >= s.len() {
        None
    } else {
        let e = group_end(s, start);
        Some(digits_value(s, start, e) * 100 + decimals_at(s, e))
    }
}

/// The outcome that the price text `s` is owed: the price, or `None` for a
/// price-parsing error (no digits, or a value that does not fit in `u32`).
pub open spec fn price_of(s: Seq<char>) -> Option<Price> {
    match price_value(s) {
        Some(v) => if v <= u32::MAX {
            Some(Price { value: v as u32, negotiable: contains(s, negotiable_marker()) })
        } else {
            None
        },
        None => None,
    }
}

/// The message of the error for the price text `s`: no digits, or a value too
/// large for `u32`.
pub open spec fn price_error_message(s: Seq<char>) -> Seq<char> {
    if price_value(s) is None {
        "No price found"@
    } else {
        "value out of range"@
    }
}

proof fn lemma_digit_from(s: Seq<char>, i: int)
    requires
        0 <= i <= s.len(),
    ensures
        i <= digit_from(s, i) <= s.len(),
        forall|k: int| i <= k < digit_from(s, i) ==> !is_digit(#[trigger] s[k]),
        digit_from(s, i) < s.len() ==> is_digit(s[digit_from(s, i)]),
    decreases s.len() - i,
{
    if i < s.len() && !is_digit(s[i]) {
        lemma_digit_from(s, i + 1);
    }
}

proof fn lemma_group_end_bounds(s: Seq<char>, j: int)
    requires
        0 <= j <= s.len(),
    ensures
        j <= group_end(s, j) <= s.len(),
    decreases s.len() - j,
{
    if j < s.len() && is_digit(s[j]) {
        lemma_group_end_bounds(s, j + 1);
    } else if j + 1 < s.len() && s[j] == ' ' && is_digit(s[j + 1]) {
        lemma_group_end_bounds(s, j + 1);
    }
}

proof fn lemma_digits_value_mono(s: Seq<char>, lo: int, hi: int)
    requires
        lo <= hi,
    ensures
        digits_value(s, lo, hi) <= digits_value(s, lo, hi + 1),
{
    lemma_digits_value_nonneg(s, lo, hi);
}

fn parse_error(msg: &str) -> (e: FieldParsingError)
    ensures
        e.error_type == FieldErrorKind::PriceParsingError,
        e.message@ == msg@,
{
    FieldParsingError { error_type: FieldErrorKind::PriceParsingError, message: msg.to_owned() }
}

/// Parses a price such as `"1 200,50 zł do negocjacji"`: the first run of
/// digits, optionally grouped by single spaces and followed by a comma and two
/// decimal digits, gives the value in minor units; the negotiable marker
/// anywhere in the text sets `negotiable`.
pub fn get_price_from_raw_text(raw_text: &str) -> (r: Result<Price, FieldParsingError>)
    ensures
        match r {
            Ok(p) => price_of(raw_text@) == Some(p),
            Err(e) => price_of(raw_text@) is None && e.error_type
                == FieldErrorKind::PriceParsingError && e.message@ == price_error_message(
                raw_text@,
            ),
        },
{
    let s = chars_of(raw_text);
    let ghost sv = s@;
    let mut start: usize = 0;
    while start < s.len() && !is_digit_char(s[start])
        invariant
            start <= s.len(),
            sv == s@,
            digit_from(sv, 0) == digit_from(sv, start as int),
        decreases s.len() - start,
    {
        proof {
            assert(digit_from(sv, start as int) == digit_from(sv, start as int + 1));
        }
        start = start + 1;
    }
    if start >= s.len() {
        return Err(parse_error("No price found"));
    }
    let mut j: usize = start;
    let mut acc: u64 = 0;
    let mut big: bool = false;
    let cap: u64 = 0xffff_ffff;
    proof {
        lemma_group_end_bounds(sv, start as int);
    }
    while j < s.len() && (is_digit_char(s[j]) || (s[j] == ' ' && j + 1 < s.len()
        && is_digit_char(s[j + 1])))
        invariant
            start <= j <= s.len(),
            sv == s@,
            group_end(sv, start as int) == group_end(sv, j as int),
            big == (digits_value(sv, start as int, j as int) > cap),
            !big ==> acc == digits_value(sv, start as int, j as int),
            cap == u32::MAX,
        decreases s.len() - j,
    {
        proof {
            lemma_digits_value_mono(sv, start as int, j as int);
        }
        proof {
            let ji = j as int;
            assert(group_end(sv, ji) == group_end(sv, ji + 1));
            if is_digit(sv[ji]) {
                assert(digits_value(sv, start as int, ji + 1) == digits_value(sv, start as int, ji)
                    * 10 + digit_val(sv[ji]));
            } else {
                assert(digits_value(sv, start as int, ji + 1) == digits_value(sv, start as int, ji));
            }
        }
        if is_digit_char(s[j]) && !big {
            let d = (s[j] as u64) - ('0' as u64);
            acc = acc * 10 + d;
            if acc > cap {
                big = true;
            }
        }
        j = j + 1;
    }
    let e = j;
    let mut dec: u64 = 0;
    if e < s.len() && s.len() - e > 2 && s[e] == ',' && is_digit_char(s[e + 1]) && is_digit_char(s[e + 2]) {
        dec = ((s[e + 1] as u64) - ('0' as u64)) * 10 + ((s[e + 2] as u64) - ('0' as u64));
    }
    if big || acc * 100 + dec > cap {
        proof {
            lemma_digits_value_nonneg(sv, start as int, e as int);
        }
        return Err(parse_error("value out of range"));
    }
    let marker = chars_of("do negocjacji");
    let negotiable = find_from(&s, &marker, 0).is_some();
    Ok(Price { value: (acc * 100 + dec) as u32, negotiable })
}


/// Digits grouped by single spaces: it starts and ends with a digit and holds
/// only digits and spaces, each space followed by a digit.
pub open spec fn is_grouped_digits(g: Seq<char>) -> bool {
    &&& g.len() > 0
    &&& is_digit(g[0])
    &&& is_digit(g[g.len() - 1])
    &&& forall|k: int|
        0 <= k < g.len() ==> is_digit(#[trigger] g[k]) || (g[k] == ' ' && k + 1 < g.len()
            && is_digit(g[k + 1]))
}

proof fn lemma_digits_value_prefix(s: Seq<char>, g: Seq<char>, hi: int)
    requires
        0 <= hi <= g.len() <= s.len(),
        s.subrange(0, g.len() as int) == g,
    ensures
        digits_value(s, 0, hi) == digits_value(g, 0, hi),
    decreases hi,
{
    if hi > 0 {
        assert(s[hi - 1] == s.subrange(0, g.len() as int)[hi - 1]);
        lemma_digits_value_prefix(s, g, hi - 1);
    }
}

proof fn lemma_group_end_grouped(s: Seq<char>, g: Seq<char>, j: int)
    requires
        is_grouped_digits(g),
        0 <= j <= g.len() <= s.len(),
        s.subrange(0, g.len() as int) == g,
        g.len() < s.len() ==> s[g.len() as int] == ',',
    ensures
        group_end(s, j) == g.len(),
    decreases g.len() - j,
{
    if j < g.len() {
        assert(s[j] == s.subrange(0, g.len() as int)[j]);
        if j + 1 < g.len() {
            assert(s[j + 1] == s.subrange(0, g.len() as int)[j + 1]);
        }
        assert(is_digit(g[j]) || (g[j] == ' ' && j + 1 < g.len() && is_digit(g[j + 1])));
        lemma_group_end_grouped(s, g, j + 1);
    }
}

/// A price written as digits grouped by spaces, a comma and two decimal
/// digits is worth its digits times 100 plus its decimals; written without
/// the decimals it is worth its digits times 100.
pub proof fn lemma_grouped_price_value(g: Seq<char>, d: Seq<char>)
    requires
        is_grouped_digits(g),
        d.len() == 2,
        is_digit(d[0]),
        is_digit(d[1]),
    ensures
        price_value(g + seq![','] + d) == Some(
            digits_value(g, 0, g.len() as int) * 100 + digit_val(d[0]) * 10 + digit_val(d[1]),
        ),
        price_value(g) == Some(digits_value(g, 0, g.len() as int) * 100),
{
    let s = g + seq![','] + d;
    assert(s.subrange(0, g.len() as int) =~= g);
    assert(s[g.len() as int] == ',');
    assert(digit_from(s, 0) == 0);
    lemma_group_end_grouped(s, g, 0);
    lemma_digits_value_prefix(s, g, g.len() as int);
    assert(s[g.len() as int + 1] == d[0] && s[g.len() as int + 2] == d[1]);
    assert(has_decimals(s, g.len() as int));
    assert(g.subrange(0, g.len() as int) =~= g);
    assert(digit_from(g, 0) == 0);
    lemma_group_end_grouped(g, g, 0);
}

/// A text without a digit holds no price.
pub proof fn lemma_no_digit_no_price(s: Seq<char>)
    requires
        forall|k: int| 0 <= k < s.len() ==> !is_digit(#[trigger] s[k]),
    ensures
        price_of(s) is None,
{
    lemma_digit_from(s, 0);
}

/// The marker as it is appended after a price: a space, then the phrase.
pub open spec fn marker_suffix() -> Seq<char> {
    seq![' '] + negotiable_marker()
}

proof fn lemma_marker_suffix()
    ensures
        marker_suffix().len() >= 3,
        marker_suffix()[0] == ' ',
        marker_suffix()[1] == 'd',
        marker_suffix()[2] == 'o',
{
    reveal_strlit("do negocjacji");
}

proof fn lemma_group_end_extended(t: Seq<char>, j: int)
    requires
        0 <= j <= t.len(),
    ensures
        group_end(t + marker_suffix(), j) == group_end(t, j),
    decreases t.len() - j,
{
    lemma_marker_suffix();
    let s = t + marker_suffix();
    if j < t.len() {
        assert(s[j] == t[j]);
        if j + 1 < t.len() {
            assert(s[j + 1] == t[j + 1]);
        } else {
            assert(s[j + 1] == ' ');
        }
        lemma_group_end_extended(t, j + 1);
    } else {
        assert(s[j] == ' ' && s[j + 1] == 'd');
    }
}

proof fn lemma_digits_value_extended(t: Seq<char>, lo: int, hi: int)
    requires
        0 <= lo,
        hi <= t.len(),
    ensures
        digits_value(t + marker_suffix(), lo, hi) == digits_value(t, lo, hi),
    decreases hi - lo,
{
    if hi > lo {
        assert((t + marker_suffix())[hi - 1] == t[hi - 1]);
        lemma_digits_value_extended(t, lo, hi - 1);
    }
}

/// Appending the negotiable marker to a price text sets the flag and leaves
/// the value as it was.
pub proof fn lemma_marker_sets_flag_only(t: Seq<char>)
    requires
        price_of(t) is Some,
    ensures
        price_of(t + marker_suffix()) == Some(
            Price { value: price_of(t)->Some_0.value, negotiable: true },
        ),
{
    lemma_marker_suffix();
    let s = t + marker_suffix();
    lemma_digit_from(t, 0);
    let start = digit_from(t, 0);
    assert forall|k: int| 0 <= k < start implies !is_digit(#[trigger] s[k]) by {
        assert(s[k] == t[k]);
        assert(!is_digit(t[k]));
    }
    assert(s[start] == t[start]);
    lemma_digit_from_at(s, 0, start);
    lemma_group_end_bounds(t, start);
    lemma_group_end_extended(t, start);
    let e = group_end(t, start);
    lemma_digits_value_extended(t, start, e);
    if e + 2 < t.len() {
        assert(s[e] == t[e] && s[e + 1] == t[e + 1] && s[e + 2] == t[e + 2]);
    } else if e < t.len() && s[e] == ',' {
        if e + 1 < t.len() {
            assert(s[e + 2] == marker_suffix()[0]);
        } else {
            assert(s[e + 1] == marker_suffix()[0]);
        }
    } else if e == t.len() {
        assert(s[e] == ' ');
    }
    assert(decimals_at(s, e) == decimals_at(t, e));
    let m = negotiable_marker();
    let p0 = t.len() as int + 1;
    assert(s.subrange(p0, p0 + m.len()) =~= m);
    assert(occurs_at(s, m, p0));
}

proof fn lemma_digit_from_at(s: Seq<char>, i: int, k: int)
    requires
        0 <= i <= k < s.len(),
        is_digit(s[k]),
        forall|q: int| i <= q < k ==> !is_digit(#[trigger] s[q]),
    ensures
        digit_from(s, i) == k,
    decreases k - i,
{
    if i < k {
        lemma_digit_from_at(s, i + 1, k);
    }
}

} // verus!
