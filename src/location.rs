use vstd::prelude::*;

use crate::date::{date_of, lower_of, parse_date, CivilDate, UtcDateTime};
use crate::error::{FieldErrorKind, FieldParsingError};
use crate::text::{chars_of, find_from, occurs_at};
use vstd::string::{StrSliceExecFns, StringExecFns};

verus! {

/// The separator between the location and the date.
pub open spec fn separator() -> Seq<char> {
    " - "@
}

/// The least position at or after `i` where the separator occurs, or
/// `s.len()` when there is none.
pub open spec fn separator_from(s: Seq<char>, i: int) -> int
    decreases s.len() - i,
{
    if i < 0 || i >= s.len() {
        s.len() as int
    } else if occurs_at(s, separator(), i) {
        i
    } else {
        separator_from(s, i + 1)
    }
}

/// Where `s` splits into exactly two segments around the separator: the
/// position of its first occurrence, when no other occurrence follows it.
pub open spec fn single_split(s: Seq<char>) -> Option<int> {
    let k = separator_from(s, 0);
    if k < s.len() && forall|j: int| j >= k + 3 ==> !occurs_at(s, separator(), j) {
        Some(k)
    } else {
        None
    }
}

proof fn lemma_separator_from(s: Seq<char>, i: int, k: int)
    requires
        0 <= i <= k,
        forall|j: int| i <= j < k ==> !occurs_at(s, separator(), j),
        occurs_at(s, separator(), k) || k >= s.len(),
    ensures
        separator_from(s, i) == if occurs_at(s, separator(), k) { k } else { s.len() as int },
    decreases k - i,
{
    reveal_strlit(" - ");
    if i < k && i < s.len() {
        lemma_separator_from(s, i + 1, k);
    }
}

/// The location and moment that the text `s` stands for.
pub open spec fn location_date_of(s: Seq<char>, today: CivilDate) -> Result<
    (Seq<char>, UtcDateTime),
    FieldErrorKind,
> {
    match single_split(s) {
        Some(k) => match date_of(lower_of(s.subrange(k + 3, s.len() as int)), today) {
            Ok(d) => Ok((s.subrange(0, k), d)),
            Err(e) => Err(e),
        },
        None => Err(FieldErrorKind::LocationDateParsingError),
    }
}

/// The message of the error for the text `s`: the text itself when it does not
/// split, else the date parser's message, the lower-cased date segment.
pub open spec fn location_error_message(s: Seq<char>) -> Seq<char> {
    match single_split(s) {
        Some(k) => lower_of(s.subrange(k + 3, s.len() as int)),
        None => s,
    }
}

/// Splits `"Warszawa - dzisiaj o 14:30"` into the location and the date; the
/// text must hold the separator `" - "` exactly once.
pub fn get_location_date_from_raw_text(raw_text: &str, today: &CivilDate) -> (r: Result<
    (String, UtcDateTime),
    FieldParsingError,
>)
    requires
        today.wf(),
    ensures
        match r {
            Ok((loc, d)) => location_date_of(raw_text@, *today) == Ok::<
                (Seq<char>, UtcDateTime),
                FieldErrorKind,
            >((loc@, d)) && d.wf(),
            Err(e) => location_date_of(raw_text@, *today) == Err::<
                (Seq<char>, UtcDateTime),
                FieldErrorKind,
            >(e.error_type) && e.message@ == location_error_message(raw_text@),
        },
{
    let s = chars_of(raw_text);
    let sep = chars_of(" - ");
    proof {
        reveal_strlit(" - ");
        assert(sep@.len() == 3);
    }
    match find_from(&s, &sep, 0) {
        None => {
            proof {
                lemma_separator_from(s@, 0, s@.len() as int);
            }
            Err(
            FieldParsingError {
                error_type: FieldErrorKind::LocationDateParsingError,
                message: raw_text.to_owned(),
            },
        )
        },
        Some(k) => {
            proof {
                lemma_separator_from(s@, 0, k as int);
                assert(sep@ == separator());
                assert(k + sep@.len() <= s@.len());
                assert(k + 3 <= s.len());
            }
            if find_from(&s, &sep, k + 3).is_some() {
                return Err(
                    FieldParsingError {
                        error_type: FieldErrorKind::LocationDateParsingError,
                        message: raw_text.to_owned(),
                    },
                );
            }
            let location = String::from_str(raw_text.substring_char(0, k));
            let rest = raw_text.substring_char(k + 3, s.len());
            match parse_date(rest, today) {
                Ok(d) => Ok((location, d)),
                Err(e) => Err(e),
            }
        },
    }
}


/// A text without the separator is not a location and a date.
pub proof fn lemma_split_needs_separator(s: Seq<char>, today: CivilDate)
    requires
        forall|k: int| !occurs_at(s, separator(), k),
    ensures
        location_date_of(s, today) == Err::<(Seq<char>, UtcDateTime), FieldErrorKind>(
            FieldErrorKind::LocationDateParsingError,
        ),
{
    lemma_separator_from(s, 0, s.len() as int);
    assert(single_split(s) is None);
}

proof fn lemma_two_separators_no_split(s: Seq<char>, i: int, j: int)
    requires
        occurs_at(s, separator(), i),
        occurs_at(s, separator(), j),
        j >= i + 3,
    ensures
        single_split(s) is None,
{
    lemma_first_separator_exists(s, 0, i);
    let k = separator_from(s, 0);
    assert(k <= i);
    assert(j >= k + 3 && occurs_at(s, separator(), j));
}

proof fn lemma_first_separator_exists(s: Seq<char>, from: int, i: int)
    requires
        0 <= from <= i,
        occurs_at(s, separator(), i),
    ensures
        from <= separator_from(s, from) <= i,
    decreases i - from,
{
    if from < i && !occurs_at(s, separator(), from) {
        lemma_first_separator_exists(s, from + 1, i);
    }
}

/// A text with a second separator after the first is not a location and a
/// date.
pub proof fn lemma_split_needs_single_separator(s: Seq<char>, today: CivilDate, i: int, j: int)
    requires
        occurs_at(s, separator(), i),
        occurs_at(s, separator(), j),
        j >= i + 3,
    ensures
        location_date_of(s, today) == Err::<(Seq<char>, UtcDateTime), FieldErrorKind>(
            FieldErrorKind::LocationDateParsingError,
        ),
{
    lemma_two_separators_no_split(s, i, j);
}

/// How many segments splitting `s[i..]` on the separator gives: the text is
/// read from the left, and each separator found ends a segment and is skipped
/// whole.
pub open spec fn segment_count(s: Seq<char>, i: int) -> nat
    decreases s.len() + 3 - i,
{
    if i < 0 || i >= s.len() {
        1
    } else if occurs_at(s, separator(), i) {
        1 + segment_count(s, i + 3)
    } else {
        segment_count(s, i + 1)
    }
}

proof fn lemma_separator_from_props(s: Seq<char>, i: int)
    requires
        0 <= i,
    ensures
        i <= separator_from(s, i) || i > s.len(),
        separator_from(s, i) < s.len() ==> occurs_at(s, separator(), separator_from(s, i)),
        forall|j: int| i <= j < separator_from(s, i) ==> !occurs_at(s, separator(), j),
        separator_from(s, i) >= s.len() ==> forall|j: int|
            j >= i ==> !occurs_at(s, separator(), j),
    decreases s.len() - i,
{
    reveal_strlit(" - ");
    if i < s.len() && !occurs_at(s, separator(), i) {
        lemma_separator_from_props(s, i + 1);
    }
}

proof fn lemma_one_segment(s: Seq<char>, i: int)
    requires
        0 <= i,
    ensures
        segment_count(s, i) >= 1,
        segment_count(s, i) == 1 <==> forall|j: int| j >= i ==> !occurs_at(s, separator(), j),
    decreases s.len() + 3 - i,
{
    reveal_strlit(" - ");
    if i < s.len() {
        if occurs_at(s, separator(), i) {
            lemma_one_segment(s, i + 3);
        } else {
            lemma_one_segment(s, i + 1);
            if segment_count(s, i) == 1 {
                assert forall|j: int| j >= i implies !occurs_at(s, separator(), j) by {
                    if j > i {
                        assert(j >= i + 1);
                    }
                }
            }
        }
    }
}

proof fn lemma_segments_after(s: Seq<char>, i: int, k: int)
    requires
        0 <= i <= k,
        occurs_at(s, separator(), k),
        forall|j: int| i <= j < k ==> !occurs_at(s, separator(), j),
    ensures
        segment_count(s, i) == 1 + segment_count(s, k + 3),
    decreases k - i,
{
    reveal_strlit(" - ");
    if i < k {
        lemma_segments_after(s, i + 1, k);
    }
}

/// The text fails to split into a location and a date exactly when splitting
/// it on the separator gives other than two segments; a date that does not
/// parse gives a time or date error instead.
pub proof fn lemma_split_error_iff_not_two_segments(s: Seq<char>, today: CivilDate)
    ensures
        (location_date_of(s, today) == Err::<(Seq<char>, UtcDateTime), FieldErrorKind>(
            FieldErrorKind::LocationDateParsingError,
        )) <==> segment_count(s, 0) != 2,
{
    lemma_separator_from_props(s, 0);
    let k = separator_from(s, 0);
    if k < s.len() {
        lemma_segments_after(s, 0, k);
        lemma_one_segment(s, k + 3);
    } else {
        lemma_one_segment(s, 0);
    }
}

} // verus!
