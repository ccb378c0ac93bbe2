use vstd::prelude::*;

use crate::error::{FieldErrorKind, FieldParsingError};
use crate::text::{
    bounded_value, chars_of, contains, digits_value, find_from, is_digit, is_digit_char,
    lemma_run_end_bounds, occurs_at, run_end, run_end_exec,
};

verus! {

/// A calendar date (proleptic Gregorian).
#[derive(Debug, Clone, Copy, PartialEq, Eq, Structural)]
pub struct CivilDate {
    pub year: i32,
    pub month: u32,
    pub day: u32,
}

/// A moment in UTC, to the minute.
#[derive(Debug, Clone, Copy, PartialEq, Eq, Structural)]
pub struct UtcDateTime {
    pub year: i32,
    pub month: u32,
    pub day: u32,
    pub hour: u32,
    pub minute: u32,
}

pub open spec fn is_leap_year(y: int) -> bool {
    (y % 4 == 0 && y % 100 != 0) || y % 400 == 0
}

pub open spec fn days_in_month(y: int, m: int) -> int {
    if m == 2 {
        if is_leap_year(y) { 29 } else { 28 }
    } else if m == 4 || m == 6 || m == 9 || m == 11 {
        30
    } else {
        31
    }
}

pub open spec fn valid_date(y: int, m: int, d: int) -> bool {
    1 <= m <= 12 && 1 <= d <= days_in_month(y, m)
}

impl CivilDate {
    pub open spec fn wf(self) -> bool {
        valid_date(self.year as int, self.month as int, self.day as int)
    }
}

impl CivilDate {
    /// Whether this is a date of the calendar.
    pub fn is_valid(&self) -> (r: bool)
        ensures
            r == self.wf(),
    {
        1 <= self.month && self.month <= 12 && 1 <= self.day && self.day <= days_in_month_i32(
            self.year,
            self.month,
        )
    }
}

fn days_in_month_i32(y: i32, m: u32) -> (r: u32)
    requires
        1 <= m <= 12,
    ensures
        r as int == days_in_month(y as int, m as int),
{
    if m == 2 {
        let leap = if y >= 0 {
            let u = y as u32;
            (u % 4 == 0 && u % 100 != 0) || u % 400 == 0
        } else {
            // a year and its negation are leap years alike
            let u = (-(y as i64)) as u64;
            (u % 4 == 0 && u % 100 != 0) || u % 400 == 0
        };
        proof {
            lemma_leap_negation(y as int);
        }
        if leap {
            29
        } else {
            28
        }
    } else if m == 4 || m == 6 || m == 9 || m == 11 {
        30
    } else {
        31
    }
}

proof fn lemma_leap_negation(y: int)
    ensures
        is_leap_year(y) == is_leap_year(-y),
{
    assert((y % 4 == 0) == ((-y) % 4 == 0)) by (nonlinear_arith);
    assert((y % 100 == 0) == ((-y) % 100 == 0)) by (nonlinear_arith);
    assert((y % 400 == 0) == ((-y) % 400 == 0)) by (nonlinear_arith);
}

impl UtcDateTime {
    pub open spec fn wf(self) -> bool {
        valid_date(self.year as int, self.month as int, self.day as int) && self.hour < 24
            && self.minute < 60
    }
}

/// The word for "today".
pub open spec fn today_word() -> Seq<char> {
    seq!['d', 'z', 'i', 's', 'i', 'a', 'j']
}

/// The month names, in calendar order, as they stand after a day number.
pub open spec fn month_name(m: int) -> Seq<char> {
    if m == 1 {
        seq!['s', 't', 'y', 'c', 'z', 'n', 'i', 'a']
    } else if m == 2 {
        seq!['l', 'u', 't', 'e', 'g', 'o']
    } else if m == 3 {
        seq!['m', 'a', 'r', 'c', 'a']
    } else if m == 4 {
        seq!['k', 'w', 'i', 'e', 't', 'n', 'i', 'a']
    } else if m == 5 {
        seq!['m', 'a', 'j', 'a']
    } else if m == 6 {
        seq!['c', 'z', 'e', 'r', 'w', 'c', 'a']
    } else if m == 7 {
        seq!['l', 'i', 'p', 'c', 'a']
    } else if m == 8 {
        seq!['s', 'i', 'e', 'r', 'p', 'n', 'i', 'a']
    } else if m == 9 {
        seq!['w', 'r', 'z', 'e', 'ś', 'n', 'i', 'a']
    } else if m == 10 {
        seq!['p', 'a', 'ź', 'd', 'z', 'i', 'e', 'r', 'n', 'i', 'k', 'a']
    } else if m == 11 {
        seq!['l', 'i', 's', 't', 'o', 'p', 'a', 'd', 'a']
    } else {
        seq!['g', 'r', 'u', 'd', 'n', 'i', 'a']
    }
}

/// The first month from `m` on whose name is `w`, or 0 when none is.
pub open spec fn month_from(w: Seq<char>, m: int) -> int
    decreases 13 - m,
{
    if m < 1 || m > 12 {
        0
    } else if month_name(m) == w {
        m
    } else {
        month_from(w, m + 1)
    }
}

/// The month whose name is `w`, or 0 when `w` names none.
pub open spec fn month_number(w: Seq<char>) -> int {
    month_from(w, 1)
}

/// A character that may stand in a word: an ASCII letter or digit, an
/// underscore, or any character beyond ASCII.
pub open spec fn is_word_char(c: char) -> bool {
    ('a' <= c && c <= 'z') || ('A' <= c && c <= 'Z') || is_digit(c) || c == '_' || c as u32
        >= 128
}

pub open spec fn word_end(s: Seq<char>, i: int) -> int
    decreases s.len() - i,
{
    if 0 <= i < s.len() && is_word_char(s[i]) {
        word_end(s, i + 1)
    } else {
        i
    }
}

/// A time token `<digits>:<digits>` starts at `i`.
pub open spec fn time_at(s: Seq<char>, i: int) -> bool {
    let a = run_end(s, i);
    0 <= i < s.len() && is_digit(s[i]) && a + 1 < s.len() && s[a] == ':' && is_digit(s[a + 1])
}

/// The least position at or after `i` where a time token starts, or `s.len()`.
pub open spec fn first_time_from(s: Seq<char>, i: int) -> int
    decreases s.len() - i,
{
    if i < 0 || i >= s.len() {
        s.len() as int
    } else if time_at(s, i) {
        i
    } else {
        first_time_from(s, i + 1)
    }
}

/// The text `<digits> <word> <four digits>` starts at `i`.
pub open spec fn date_at(s: Seq<char>, i: int) -> bool {
    let a = run_end(s, i);
    let b = word_end(s, a + 1);
    &&& 0 <= i < s.len() && is_digit(s[i])
    &&& a < s.len() && s[a] == ' '
    &&& b > a + 1
    &&& b + 5 <= s.len() && s[b] == ' '
    &&& run_end(s, b + 1) >= b + 5
}

pub open spec fn first_date_from(s: Seq<char>, i: int) -> int
    decreases s.len() - i,
{
    if i < 0 || i >= s.len() {
        s.len() as int
    } else if date_at(s, i) {
        i
    } else {
        first_date_from(s, i + 1)
    }
}

/// Today's date at the first `<hour>:<minute>` of `s`; hour and minute are one
/// or two digits each, within a 24-hour clock.
pub open spec fn today_at_time(s: Seq<char>, today: CivilDate) -> Result<UtcDateTime, FieldErrorKind> {
    let k = first_time_from(s, 0);
    let a = run_end(s, k);
    let m_end = run_end(s, a + 1);
    let h = digits_value(s, k, a);
    let m = digits_value(s, a + 1, m_end);
    if k < s.len() && a - k <= 2 && m_end - (a + 1) <= 2 && h <= 23 && m <= 59 {
        Ok(
            UtcDateTime {
                year: today.year,
                month: today.month,
                day: today.day,
                hour: h as u32,
                minute: m as u32,
            },
        )
    } else {
        Err(FieldErrorKind::TimeParsingError)
    }
}

/// Midnight on the first `<day> <month name> <year>` of `s`.
pub open spec fn absolute_date(s: Seq<char>) -> Result<UtcDateTime, FieldErrorKind> {
    let i = first_date_from(s, 0);
    let a = run_end(s, i);
    let b = word_end(s, a + 1);
    let month = month_number(s.subrange(a + 1, b));
    let day = digits_value(s, i, a);
    let year = digits_value(s, b + 1, b + 5);
    if i < s.len() && month != 0 && valid_date(year, month, day) {
        Ok(UtcDateTime { year: year as i32, month: month as u32, day: day as u32, hour: 0, minute: 0 })
    } else {
        Err(FieldErrorKind::DateParsingError)
    }
}

/// The moment that the lower-case date text `s` stands for.
pub open spec fn date_of(s: Seq<char>, today: CivilDate) -> Result<UtcDateTime, FieldErrorKind> {
    if contains(s, today_word()) {
        today_at_time(s, today)
    } else {
        absolute_date(s)
    }
}

pub uninterp spec fn lower_of(s: Seq<char>) -> Seq<char>;

/// Relies on `str::to_lowercase`: the lower-case form of `s`, which depends on
/// the characters of `s` alone.
#[verifier::external_body]
fn lowercase(s: &str) -> (r: String)
    ensures
        r@ == lower_of(s@),
{
    s.to_lowercase()
}

/// The number of days from 1970-01-01 to the given date of the proleptic
/// Gregorian calendar (negative before it).
pub open spec fn days_from_civil(y: int, m: int, d: int) -> int {
    let yy = if m <= 2 { y - 1 } else { y };
    let era = yy / 400;
    let yoe = yy - era * 400;
    let mp = if m > 2 { m - 3 } else { m + 9 };
    let doy = (153 * mp + 2) / 5 + d - 1;
    let doe = yoe * 365 + yoe / 4 - yoe / 100 + doy;
    era * 146097 + doe - 719468
}

/// `d` is the UTC date of the instant `secs` seconds after the Unix epoch.
pub open spec fn is_date_of_second(d: CivilDate, secs: int) -> bool {
    d.wf() && days_from_civil(d.year as int, d.month as int, d.day as int) == secs / 86400
}

/// The first second of year 1 and the last second of year 9999, from the epoch.
pub open spec fn in_common_era(secs: int) -> bool {
    -62135596800 <= secs <= 253402300799
}

#[verifier::external_type_specification]
#[verifier::external_body]
pub struct ExSystemTime(std::time::SystemTime);

/// Relies on std's `SystemTime::now`: the clock's reading.
#[verifier::external_body]
fn system_now() -> (r: std::time::SystemTime) {
    std::time::SystemTime::now()
}

/// Relies on std's `SystemTime::duration_since(UNIX_EPOCH)`: how far `t` lies
/// from the Unix epoch, in whole seconds and the nanoseconds beyond them;
/// `Ok` at or after the epoch, `Err` before it.
#[verifier::external_body]
fn since_epoch(t: &std::time::SystemTime) -> (r: Result<(u64, u32), (u64, u32)>) {
    match t.duration_since(std::time::UNIX_EPOCH) {
        Ok(d) => Ok((d.as_secs(), d.subsec_nanos())),
        Err(e) => Err((e.duration().as_secs(), e.duration().subsec_nanos())),
    }
}

/// Relies on chrono's `DateTime::from_timestamp` (which gives `None` only out
/// of chrono's range, far beyond years 1 to 9999, and never panics),
/// `DateTime::date_naive` and `Datelike`: the UTC calendar date of the instant
/// `secs` seconds after the epoch.
#[verifier::external_body]
fn utc_date_at(secs: i64) -> (r: Option<CivilDate>)
    ensures
        r matches Some(d) ==> is_date_of_second(d, secs as int),
        in_common_era(secs as int) ==> r is Some,
{
    match chrono::DateTime::from_timestamp(secs, 0) {
        Some(t) => {
            let d = t.date_naive();
            Some(CivilDate {
                year: chrono::Datelike::year(&d),
                month: chrono::Datelike::month(&d),
                day: chrono::Datelike::day(&d),
            })
        },
        None => None,
    }
}

/// The instant of a clock reading, in whole seconds from the epoch, rounded
/// towards the past: a reading before the epoch with a fraction of a second
/// lies in the second before its whole seconds.
pub open spec fn epoch_seconds(reading: Result<(u64, u32), (u64, u32)>) -> int {
    match reading {
        Ok((s, _)) => s as int,
        Err((s, n)) => -(s as int) - if n > 0 { 1int } else { 0int },
    }
}

/// What `date_at_reading` owes for `reading`: no date when its second does not
/// fit in `i64`; else the date of that second when there is one, and surely
/// one within years 1 to 9999.
pub open spec fn date_at_reading_spec(
    reading: Result<(u64, u32), (u64, u32)>,
    r: Option<CivilDate>,
) -> bool {
    let s = epoch_seconds(reading);
    &&& !(i64::MIN <= s <= i64::MAX) ==> r is None
    &&& (i64::MIN <= s <= i64::MAX) ==> (r matches Some(d) ==> is_date_of_second(d, s))
    &&& (i64::MIN <= s <= i64::MAX && in_common_era(s)) ==> r is Some
}

pub open spec fn pow10(n: nat) -> int
    decreases n,
{
    if n == 0 {
        1
    } else {
        10 * pow10((n - 1) as nat)
    }
}

proof fn lemma_digits_value_below(s: Seq<char>, lo: int, hi: int)
    requires
        lo <= hi,
        forall|k: int| lo <= k < hi ==> is_digit(#[trigger] s[k]),
    ensures
        0 <= digits_value(s, lo, hi) < pow10((hi - lo) as nat),
    decreases hi - lo,
{
    if hi > lo {
        lemma_digits_value_below(s, lo, hi - 1);
        let v = digits_value(s, lo, hi - 1);
        let p = pow10((hi - 1 - lo) as nat);
        assert(is_digit(s[hi - 1]));
        assert(pow10((hi - lo) as nat) == 10 * p);
        assert(v * 10 + 9 < 10 * p) by (nonlinear_arith)
            requires
                v < p,
        ;
    }
}

fn month_name_str(m: u32) -> (r: &'static str)
    requires
        1 <= m <= 12,
    ensures
        r@ == month_name(m as int),
{
    proof {
        reveal_strlit("stycznia");
        reveal_strlit("lutego");
        reveal_strlit("marca");
        reveal_strlit("kwietnia");
        reveal_strlit("maja");
        reveal_strlit("czerwca");
        reveal_strlit("lipca");
        reveal_strlit("sierpnia");
        reveal_strlit("września");
        reveal_strlit("października");
        reveal_strlit("listopada");
        reveal_strlit("grudnia");
    }
    if m == 1 {
        let r = "stycznia";
        assert(r@ =~= month_name(m as int));
        r
    } else if m == 2 {
        let r = "lutego";
        assert(r@ =~= month_name(m as int));
        r
    } else if m == 3 {
        let r = "marca";
        assert(r@ =~= month_name(m as int));
        r
    } else if m == 4 {
        let r = "kwietnia";
        assert(r@ =~= month_name(m as int));
        r
    } else if m == 5 {
        let r = "maja";
        assert(r@ =~= month_name(m as int));
        r
    } else if m == 6 {
        let r = "czerwca";
        assert(r@ =~= month_name(m as int));
        r
    } else if m == 7 {
        let r = "lipca";
        assert(r@ =~= month_name(m as int));
        r
    } else if m == 8 {
        let r = "sierpnia";
        assert(r@ =~= month_name(m as int));
        r
    } else if m == 9 {
        let r = "września";
        assert(r@ =~= month_name(m as int));
        r
    } else if m == 10 {
        let r = "października";
        assert(r@ =~= month_name(m as int));
        r
    } else if m == 11 {
        let r = "listopada";
        assert(r@ =~= month_name(m as int));
        r
    } else {
        let r = "grudnia";
        assert(r@ =~= month_name(m as int));
        r
    }
}

fn month_exec(s: &Vec<char>, lo: usize, hi: usize) -> (r: u32)
    requires
        lo <= hi <= s.len(),
    ensures
        r as int == month_number(s@.subrange(lo as int, hi as int)),
        r <= 12,
{
    let ghost w = s@.subrange(lo as int, hi as int);
    let mut m: u32 = 1;
    while m <= 12
        invariant
            1 <= m <= 13,
            lo <= hi <= s.len(),
            w == s@.subrange(lo as int, hi as int),
            month_number(w) == month_from(w, m as int),
        decreases 13 - m,
    {
        let name = chars_of(month_name_str(m));
        if hi - lo == name.len() && crate::text::occurs_at_exec(s, &name, lo) {
            return m;
        }
        m = m + 1;
    }
    0
}

fn days_in_month_exec(y: u32, m: u32) -> (r: u32)
    requires
        1 <= m <= 12,
    ensures
        r as int == days_in_month(y as int, m as int),
{
    if m == 2 {
        if (y % 4 == 0 && y % 100 != 0) || y % 400 == 0 {
            29
        } else {
            28
        }
    } else if m == 4 || m == 6 || m == 9 || m == 11 {
        30
    } else {
        31
    }
}

fn word_end_exec(s: &Vec<char>, i: usize) -> (r: usize)
    requires
        i <= s.len(),
    ensures
        r == word_end(s@, i as int),
        i <= r <= s.len(),
{
    let mut j: usize = i;
    while j < s.len() && ((s[j] >= 'a' && s[j] <= 'z') || (s[j] >= 'A' && s[j] <= 'Z')
        || is_digit_char(s[j]) || s[j] == '_' || (s[j] as u32) >= 128)
        invariant
            i <= j <= s.len(),
            word_end(s@, i as int) == word_end(s@, j as int),
        decreases s.len() - j,
    {
        j = j + 1;
    }
    j
}

fn time_at_exec(s: &Vec<char>, i: usize) -> (r: bool)
    requires
        i < s.len(),
    ensures
        r == time_at(s@, i as int),
{
    if !is_digit_char(s[i]) {
        return false;
    }
    let a = run_end_exec(s, i);
    a < s.len() && s.len() - a > 1 && s[a] == ':' && is_digit_char(s[a + 1])
}

fn date_at_exec(s: &Vec<char>, i: usize) -> (r: bool)
    requires
        i < s.len(),
    ensures
        r == date_at(s@, i as int),
{
    if !is_digit_char(s[i]) {
        return false;
    }
    let a = run_end_exec(s, i);
    if a >= s.len() || s[a] != ' ' {
        return false;
    }
    let b = word_end_exec(s, a + 1);
    if b <= a + 1 || s.len() - b < 5 || s[b] != ' ' {
        return false;
    }
    run_end_exec(s, b + 1) >= b + 5
}

fn date_error(kind: FieldErrorKind, text: &str) -> (e: FieldParsingError)
    ensures
        e.error_type == kind,
        e.message@ == text@,
{
    FieldParsingError { error_type: kind, message: text.to_owned() }
}

/// Parses a date text that is already in lower case: `"dzisiaj o 14:30"` is
/// `today` at 14:30, `"12 maja 2024"` is midnight on 12 May 2024. A day that
/// its month does not have (`"31 lutego 2024"`, day 0) is rejected as a
/// date-parsing error rather than carried into a date that does not exist.
pub fn parse_lowered_date(text: &str, today: &CivilDate) -> (r: Result<UtcDateTime, FieldParsingError>)
    requires
        today.wf(),
    ensures
        match r {
            Ok(d) => date_of(text@, *today) == Ok::<UtcDateTime, FieldErrorKind>(d) && d.wf(),
            Err(e) => date_of(text@, *today) == Err::<UtcDateTime, FieldErrorKind>(e.error_type)
                && e.message@ == text@,
        },
{
    let s = chars_of(text);
    let word = chars_of("dzisiaj");
    proof {
        reveal_strlit("dzisiaj");
        assert(word@ =~= today_word());
    }
    if find_from(&s, &word, 0).is_some() {
        let mut k: usize = 0;
        while k < s.len() && !time_at_exec(&s, k)
            invariant
                k <= s.len(),
                first_time_from(s@, 0) == first_time_from(s@, k as int),
            decreases s.len() - k,
        {
            k = k + 1;
        }
        if k >= s.len() {
            return Err(date_error(FieldErrorKind::TimeParsingError, text));
        }
        let a = run_end_exec(&s, k);
        let m_end = run_end_exec(&s, a + 1);
        proof {
            lemma_run_end_bounds(s@, k as int);
            lemma_run_end_bounds(s@, a + 1);
        }
        if a - k > 2 || m_end - (a + 1) > 2 {
            return Err(date_error(FieldErrorKind::TimeParsingError, text));
        }
        let h = bounded_value(&s, k, a, 23);
        let m = bounded_value(&s, a + 1, m_end, 59);
        proof {
            assert(first_time_from(s@, 0) == k);
            assert(contains(s@, today_word()));
            assert(s@ == text@);
        }
        match (h, m) {
            (Some(h), Some(m)) => Ok(
                UtcDateTime { year: today.year, month: today.month, day: today.day, hour: h, minute: m },
            ),
            _ => Err(date_error(FieldErrorKind::TimeParsingError, text)),
        }
    } else {
        let mut i: usize = 0;
        while i < s.len() && !date_at_exec(&s, i)
            invariant
                i <= s.len(),
                first_date_from(s@, 0) == first_date_from(s@, i as int),
            decreases s.len() - i,
        {
            i = i + 1;
        }
        if i >= s.len() {
            return Err(date_error(FieldErrorKind::DateParsingError, text));
        }
        let a = run_end_exec(&s, i);
        let b = word_end_exec(&s, a + 1);
        proof {
            lemma_run_end_bounds(s@, i as int);
            lemma_run_end_bounds(s@, b + 1);
            lemma_digits_value_below(s@, b + 1, b + 5);
            assert(pow10(0) == 1);
            assert(pow10(1) == 10);
            assert(pow10(2) == 100);
            assert(pow10(3) == 1000);
            assert(pow10(4) == 10000);
        }
        let month = month_exec(&s, a + 1, b);
        if month == 0 {
            return Err(date_error(FieldErrorKind::DateParsingError, text));
        }
        let year = bounded_value(&s, b + 1, b + 5, 9999);
        let day = bounded_value(&s, i, a, 31);
        match (year, day) {
            (Some(year), Some(day)) => {
                if day >= 1 && day <= days_in_month_exec(year, month) {
                    Ok(UtcDateTime { year: year as i32, month, day, hour: 0, minute: 0 })
                } else {
                    Err(date_error(FieldErrorKind::DateParsingError, text))
                }
            },
            _ => Err(date_error(FieldErrorKind::DateParsingError, text)),
        }
    }
}


/// Parses a date text, matching case-insensitively: the text is put in lower
/// case first, then read as `parse_lowered_date` reads it. Impossible days of
/// the month are rejected with a date-parsing error.
pub fn parse_date(text: &str, today: &CivilDate) -> (r: Result<UtcDateTime, FieldParsingError>)
    requires
        today.wf(),
    ensures
        match r {
            Ok(d) => date_of(lower_of(text@), *today) == Ok::<UtcDateTime, FieldErrorKind>(d)
                && d.wf(),
            Err(e) => date_of(lower_of(text@), *today) == Err::<UtcDateTime, FieldErrorKind>(
                e.error_type,
            ) && e.message@ == lower_of(text@),
        },
{
    let lowered = lowercase(text);
    parse_lowered_date(lowered.as_str(), today)
}

/// The UTC date of a clock reading: `Ok((secs, nanos))` at or after the Unix
/// epoch, `Err((secs, nanos))` that far before it.
pub fn date_at_reading(reading: Result<(u64, u32), (u64, u32)>) -> (r: Option<CivilDate>)
    ensures
        date_at_reading_spec(reading, r),
{
    let max: u64 = 0x7fff_ffff_ffff_ffff;
    match reading {
        Ok((secs, _)) => {
            if secs <= max {
                utc_date_at(secs as i64)
            } else {
                None
            }
        },
        Err((secs, nanos)) => {
            if secs <= max {
                let back = secs as i64;
                if nanos == 0 {
                    utc_date_at(-back)
                } else {
                    utc_date_at(-back - 1)
                }
            } else if secs == max + 1 && nanos == 0 {
                utc_date_at(i64::MIN)
            } else {
                None
            }
        },
    }
}

/// The current date in UTC, from the clock's reading; `None` when the clock
/// reads a moment that the calendar cannot hold.
pub fn today() -> (r: Option<CivilDate>)
    ensures
        exists|reading: Result<(u64, u32), (u64, u32)>| date_at_reading_spec(reading, r),
        r matches Some(d) ==> d.wf(),
{
    let now = system_now();
    let reading = since_epoch(&now);
    date_at_reading(reading)
}

pub open spec fn all_digits(t: Seq<char>) -> bool {
    forall|k: int| 0 <= k < t.len() ==> is_digit(#[trigger] t[k])
}

pub open spec fn all_word_chars(t: Seq<char>) -> bool {
    forall|k: int| 0 <= k < t.len() ==> is_word_char(#[trigger] t[k])
}

/// The text `<day> <word> <year>`.
pub open spec fn day_word_year(dd: Seq<char>, w: Seq<char>, yy: Seq<char>) -> Seq<char> {
    dd + seq![' '] + w + seq![' '] + yy
}

proof fn lemma_run_end_at(s: Seq<char>, i: int, e: int)
    requires
        0 <= i <= e <= s.len(),
        forall|k: int| i <= k < e ==> is_digit(#[trigger] s[k]),
        e == s.len() || !is_digit(s[e]),
    ensures
        run_end(s, i) == e,
    decreases e - i,
{
    if i < e {
        lemma_run_end_at(s, i + 1, e);
    }
}

proof fn lemma_word_end_at(s: Seq<char>, i: int, e: int)
    requires
        0 <= i <= e <= s.len(),
        forall|k: int| i <= k < e ==> is_word_char(#[trigger] s[k]),
        e == s.len() || !is_word_char(s[e]),
    ensures
        word_end(s, i) == e,
    decreases e - i,
{
    if i < e {
        lemma_word_end_at(s, i + 1, e);
    }
}

proof fn lemma_digits_value_shift(s: Seq<char>, off: int, t: Seq<char>, n: int)
    requires
        0 <= off,
        0 <= n <= t.len(),
        off + t.len() <= s.len(),
        s.subrange(off, off + t.len()) == t,
    ensures
        digits_value(s, off, off + n) == digits_value(t, 0, n),
    decreases n,
{
    if n > 0 {
        assert(s[off + n - 1] == s.subrange(off, off + t.len())[n - 1]);
        lemma_digits_value_shift(s, off, t, n - 1);
        assert(digits_value(s, off, off + n) == if is_digit(s[off + n - 1]) {
            digits_value(s, off, off + n - 1) * 10 + crate::text::digit_val(s[off + n - 1])
        } else {
            digits_value(s, off, off + n - 1)
        });
    }
}

/// How `<day> <word> <year>` is read: the day's digits, the word and the
/// year's four digits are found where they stand.
proof fn lemma_day_word_year(dd: Seq<char>, w: Seq<char>, yy: Seq<char>)
    requires
        dd.len() > 0,
        all_digits(dd),
        w.len() > 0,
        all_word_chars(w),
        yy.len() == 4,
        all_digits(yy),
    ensures
        ({
            let s = day_word_year(dd, w, yy);
            let a = dd.len() as int;
            let b = a + 1 + w.len();
            &&& first_date_from(s, 0) == 0
            &&& run_end(s, 0) == a
            &&& word_end(s, a + 1) == b
            &&& s.subrange(a + 1, b) == w
            &&& digits_value(s, 0, a) == digits_value(dd, 0, a)
            &&& digits_value(s, b + 1, b + 5) == digits_value(yy, 0, 4)
        }),
{
    let s = day_word_year(dd, w, yy);
    let a = dd.len() as int;
    let b = a + 1 + w.len();
    assert(s.len() == b + 5);
    assert forall|k: int| 0 <= k < a implies is_digit(#[trigger] s[k]) by {
        assert(s[k] == dd[k]);
    }
    assert(s[a] == ' ');
    lemma_run_end_at(s, 0, a);
    assert forall|k: int| a + 1 <= k < b implies is_word_char(#[trigger] s[k]) by {
        assert(s[k] == w[k - a - 1]);
    }
    assert(s[b] == ' ');
    lemma_word_end_at(s, a + 1, b);
    assert forall|k: int| b + 1 <= k < b + 5 implies is_digit(#[trigger] s[k]) by {
        assert(s[k] == yy[k - b - 1]);
    }
    lemma_run_end_at(s, b + 1, b + 5);
    assert(date_at(s, 0));
    assert(s.subrange(a + 1, b) =~= w);
    assert(s.subrange(0, a) =~= dd);
    lemma_digits_value_shift(s, 0, dd, a);
    assert(s.subrange(b + 1, b + 5) =~= yy);
    lemma_digits_value_shift(s, b + 1, yy, 4);
}

proof fn lemma_month_number_of_name(m: int)
    requires
        1 <= m <= 12,
    ensures
        month_number(month_name(m)) == m,
        month_name(m).len() > 0,
        all_word_chars(month_name(m)),
{
    reveal_with_fuel(month_from, 13);
    assert(month_name(m).len() > 0);
}

proof fn lemma_no_today_word(dd: Seq<char>, m: int, yy: Seq<char>)
    requires
        all_digits(dd),
        1 <= m <= 12,
        all_digits(yy),
    ensures
        !contains(day_word_year(dd, month_name(m), yy), today_word()),
{
    let s = day_word_year(dd, month_name(m), yy);
    let w = month_name(m);
    let a = dd.len() as int;
    assert forall|i: int| !occurs_at(s, today_word(), i) by {
        if occurs_at(s, today_word(), i) {
            let p = i + 3;
            assert(s.subrange(i, i + 7)[3] == 's');
            assert(s.subrange(i, i + 7)[4] == 'i');
            assert(s.subrange(i, i + 7)[5] == 'a');
            assert(s[p] == 's' && s[p + 1] == 'i' && s[p + 2] == 'a');
            if p < a {
                assert(s[p] == dd[p]);
            } else if p == a {
            } else if p <= a + w.len() {
                let q = p - a - 1;
                assert(s[p] == w[q]);
                if q + 1 < w.len() {
                    assert(s[p + 1] == w[q + 1]);
                    if q + 2 < w.len() {
                        assert(s[p + 2] == w[q + 2]);
                    } else if q + 2 == w.len() {
                        assert(s[p + 2] == ' ');
                    }
                } else {
                    assert(s[p + 1] == ' ');
                }
            } else if p == a + 1 + w.len() {
            } else {
                assert(s[p] == yy[p - a - 2 - w.len()]);
            }
        }
    }
}

/// `<day> <month name> <year>` is midnight on that day of that month of that
/// year, when that day exists.
pub proof fn lemma_absolute_date(dd: Seq<char>, m: int, yy: Seq<char>, today: CivilDate)
    requires
        dd.len() > 0,
        all_digits(dd),
        1 <= m <= 12,
        yy.len() == 4,
        all_digits(yy),
        valid_date(digits_value(yy, 0, 4), m, digits_value(dd, 0, dd.len() as int)),
    ensures
        date_of(day_word_year(dd, month_name(m), yy), today) == Ok::<UtcDateTime, FieldErrorKind>(
            UtcDateTime {
                year: digits_value(yy, 0, 4) as i32,
                month: m as u32,
                day: digits_value(dd, 0, dd.len() as int) as u32,
                hour: 0,
                minute: 0,
            },
        ),
{
    lemma_month_number_of_name(m);
    lemma_day_word_year(dd, month_name(m), yy);
    lemma_no_today_word(dd, m, yy);
}

/// `<day> <word> <year>` whose word names no month is a date-parsing error,
/// unless the text holds the word for "today", which reads it as a time.
pub proof fn lemma_unknown_month(dd: Seq<char>, w: Seq<char>, yy: Seq<char>, today: CivilDate)
    requires
        dd.len() > 0,
        all_digits(dd),
        w.len() > 0,
        all_word_chars(w),
        month_number(w) == 0,
        yy.len() == 4,
        all_digits(yy),
        !contains(day_word_year(dd, w, yy), today_word()),
    ensures
        date_of(day_word_year(dd, w, yy), today) == Err::<UtcDateTime, FieldErrorKind>(
            FieldErrorKind::DateParsingError,
        ),
{
    lemma_day_word_year(dd, w, yy);
}

proof fn lemma_no_time_token(s: Seq<char>, i: int)
    requires
        0 <= i <= s.len(),
        forall|k: int| !time_at(s, k),
    ensures
        first_time_from(s, i) == s.len(),
    decreases s.len() - i,
{
    if i < s.len() {
        lemma_no_time_token(s, i + 1);
    }
}

/// A text with the word for "today" but no `<hour>:<minute>` token is a
/// time-parsing error.
pub proof fn lemma_today_without_time(s: Seq<char>, today: CivilDate)
    requires
        contains(s, today_word()),
        forall|k: int| !time_at(s, k),
    ensures
        date_of(s, today) == Err::<UtcDateTime, FieldErrorKind>(FieldErrorKind::TimeParsingError),
{
    lemma_no_time_token(s, 0);
}

/// The text `dzisiaj o <hour>:<minute>`.
pub open spec fn today_at_text(hh: Seq<char>, mm: Seq<char>) -> Seq<char> {
    today_word() + seq![' ', 'o', ' '] + hh + seq![':'] + mm
}

proof fn lemma_today_at_reading(hh: Seq<char>, mm: Seq<char>)
    requires
        1 <= hh.len() <= 2,
        all_digits(hh),
        1 <= mm.len() <= 2,
        all_digits(mm),
    ensures
        ({
            let s = today_at_text(hh, mm);
            let a = 10 + hh.len() as int;
            &&& occurs_at(s, today_word(), 0)
            &&& first_time_from(s, 0) == 10
            &&& run_end(s, 10) == a
            &&& run_end(s, a + 1) == s.len()
            &&& s.len() - (a + 1) == mm.len()
            &&& digits_value(s, 10, a) == digits_value(hh, 0, hh.len() as int)
            &&& digits_value(s, a + 1, s.len() as int) == digits_value(mm, 0, mm.len() as int)
        }),
{
    let s = today_at_text(hh, mm);
    let p: int = 10;
    let a = p + hh.len();
    assert(s.len() == a + 1 + mm.len());
    assert(s.subrange(0, 7) =~= today_word());
    assert forall|k: int| 0 <= k < p implies !is_digit(#[trigger] s[k]) by {
        assert(s[k] == (today_word() + seq![' ', 'o', ' '])[k]);
    }
    assert forall|k: int| p <= k < a implies is_digit(#[trigger] s[k]) by {
        assert(s[k] == hh[k - p]);
    }
    assert(s[a] == ':');
    lemma_run_end_at(s, p, a);
    assert forall|k: int| a + 1 <= k < s.len() implies is_digit(#[trigger] s[k]) by {
        assert(s[k] == mm[k - a - 1]);
    }
    lemma_run_end_at(s, a + 1, s.len() as int);
    assert(time_at(s, p));
    lemma_first_time_at(s, 0, p);
    assert(s.subrange(p, a) =~= hh);
    lemma_digits_value_shift(s, p, hh, hh.len() as int);
    assert(s.subrange(a + 1, s.len() as int) =~= mm);
    lemma_digits_value_shift(s, a + 1, mm, mm.len() as int);
}

/// `dzisiaj o <hour>:<minute>`, hour and minute one or two digits each within
/// a 24-hour clock, is today's date at that hour and minute.
pub proof fn lemma_today_at(hh: Seq<char>, mm: Seq<char>, today: CivilDate)
    requires
        1 <= hh.len() <= 2,
        all_digits(hh),
        1 <= mm.len() <= 2,
        all_digits(mm),
        digits_value(hh, 0, hh.len() as int) <= 23,
        digits_value(mm, 0, mm.len() as int) <= 59,
    ensures
        date_of(today_at_text(hh, mm), today) == Ok::<UtcDateTime, FieldErrorKind>(
            UtcDateTime {
                year: today.year,
                month: today.month,
                day: today.day,
                hour: digits_value(hh, 0, hh.len() as int) as u32,
                minute: digits_value(mm, 0, mm.len() as int) as u32,
            },
        ),
{
    lemma_today_at_reading(hh, mm);
    let s = today_at_text(hh, mm);
    assert(contains(s, today_word()));
}

proof fn lemma_first_time_at(s: Seq<char>, i: int, k: int)
    requires
        0 <= i <= k < s.len(),
        time_at(s, k),
        forall|q: int| i <= q < k ==> !is_digit(#[trigger] s[q]),
    ensures
        first_time_from(s, i) == k,
    decreases k - i,
{
    if i < k {
        lemma_first_time_at(s, i + 1, k);
    }
}

/// A date text whose lower-case form is `dzisiaj o <hour>:<minute>` is read
/// by `parse_date` as today's date at that hour and minute.
pub proof fn lemma_parse_date_today(
    text: Seq<char>,
    hh: Seq<char>,
    mm: Seq<char>,
    today: CivilDate,
)
    requires
        lower_of(text) == today_at_text(hh, mm),
        1 <= hh.len() <= 2,
        all_digits(hh),
        1 <= mm.len() <= 2,
        all_digits(mm),
        digits_value(hh, 0, hh.len() as int) <= 23,
        digits_value(mm, 0, mm.len() as int) <= 59,
    ensures
        date_of(lower_of(text), today) == Ok::<UtcDateTime, FieldErrorKind>(
            UtcDateTime {
                year: today.year,
                month: today.month,
                day: today.day,
                hour: digits_value(hh, 0, hh.len() as int) as u32,
                minute: digits_value(mm, 0, mm.len() as int) as u32,
            },
        ),
{
    lemma_today_at(hh, mm, today);
}

} // verus!
