//! Naive calendar dates in the proleptic Gregorian calendar, as plain values.
//!
//! Calendar arithmetic (construction, weekday, day shifts) is performed by
//! `chrono`; the specifications here describe the calendar those calls follow.

use crate::text::{all_digits, digits_value};
use chrono::{Datelike, Duration, NaiveDate};
use vstd::prelude::*;

verus! {

/// Earliest year that `chrono::NaiveDate` represents.
pub const MIN_YEAR: i32 = -262143;

/// Latest year that `chrono::NaiveDate` represents.
pub const MAX_YEAR: i32 = 262142;

/// Largest number of days that a single shift may move a date by.
pub const MAX_SHIFT_DAYS: i64 = 100000000000;

/// A calendar day, written as year, month (1-12) and day of month.
#[derive(Clone, Copy, Debug, PartialEq, Eq, Structural)]
pub struct Date {
    pub year: i32,
    pub month: u32,
    pub day: u32,
}

pub open spec fn is_leap_year(y: int) -> bool {
    y % 4 == 0 && (y % 100 != 0 || y % 400 == 0)
}

pub open spec fn days_in_year(y: int) -> int {
    if is_leap_year(y) {
        366
    } else {
        365
    }
}

pub open spec fn days_in_month(y: int, m: int) -> int {
    if m == 2 {
        if is_leap_year(y) {
            29
        } else {
            28
        }
    } else if m == 4 || m == 6 || m == 9 || m == 11 {
        30
    } else {
        31
    }
}

/// Days of year `y` that come before the first of month `m`.
pub open spec fn days_before_month(y: int, m: int) -> int {
    let leap_day: int = if m > 2 && is_leap_year(y) {
        1
    } else {
        0
    };
    leap_day + if m <= 1 {
        0int
    } else if m == 2 {
        31
    } else if m == 3 {
        59
    } else if m == 4 {
        90
    } else if m == 5 {
        120
    } else if m == 6 {
        151
    } else if m == 7 {
        181
    } else if m == 8 {
        212
    } else if m == 9 {
        243
    } else if m == 10 {
        273
    } else if m == 11 {
        304
    } else {
        334
    }
}

/// Days from 0001-01-01 (exclusive of it) back to the start of year `y`.
pub open spec fn days_before_year(y: int) -> int {
    let p = y - 1;
    365 * p + p / 4 - p / 100 + p / 400
}

/// Consecutive numbering of days, with 0001-01-01 as day 1.
pub open spec fn day_number(y: int, m: int, d: int) -> int {
    days_before_year(y) + days_before_month(y, m) + d
}

pub open spec fn is_valid_ymd(y: int, m: int, d: int) -> bool {
    &&& MIN_YEAR <= y <= MAX_YEAR
    &&& 1 <= m <= 12
    &&& 1 <= d <= days_in_month(y, m)
}

/// The day numbers that some representable date carries.
pub open spec fn in_date_range(n: int) -> bool {
    day_number(MIN_YEAR as int, 1, 1) <= n <= day_number(MAX_YEAR as int, 12, 31)
}

impl Date {
    pub open spec fn valid(self) -> bool {
        is_valid_ymd(self.year as int, self.month as int, self.day as int)
    }

    pub open spec fn day_number(self) -> int {
        day_number(self.year as int, self.month as int, self.day as int)
    }

    /// Days since the last Monday: 0 on a Monday, 6 on a Sunday.
    pub open spec fn weekday_index(self) -> int {
        (self.day_number() - 1) % 7
    }

    /// The date with these parts, if that day exists in a representable year.
    pub fn new(year: i32, month: u32, day: u32) -> (r: Option<Date>)
        ensures
            r == (if is_valid_ymd(year as int, month as int, day as int) {
                Some(Date { year, month, day })
            } else {
                None
            }),
    {
        checked_date(year, month, day)
    }
}

/// Relies on `chrono::NaiveDate::from_ymd_opt`: `Some` exactly when the day
/// exists in the proleptic Gregorian calendar within NaiveDate's years.
#[verifier::external_body]
pub(crate) fn checked_date(year: i32, month: u32, day: u32) -> (r: Option<Date>)
    ensures
        r == (if is_valid_ymd(year as int, month as int, day as int) {
            Some(Date { year, month, day })
        } else {
            None
        }),
{
    match NaiveDate::from_ymd_opt(year, month, day) {
        Some(_) => Some(Date { year, month, day }),
        None => None,
    }
}

/// Relies on `chrono::Datelike::weekday` and `Weekday::num_days_from_monday`:
/// Monday gives 0 and Sunday 6, and 0001-01-01 (day 1) was a Monday.
#[verifier::external_body]
pub(crate) fn days_from_monday(d: Date) -> (r: u32)
    requires
        d.valid(),
    ensures
        r as int == d.weekday_index(),
{
    NaiveDate::from_ymd_opt(d.year, d.month, d.day).unwrap().weekday().num_days_from_monday()
}

/// Relies on `chrono::NaiveDate::checked_add_signed` with `Duration::days`:
/// the date `n` days later, or `None` when it falls outside NaiveDate's years.
#[verifier::external_body]
pub(crate) fn shifted(d: Date, n: i64) -> (r: Option<Date>)
    requires
        d.valid(),
        -MAX_SHIFT_DAYS <= n <= MAX_SHIFT_DAYS,
    ensures
        match r {
            Some(x) => x.valid() && x.day_number() == d.day_number() + n,
            None => !in_date_range(d.day_number() + n),
        },
{
    let start = NaiveDate::from_ymd_opt(d.year, d.month, d.day).unwrap();
    match start.checked_add_signed(Duration::days(n)) {
        Some(x) => Some(Date { year: x.year(), month: x.month(), day: x.day() }),
        None => None,
    }
}

/// The valid date that carries day number `n` (there is at most one, see
/// `lemma_day_number_injective`).
pub open spec fn date_numbered(n: int) -> Date {
    choose|d: Date| d.valid() && d.day_number() == n
}

/// A valid date is the one that its own day number names.
pub proof fn lemma_date_numbered(x: Date)
    requires
        x.valid(),
    ensures
        date_numbered(x.day_number()) == x,
{
    let c = date_numbered(x.day_number());
    assert(c.valid() && c.day_number() == x.day_number());
    lemma_day_number_injective(c, x);
}

/// Text of the form YYYY-MM-DD (four, two and two decimal digits) that names
/// an existing day.
pub open spec fn is_iso_text(s: Seq<char>) -> bool {
    &&& s.len() == 10
    &&& all_digits(s.subrange(0, 4))
    &&& s[4] == '-'
    &&& all_digits(s.subrange(5, 7))
    &&& s[7] == '-'
    &&& all_digits(s.subrange(8, 10))
    &&& is_valid_ymd(
        digits_value(s.subrange(0, 4)),
        digits_value(s.subrange(5, 7)),
        digits_value(s.subrange(8, 10)),
    )
}

/// The day that a YYYY-MM-DD text names.
pub open spec fn iso_text_date(s: Seq<char>) -> Date {
    Date {
        year: digits_value(s.subrange(0, 4)) as i32,
        month: digits_value(s.subrange(5, 7)) as u32,
        day: digits_value(s.subrange(8, 10)) as u32,
    }
}

/// Year, month and day that `chrono::NaiveDate::parse_from_str(s, "%Y-%m-%d")`
/// reads from `s`, or `None` where it fails.
pub uninterp spec fn chrono_date_parts(s: Seq<char>) -> Option<(i32, u32, u32)>;

pub open spec fn date_of_parts(p: Option<(i32, u32, u32)>) -> Option<Date> {
    match p {
        Some(t) => Some(Date { year: t.0, month: t.1, day: t.2 }),
        None => None,
    }
}

/// The day that a date text denotes: exact for YYYY-MM-DD text, and whatever
/// chrono's "%Y-%m-%d" reading gives for other text.
pub open spec fn date_text_value(s: Seq<char>) -> Option<Date> {
    if is_iso_text(s) {
        Some(iso_text_date(s))
    } else if s.len() == 0 {
        None
    } else {
        date_of_parts(chrono_date_parts(s))
    }
}

/// Relies on `chrono::NaiveDate::parse_from_str` with the format "%Y-%m-%d":
/// YYYY-MM-DD text of an existing day reads as that day, empty text is
/// rejected, and every date it returns exists.
#[verifier::external_body]
pub(crate) fn date_text(s: &Vec<char>) -> (r: Option<Date>)
    ensures
        is_iso_text(s@) ==> r == Some(iso_text_date(s@)),
        s@.len() == 0 ==> r is None,
        !is_iso_text(s@) && s@.len() > 0 ==> r == date_of_parts(chrono_date_parts(s@)),
        r matches Some(d) ==> d.valid(),
{
    let text: String = s.iter().collect();
    match NaiveDate::parse_from_str(&text, "%Y-%m-%d") {
        Ok(x) => Some(Date { year: x.year(), month: x.month(), day: x.day() }),
        Err(_) => None,
    }
}

proof fn lemma_year_step(y: int)
    ensures
        days_before_year(y + 1) == days_before_year(y) + days_in_year(y),
{
}

proof fn lemma_years_ordered(a: int, b: int)
    requires
        a < b,
    ensures
        days_before_year(a) + days_in_year(a) <= days_before_year(b),
    decreases b - a,
{
    lemma_year_step(a);
    if a + 1 < b {
        lemma_years_ordered(a + 1, b);
    }
}

proof fn lemma_within_year(d: Date)
    requires
        d.valid(),
    ensures
        days_before_year(d.year as int) < d.day_number(),
        d.day_number() <= days_before_year(d.year as int) + days_in_year(d.year as int),
{
}

proof fn lemma_months_ordered(y: int, a: int, b: int)
    requires
        1 <= a < b <= 12,
    ensures
        days_before_month(y, a) + days_in_month(y, a) <= days_before_month(y, b),
{
}

/// Two valid dates with the same day number are the same date.
pub proof fn lemma_day_number_injective(a: Date, b: Date)
    requires
        a.valid(),
        b.valid(),
        a.day_number() == b.day_number(),
    ensures
        a == b,
{
    lemma_within_year(a);
    lemma_within_year(b);
    if a.year < b.year {
        lemma_years_ordered(a.year as int, b.year as int);
    } else if b.year < a.year {
        lemma_years_ordered(b.year as int, a.year as int);
    } else {
        if a.month < b.month {
            lemma_months_ordered(a.year as int, a.month as int, b.month as int);
        } else if b.month < a.month {
            lemma_months_ordered(a.year as int, b.month as int, a.month as int);
        }
    }
}

/// Every valid date carries a day number in the representable range.
pub proof fn lemma_valid_in_range(d: Date)
    requires
        d.valid(),
    ensures
        in_date_range(d.day_number()),
{
    lemma_within_year(d);
    if MIN_YEAR < d.year {
        lemma_years_ordered(MIN_YEAR as int, d.year as int);
    }
    if d.year < MAX_YEAR {
        lemma_years_ordered(d.year as int, MAX_YEAR as int);
    }
}

} // verus!
