//! Range expressions: parsing `<time-point> [".." <time-point>]` and resolving
//! each time point, relative to a given day, into an inclusive date bound.

use crate::date::{
    checked_date, date_numbered, date_text, date_text_value, days_from_monday, days_in_month,
    in_date_range, is_iso_text, iso_text_date, lemma_date_numbered, lemma_day_number_injective,
    lemma_valid_in_range, shifted, Date, MAX_YEAR, MIN_YEAR,
};
use crate::error::Error;
use crate::text::{all_digits, chars_of, digits_at_most, digits_value, sub_chars};
use vstd::arithmetic::div_mod::{
    lemma_fundamental_div_mod, lemma_fundamental_div_mod_converse, lemma_mod_bound,
    lemma_mod_multiples_basic,
};
use vstd::prelude::*;

verus! {

/// A point in time as written by the user, not yet tied to a day.
#[derive(Clone, Copy, Debug, PartialEq, Eq, Structural)]
pub enum TimePoint {
    /// One absolute day.
    Date(Date),
    /// The Monday-to-Sunday week holding "today", shifted by whole weeks.
    Week(i32),
    /// The calendar month holding "today", shifted by whole months.
    Month(i32),
}

/// The two time points of a range expression.
#[derive(Clone, Copy, Debug, PartialEq, Eq, Structural)]
pub struct TimePointRange {
    pub from: TimePoint,
    pub to: TimePoint,
}

/// A resolved range of days; both bounds are inclusive.
#[derive(Clone, Copy, Debug, PartialEq, Eq, Structural)]
pub struct TimeRange {
    pub from: Date,
    pub to: Date,
}

/// The offset that follows "week" or "month": empty, or a sign and digits.
pub open spec fn offset_value(s: Seq<char>) -> Option<i32> {
    if s.len() == 0 {
        Some(0)
    } else if s.len() >= 2 && (s[0] == '+' || s[0] == '-') && all_digits(s.drop_first())
        && digits_value(s.drop_first()) <= i32::MAX {
        if s[0] == '+' {
            Some(digits_value(s.drop_first()) as i32)
        } else {
            Some((-digits_value(s.drop_first())) as i32)
        }
    } else {
        None
    }
}

pub open spec fn month_word() -> Seq<char> {
    seq!['m', 'o', 'n', 't', 'h']
}

pub open spec fn week_word() -> Seq<char> {
    seq!['w', 'e', 'e', 'k']
}

pub open spec fn starts_with(s: Seq<char>, p: Seq<char>) -> bool {
    p.len() <= s.len() && s.take(p.len() as int) == p
}

/// The time point that a text denotes: "month" or "week" with an offset
/// suffix, or else a date text.
pub open spec fn time_point_of(s: Seq<char>) -> Option<TimePoint> {
    if starts_with(s, month_word()) {
        match offset_value(s.skip(5)) {
            Some(o) => Some(TimePoint::Month(o)),
            None => None,
        }
    } else if starts_with(s, week_word()) {
        match offset_value(s.skip(4)) {
            Some(o) => Some(TimePoint::Week(o)),
            None => None,
        }
    } else {
        match date_text_value(s) {
            Some(d) => Some(TimePoint::Date(d)),
            None => None,
        }
    }
}

/// `s[i]` and `s[i + 1]` form the separator "..".
pub open spec fn is_separator_at(s: Seq<char>, i: int) -> bool {
    0 <= i && i + 1 < s.len() && s[i] == '.' && s[i + 1] == '.'
}

pub open spec fn is_first_separator(s: Seq<char>, i: int) -> bool {
    is_separator_at(s, i) && forall|j: int| 0 <= j < i ==> !is_separator_at(s, j)
}

/// The pair of time points that a range expression denotes: split at the
/// first "..", or one time point used for both ends.
pub open spec fn range_of(s: Seq<char>) -> Option<TimePointRange> {
    if exists|i: int| is_first_separator(s, i) {
        let i = choose|i: int| is_first_separator(s, i);
        match (time_point_of(s.take(i)), time_point_of(s.skip(i + 2))) {
            (Some(a), Some(b)) => Some(TimePointRange { from: a, to: b }),
            _ => None,
        }
    } else {
        match time_point_of(s) {
            Some(p) => Some(TimePointRange { from: p, to: p }),
            None => None,
        }
    }
}

/// Division rounded toward zero.
pub open spec fn trunc_div(a: int, b: int) -> int {
    if a >= 0 {
        a / b
    } else {
        -((-a) / b)
    }
}

/// Remainder of the division rounded toward zero; it takes the sign of `a`.
pub open spec fn trunc_rem(a: int, b: int) -> int {
    a - b * trunc_div(a, b)
}

/// Year and month that a month offset leads to: the offset's whole years
/// (rounded toward zero) move the year, its remainder moves the month, with
/// no carry into the year; `None` where that is no month of a representable year.
pub open spec fn month_target(today: Date, offset: int) -> Option<(i32, u32)> {
    let y = today.year + trunc_div(offset, 12);
    let m = today.month + trunc_rem(offset, 12);
    if MIN_YEAR <= y <= MAX_YEAR && 1 <= m <= 12 {
        Some((y as i32, m as u32))
    } else {
        None
    }
}

/// Day number of the Monday of the week `w` weeks away from `today`'s week.
pub open spec fn week_start_number(today: Date, w: int) -> int {
    today.day_number() - today.weekday_index() + 7 * w
}

/// First day of the period that `p` denotes, seen from `today`.
pub open spec fn lower_bound(p: TimePoint, today: Date) -> Result<Date, Error> {
    match p {
        TimePoint::Date(d) => Ok(d),
        TimePoint::Week(w) => {
            let n = week_start_number(today, w as int);
            if in_date_range(n) {
                Ok(date_numbered(n))
            } else {
                Err(Error::InvalidWeekOffset(w))
            }
        },
        TimePoint::Month(m) => match month_target(today, m as int) {
            Some(t) => Ok(Date { year: t.0, month: t.1, day: 1 }),
            None => Err(Error::InvalidMonthOffset(m)),
        },
    }
}

/// Last day of the period that `p` denotes, seen from `today`.
pub open spec fn upper_bound(p: TimePoint, today: Date) -> Result<Date, Error> {
    match p {
        TimePoint::Date(d) => Ok(d),
        TimePoint::Week(w) => {
            let n = week_start_number(today, w as int) + 6;
            if in_date_range(n) {
                Ok(date_numbered(n))
            } else {
                Err(Error::InvalidWeekOffset(w))
            }
        },
        TimePoint::Month(m) => match month_target(today, m as int) {
            Some(t) => Ok(
                Date { year: t.0, month: t.1, day: days_in_month(t.0 as int, t.1 as int) as u32 },
            ),
            None => Err(Error::InvalidMonthOffset(m)),
        },
    }
}

/// The dates that a pair of time points resolves to: the lower bound of
/// `from` and the upper bound of `to`, or the first failure.
pub open spec fn resolve(r: TimePointRange, today: Date) -> Result<TimeRange, Error> {
    match lower_bound(r.from, today) {
        Err(e) => Err(e),
        Ok(a) => match upper_bound(r.to, today) {
            Err(e) => Err(e),
            Ok(b) => Ok(TimeRange { from: a, to: b }),
        },
    }
}

fn offset_in(s: &Vec<char>, start: usize) -> (r: Option<i32>)
    requires
        start <= s.len(),
    ensures
        r == offset_value(s@.subrange(start as int, s.len() as int)),
{
    let ghost t = s@.subrange(start as int, s.len() as int);
    let n = s.len();
    if start == n {
        return Some(0);
    }
    let sign = s[start];
    assert(t[0] == sign);
    if (sign == '+' || sign == '-') && start + 1 < n {
        assert(t.drop_first() =~= s@.subrange(start + 1, s.len() as int));
        match digits_at_most(s, start + 1, i32::MAX as u64) {
            Some(v) => {
                if sign == '+' {
                    Some(v as i32)
                } else {
                    Some(-(v as i32))
                }
            },
            None => None,
        }
    } else {
        None
    }
}

/// Reads the offset that follows "week" or "month": `Some(0)` for empty text,
/// `Some(n)` for "+" and digits, `Some(-n)` for "-" and digits; `None` otherwise.
pub fn parse_week_month_offset(input: &str) -> (r: Option<i32>)
    ensures
        r == offset_value(input@),
{
    let s = chars_of(input);
    assert(s@.subrange(0, s@.len() as int) =~= input@);
    offset_in(&s, 0)
}

fn time_point_in(s: &Vec<char>) -> (r: Option<TimePoint>)
    ensures
        r == time_point_of(s@),
{
    let n = s.len();
    let is_month = n >= 5 && s[0] == 'm' && s[1] == 'o' && s[2] == 'n' && s[3] == 't' && s[4]
        == 'h';
    let is_week = n >= 4 && s[0] == 'w' && s[1] == 'e' && s[2] == 'e' && s[3] == 'k';
    proof {
        if n >= 5 {
            assert(is_month <==> s@.take(5) =~= month_word());
        }
        if n >= 4 {
            assert(is_week <==> s@.take(4) =~= week_word());
        }
    }
    if is_month {
        assert(s@.subrange(5, n as int) =~= s@.skip(5));
        match offset_in(s, 5) {
            Some(o) => Some(TimePoint::Month(o)),
            None => None,
        }
    } else if is_week {
        assert(s@.subrange(4, n as int) =~= s@.skip(4));
        match offset_in(s, 4) {
            Some(o) => Some(TimePoint::Week(o)),
            None => None,
        }
    } else {
        match date_text(s) {
            Some(d) => Some(TimePoint::Date(d)),
            None => None,
        }
    }
}

fn first_separator(s: &Vec<char>) -> (r: Option<usize>)
    ensures
        match r {
            Some(i) => is_first_separator(s@, i as int),
            None => forall|i: int| !is_separator_at(s@, i),
        },
{
    let mut i: usize = 0;
    while i < s.len() && i + 1 < s.len()
        invariant
            i <= s.len(),
            forall|j: int| 0 <= j < i ==> !is_separator_at(s@, j),
        decreases s.len() - i,
    {
        if s[i] == '.' && s[i + 1] == '.' {
            return Some(i);
        }
        i = i + 1;
    }
    None
}

fn range_in(s: &Vec<char>) -> (r: Option<TimePointRange>)
    ensures
        r == range_of(s@),
{
    match first_separator(s) {
        Some(i) => {
            proof {
                let c = choose|k: int| is_first_separator(s@, k);
                assert(is_first_separator(s@, c));
                if c < i {
                    assert(!is_separator_at(s@, c));
                }
                if i < c {
                    assert(!is_separator_at(s@, i as int));
                }
            }
            assert(i + 2 <= s.len());
            let left = sub_chars(s, 0, i);
            let right = sub_chars(s, i + 2, s.len());
            assert(left@ =~= s@.take(i as int));
            assert(right@ =~= s@.skip(i + 2));
            match (time_point_in(&left), time_point_in(&right)) {
                (Some(a), Some(b)) => Some(TimePointRange { from: a, to: b }),
                _ => None,
            }
        },
        None => {
            match time_point_in(s) {
                Some(p) => Some(TimePointRange { from: p, to: p }),
                None => None,
            }
        },
    }
}

/// Reads one time point: "month" or "week" followed by an offset suffix, or a
/// date written YYYY-MM-DD.
pub fn parse_time_point(input: &str) -> (r: Result<TimePoint, Error>)
    ensures
        match time_point_of(input@) {
            Some(p) => r == Ok::<TimePoint, Error>(p),
            None => r matches Err(Error::InvalidTimeRangeFormat(m)) && m@ == input@,
        },
{
    let s = chars_of(input);
    match time_point_in(&s) {
        Some(p) => Ok(p),
        None => Err(Error::InvalidTimeRangeFormat(input.to_owned())),
    }
}

fn month_start(today: Date, offset: i32) -> (r: Option<Date>)
    requires
        today.valid(),
    ensures
        r == (match month_target(today, offset as int) {
            Some(t) => Some(Date { year: t.0, month: t.1, day: 1 }),
            None => None,
        }),
{
    let o = offset as i64;
    let year_offset: i64 = if o >= 0 {
        o / 12
    } else {
        -((-o) / 12)
    };
    let month_offset: i64 = o - 12 * year_offset;
    let year = today.year as i64 + year_offset;
    let month = today.month as i64 + month_offset;
    if month < 1 || month > 12 {
        return None;
    }
    checked_date(year as i32, month as u32, 1)
}

impl TimePoint {
    /// First day of the period this point denotes, seen from `today`.
    pub fn to_lower_bound_with_date(&self, today: Date) -> (r: Result<Date, Error>)
        requires
            today.valid(),
        ensures
            r == lower_bound(*self, today),
    {
        match *self {
            TimePoint::Date(date) => Ok(date),
            TimePoint::Week(offset) => {
                let back = days_from_monday(today) as i64;
                match shifted(today, 7 * (offset as i64) - back) {
                    Some(start) => {
                        proof {
                            lemma_date_numbered(start);
                        }
                        Ok(start)
                    },
                    None => Err(Error::InvalidWeekOffset(offset)),
                }
            },
            TimePoint::Month(offset) => match month_start(today, offset) {
                Some(start) => Ok(start),
                None => Err(Error::InvalidMonthOffset(offset)),
            },
        }
    }

    /// Last day of the period this point denotes, seen from `today`.
    pub fn to_upper_bound_with_date(&self, today: Date) -> (r: Result<Date, Error>)
        requires
            today.valid(),
        ensures
            r == upper_bound(*self, today),
    {
        match *self {
            TimePoint::Date(date) => Ok(date),
            TimePoint::Week(offset) => {
                let forward = 6 - days_from_monday(today) as i64;
                match shifted(today, forward + 7 * (offset as i64)) {
                    Some(end) => {
                        proof {
                            lemma_date_numbered(end);
                        }
                        Ok(end)
                    },
                    None => Err(Error::InvalidWeekOffset(offset)),
                }
            },
            TimePoint::Month(offset) => match month_start(today, offset) {
                None => Err(Error::InvalidMonthOffset(offset)),
                Some(start) => {
                    let ghost last = Date {
                        year: start.year,
                        month: start.month,
                        day: days_in_month(start.year as int, start.month as int) as u32,
                    };
                    if start.month < 12 {
                        match checked_date(start.year, start.month + 1, 1) {
                            Some(next) => match shifted(next, -1) {
                                Some(end) => {
                                    proof {
                                        lemma_day_number_injective(end, last);
                                    }
                                    Ok(end)
                                },
                                None => {
                                    proof {
                                        lemma_valid_in_range(last);
                                    }
                                    Err(Error::InvalidMonthOffset(offset))
                                },
                            },
                            None => Err(Error::InvalidMonthOffset(offset)),
                        }
                    } else {
                        match checked_date(start.year, 12, 31) {
                            Some(end) => Ok(end),
                            None => Err(Error::InvalidMonthOffset(offset)),
                        }
                    }
                },
            },
        }
    }
}

impl TimePointRange {
    /// Reads a range expression `<time-point> [".." <time-point>]`; without a
    /// separator the one time point stands for both ends.
    pub fn parse(input: &str) -> (r: Result<TimePointRange, Error>)
        ensures
            match range_of(input@) {
                Some(p) => r == Ok::<TimePointRange, Error>(p),
                None => r matches Err(Error::InvalidTimeRangeFormat(m)) && m@ == input@,
            },
    {
        let s = chars_of(input);
        match range_in(&s) {
            Some(p) => Ok(p),
            None => Err(Error::InvalidTimeRangeFormat(input.to_owned())),
        }
    }
}

impl TimeRange {
    /// Reads a range expression and resolves it against `today`: the lower
    /// bound of its first time point to the upper bound of its second.
    pub fn parse(input: &str, today: Date) -> (r: Result<TimeRange, Error>)
        requires
            today.valid(),
        ensures
            match range_of(input@) {
                Some(p) => r == resolve(p, today),
                None => r matches Err(Error::InvalidTimeRangeFormat(m)) && m@ == input@,
            },
    {
        let range = match TimePointRange::parse(input) {
            Ok(range) => range,
            Err(e) => return Err(e),
        };
        let from = match range.from.to_lower_bound_with_date(today) {
            Ok(d) => d,
            Err(e) => return Err(e),
        };
        let to = match range.to.to_upper_bound_with_date(today) {
            Ok(d) => d,
            Err(e) => return Err(e),
        };
        Ok(TimeRange { from, to })
    }
}

/// A date written YYYY-MM-DD, alone, is a range from that day to that day, and
/// resolves to exactly that day at both ends, whatever day it is today.
pub proof fn lemma_iso_date_alone(s: Seq<char>, today: Date)
    requires
        is_iso_text(s),
        today.valid(),
    ensures
        range_of(s) == Some(
            TimePointRange {
                from: TimePoint::Date(iso_text_date(s)),
                to: TimePoint::Date(iso_text_date(s)),
            },
        ),
        resolve(range_of(s).unwrap(), today) == Ok::<TimeRange, Error>(
            TimeRange { from: iso_text_date(s), to: iso_text_date(s) },
        ),
{
    assert(s[0] != 'm' && s[0] != 'w') by {
        assert(s.subrange(0, 4)[0] == s[0]);
    }
    assert(s.take(5)[0] == s[0]);
    assert(s.take(4)[0] == s[0]);
    assert forall|i: int| 0 <= i < s.len() implies s[i] != '.' by {
        if i < 4 {
            assert(s.subrange(0, 4)[i] == s[i]);
        } else if 5 <= i < 7 {
            assert(s.subrange(5, 7)[i - 5] == s[i]);
        } else if 8 <= i < 10 {
            assert(s.subrange(8, 10)[i - 8] == s[i]);
        }
    }
    assert(!exists|i: int| is_first_separator(s, i));
}

/// "A..B" is the range from the time point of A to the time point of B, for
/// any A and B that each denote a time point, where A holds no ".." and does
/// not end in '.' (else the first ".." would fall elsewhere).
pub proof fn lemma_range_splits(a: Seq<char>, b: Seq<char>)
    requires
        time_point_of(a) is Some,
        time_point_of(b) is Some,
        forall|i: int| !is_separator_at(a, i),
        !(a.len() > 0 && a.last() == '.'),
    ensures
        range_of(a + seq!['.', '.'] + b) == Some(
            TimePointRange { from: time_point_of(a).unwrap(), to: time_point_of(b).unwrap() },
        ),
{
    let s = a + seq!['.', '.'] + b;
    let k = a.len() as int;
    assert(s[k] == '.' && s[k + 1] == '.');
    assert forall|j: int| 0 <= j < k implies !is_separator_at(s, j) by {
        if j + 1 < k {
            assert(!is_separator_at(a, j));
            assert(s[j] == a[j] && s[j + 1] == a[j + 1]);
        } else {
            assert(s[j] == a.last());
        }
    }
    assert(is_first_separator(s, k));
    let c = choose|i: int| is_first_separator(s, i);
    assert(is_first_separator(s, c));
    if c < k {
        assert(!is_separator_at(s, c));
    }
    if k < c {
        assert(!is_separator_at(s, k));
    }
    assert(s.take(k) =~= a);
    assert(s.skip(k + 2) =~= b);
}

/// Every day of one Monday-to-Sunday week resolves a week point to the same
/// days: a later day `later` of the same week as `today` gives the same bounds.
pub proof fn lemma_week_same_all_week(today: Date, later: Date, w: i32)
    requires
        today.valid(),
        later.valid(),
        today.day_number() <= later.day_number(),
        later.day_number() - today.day_number() <= 6 - today.weekday_index(),
    ensures
        lower_bound(TimePoint::Week(w), today) == lower_bound(TimePoint::Week(w), later),
        upper_bound(TimePoint::Week(w), today) == upper_bound(TimePoint::Week(w), later),
{
    let k = later.day_number() - today.day_number();
    let q = (today.day_number() - 1) / 7;
    lemma_fundamental_div_mod(today.day_number() - 1, 7);
    lemma_mod_bound(today.day_number() - 1, 7);
    lemma_fundamental_div_mod_converse(
        later.day_number() - 1,
        7,
        q,
        today.weekday_index() + k,
    );
}

/// The first day of every week point is a Monday: its day number has weekday
/// index 0.
pub proof fn lemma_week_starts_monday(today: Date, w: i32)
    requires
        today.valid(),
    ensures
        (week_start_number(today, w as int) - 1) % 7 == 0,
{
    let q = (today.day_number() - 1) / 7;
    lemma_fundamental_div_mod(today.day_number() - 1, 7);
    assert(week_start_number(today, w as int) - 1 == (q + w) * 7) by (nonlinear_arith)
        requires
            today.day_number() - 1 == 7 * q + today.weekday_index(),
            week_start_number(today, w as int) == today.day_number() - today.weekday_index() + 7
                * w,
    ;
    lemma_mod_multiples_basic(q + w, 7);
}

/// The current month, from any day of it, runs from its first to its last day.
pub proof fn lemma_current_month(today: Date)
    requires
        today.valid(),
    ensures
        lower_bound(TimePoint::Month(0), today) == Ok::<Date, Error>(
            Date { year: today.year, month: today.month, day: 1 },
        ),
        upper_bound(TimePoint::Month(0), today) == Ok::<Date, Error>(
            Date {
                year: today.year,
                month: today.month,
                day: days_in_month(today.year as int, today.month as int) as u32,
            },
        ),
{
}

/// A month point depends on today's year and month only, not on its day.
pub proof fn lemma_month_ignores_day(today: Date, other: Date, m: i32)
    requires
        today.valid(),
        other.valid(),
        today.year == other.year,
        today.month == other.month,
    ensures
        lower_bound(TimePoint::Month(m), today) == lower_bound(TimePoint::Month(m), other),
        upper_bound(TimePoint::Month(m), today) == upper_bound(TimePoint::Month(m), other),
{
}

/// Whole years of a month offset move the year (rounded toward zero, so that
/// -13 is one year and one month back), and a month point that lands in
/// December ends on December 31.
pub proof fn lemma_month_years_and_december(today: Date, m: i32)
    requires
        today.valid(),
        month_target(today, m as int) is Some,
    ensures
        lower_bound(TimePoint::Month(m), today) == Ok::<Date, Error>(
            Date {
                year: (today.year + trunc_div(m as int, 12)) as i32,
                month: (today.month + trunc_rem(m as int, 12)) as u32,
                day: 1,
            },
        ),
        today.month + trunc_rem(m as int, 12) == 12 ==> upper_bound(TimePoint::Month(m), today)
            == Ok::<Date, Error>(
            Date { year: (today.year + trunc_div(m as int, 12)) as i32, month: 12, day: 31 },
        ),
{
}

} // verus!
