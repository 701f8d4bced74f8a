//! Proleptic Gregorian dates counted in days from the Common Era.

use vstd::prelude::*;
use crate::weekday::{Weekday, spec_num_days_from_monday};

verus! {

/// Smallest year that a `NaiveDate` holds.
pub const MIN_YEAR: i32 = -262143;

/// Largest year that a `NaiveDate` holds.
pub const MAX_YEAR: i32 = 262142;

pub open spec fn is_leap_year(year: int) -> bool {
    year % 4 == 0 && (year % 100 != 0 || year % 400 == 0)
}

pub open spec fn days_in_year(year: int) -> int {
    if is_leap_year(year) { 366 } else { 365 }
}

/// Number of days from 0000-01-01 to January 1 of `year`.
pub open spec fn days_before_year(year: int) -> int {
    365 * year + (year + 3) / 4 - (year + 99) / 100 + (year + 399) / 400
}

/// Day number of the `ordinal`-th day of `year`, where 0001-01-01 is day 1.
pub open spec fn days_from_ce(year: int, ordinal: int) -> int {
    days_before_year(year) - 366 + ordinal
}

pub open spec fn is_valid_date(year: int, ordinal: int) -> bool {
    MIN_YEAR <= year <= MAX_YEAR && 1 <= ordinal <= days_in_year(year)
}

pub open spec fn min_days_from_ce() -> int {
    days_from_ce(MIN_YEAR as int, 1)
}

pub open spec fn max_days_from_ce() -> int {
    days_from_ce(MAX_YEAR as int, days_in_year(MAX_YEAR as int))
}

#[verifier::spinoff_prover]
pub proof fn lemma_next_year(year: int)
    ensures
        days_before_year(year + 1) == days_before_year(year) + days_in_year(year),
{
    assert((year + 4) / 4 == (year + 3) / 4 + (if year % 4 == 0 { 1int } else { 0int }));
    assert((year + 100) / 100 == (year + 99) / 100 + (if year % 100 == 0 { 1int } else { 0int }));
    assert((year + 400) / 400 == (year + 399) / 400 + (if year % 400 == 0 { 1int } else { 0int }));
}

pub proof fn lemma_cycle(year: int)
    ensures
        days_before_year(year + 400) == days_before_year(year) + 146097,
{
    assert((year + 400 + 3) / 4 == (year + 3) / 4 + 100);
    assert((year + 400 + 99) / 100 == (year + 99) / 100 + 4);
    assert((year + 400 + 399) / 400 == (year + 399) / 400 + 1);
}

/// Moving by `k` whole 400-year cycles moves the day count by `146097 * k`.
pub proof fn lemma_cycles(year: int, k: int)
    ensures
        days_before_year(year + 400 * k) == days_before_year(year) + 146097 * k,
    decreases (if k < 0 { -k } else { k }),
{
    if k > 0 {
        lemma_cycles(year, k - 1);
        lemma_cycle(year + 400 * (k - 1));
    } else if k < 0 {
        lemma_cycles(year, k + 1);
        lemma_cycle(year + 400 * k);
    }
}

/// January 1 of a later year comes no earlier than the end of an earlier year.
pub proof fn lemma_year_order(y1: int, y2: int)
    requires
        y1 < y2,
    ensures
        days_before_year(y1) + days_in_year(y1) <= days_before_year(y2),
    decreases y2 - y1,
{
    lemma_next_year(y1);
    if y1 + 1 < y2 {
        lemma_year_order(y1 + 1, y2);
    }
}

/// Inside one 400-year cycle the first day of a year stays within 97 days of `365 * year`.
proof fn lemma_cycle_bounds(year: int)
    requires
        0 <= year <= 400,
    ensures
        365 * year <= days_before_year(year) <= 365 * year + 97,
{
}

pub open spec fn days_in_month(year: int, month: int) -> int {
    if month == 2 {
        if is_leap_year(year) { 29 } else { 28 }
    } else if month == 4 || month == 6 || month == 9 || month == 11 {
        30
    } else {
        31
    }
}

/// Number of days of `year` before the first of `month` (1 to 12).
pub open spec fn days_before_month(year: int, month: int) -> int {
    let common: int = if month <= 1 {
        0
    } else if month == 2 {
        31
    } else if month == 3 {
        59
    } else if month == 4 {
        90
    } else if month == 5 {
        120
    } else if month == 6 {
        151
    } else if month == 7 {
        181
    } else if month == 8 {
        212
    } else if month == 9 {
        243
    } else if month == 10 {
        273
    } else if month == 11 {
        304
    } else {
        334
    };
    if month > 2 && is_leap_year(year) { common + 1 } else { common }
}

/// The ordinal day of `year` is day `day` of `month`.
pub open spec fn is_month_day(year: int, ordinal: int, month: int, day: int) -> bool {
    &&& 1 <= month <= 12
    &&& 1 <= day <= days_in_month(year, month)
    &&& ordinal == days_before_month(year, month) + day
}

/// Each day of a year falls on exactly one month and day of that month.
pub proof fn law_month_day_unique(year: int, ordinal: int, m1: int, d1: int, m2: int, d2: int)
    requires
        is_month_day(year, ordinal, m1, d1),
        is_month_day(year, ordinal, m2, d2),
    ensures
        m1 == m2,
        d1 == d2,
{
}

/// The weekday of day number `days`, counted from Monday as 0; 0001-01-01 was a Monday.
pub open spec fn weekday_of_day(days: int) -> int {
    (days - 1) % 7
}

/// Every valid date has a day count between the first and the last representable day.
pub proof fn law_valid_date_in_range(year: int, ordinal: int)
    requires
        is_valid_date(year, ordinal),
    ensures
        min_days_from_ce() <= days_from_ce(year, ordinal) <= max_days_from_ce(),
{
    if MIN_YEAR < year {
        lemma_year_order(MIN_YEAR as int, year);
    }
    if year < MAX_YEAR {
        lemma_year_order(year, MAX_YEAR as int);
    }
}

/// Two valid dates with the same day count are the same date.
pub proof fn law_days_from_ce_injective(y1: int, o1: int, y2: int, o2: int)
    requires
        is_valid_date(y1, o1),
        is_valid_date(y2, o2),
        days_from_ce(y1, o1) == days_from_ce(y2, o2),
    ensures
        y1 == y2,
        o1 == o2,
{
    if y1 < y2 {
        lemma_year_order(y1, y2);
    } else if y2 < y1 {
        lemma_year_order(y2, y1);
    }
}

/// The number of days of month `m` (1 to 12) of `year`, read off the Gregorian table
/// 31, 28, 31, 30, 31, 30, 31, 31, 30, 31, 30, 31, February having 29 days in a year
/// divisible by 4 but not by 100, or divisible by 400.
pub open spec fn gregorian_month_length(year: int, m: int) -> int {
    let common = seq![31int, 28, 31, 30, 31, 30, 31, 31, 30, 31, 30, 31];
    let leap_day = if m == 2 && year % 4 == 0 && (year % 100 != 0 || year % 400 == 0) {
        1int
    } else {
        0int
    };
    common[m - 1] + leap_day
}

/// The months have the lengths of the Gregorian table, and they follow one another:
/// January starts the year, each month starts the day after the month before it ends, and
/// December ends the year.
pub proof fn law_month_lengths(year: int, m: int)
    requires
        1 <= m <= 12,
    ensures
        days_in_month(year, m) == gregorian_month_length(year, m),
        days_before_month(year, 1) == 0,
        m < 12 ==> days_before_month(year, m + 1) == days_before_month(year, m) + days_in_month(year, m),
        days_before_month(year, 12) + days_in_month(year, 12) == days_in_year(year),
{
}

/// The weekday that follows `w`, Sunday being followed by Monday.
pub open spec fn next_weekday(w: Weekday) -> Weekday {
    match w {
        Weekday::Mon => Weekday::Tue,
        Weekday::Tue => Weekday::Wed,
        Weekday::Wed => Weekday::Thu,
        Weekday::Thu => Weekday::Fri,
        Weekday::Fri => Weekday::Sat,
        Weekday::Sat => Weekday::Sun,
        Weekday::Sun => Weekday::Mon,
    }
}

/// Day 1 (0001-01-01) falls on a Monday, and each day falls on the weekday after the
/// weekday of the day before.
pub proof fn law_weekdays_follow_days(n: int, today: Weekday, tomorrow: Weekday)
    requires
        spec_num_days_from_monday(today) == weekday_of_day(n),
        spec_num_days_from_monday(tomorrow) == weekday_of_day(n + 1),
    ensures
        tomorrow == next_weekday(today),
        n == 1 ==> today == Weekday::Mon,
{
}

/// `days_before_year` on a non-negative year.
fn days_before_year_exec(year: u64) -> (days: u64)
    requires
        year <= 1_000_000,
    ensures
        days == days_before_year(year as int),
{
    365 * year + (year + 3) / 4 - (year + 99) / 100 + (year + 399) / 400
}

/// A day of the proleptic Gregorian calendar, held as a year and a day of that year.
#[derive(Clone, Copy, Debug, PartialEq, Eq, Structural)]
pub struct NaiveDate {
    year: i32,
    ordinal: u32,
}

impl View for NaiveDate {
    /// The year and the day of the year (1-based).
    type V = (int, int);

    closed spec fn view(&self) -> (int, int) {
        (self.year as int, self.ordinal as int)
    }
}

impl NaiveDate {
    #[verifier::type_invariant]
    spec fn inv(self) -> bool {
        is_valid_date(self.year as int, self.ordinal as int)
    }

    /// The year of the date.
    pub fn year(&self) -> (year: i32)
        ensures
            year == self@.0,
            is_valid_date(self@.0, self@.1),
    {
        proof {
            use_type_invariant(self);
        }
        self.year
    }

    /// The day of the year, starting at 1.
    pub fn ordinal(&self) -> (ordinal: u32)
        ensures
            ordinal == self@.1,
            is_valid_date(self@.0, self@.1),
    {
        proof {
            use_type_invariant(self);
        }
        self.ordinal
    }

    /// The month (1 to 12) and the day of the month (from 1) of this date.
    pub fn month_day(&self) -> (md: (u32, u32))
        ensures
            is_month_day(self@.0, self@.1, md.0 as int, md.1 as int),
    {
        proof {
            use_type_invariant(self);
        }
        let leap: u32 = if self.year % 4 == 0 && (self.year % 100 != 0 || self.year % 400 == 0) {
            1
        } else {
            0
        };
        let o = self.ordinal;
        if o <= 31 {
            (1, o)
        } else if o <= 59 + leap {
            (2, o - 31)
        } else if o <= 90 + leap {
            (3, o - 59 - leap)
        } else if o <= 120 + leap {
            (4, o - 90 - leap)
        } else if o <= 151 + leap {
            (5, o - 120 - leap)
        } else if o <= 181 + leap {
            (6, o - 151 - leap)
        } else if o <= 212 + leap {
            (7, o - 181 - leap)
        } else if o <= 243 + leap {
            (8, o - 212 - leap)
        } else if o <= 273 + leap {
            (9, o - 243 - leap)
        } else if o <= 304 + leap {
            (10, o - 273 - leap)
        } else if o <= 334 + leap {
            (11, o - 304 - leap)
        } else {
            (12, o - 334 - leap)
        }
    }

    /// The date with the given year, month and day, or `None` when the year lies outside
    /// `MIN_YEAR..=MAX_YEAR` or the month or day does not exist.
    pub fn from_ymd_opt(year: i32, month: u32, day: u32) -> (r: Option<NaiveDate>)
        ensures
            r is Some <==> (MIN_YEAR <= year <= MAX_YEAR && 1 <= month <= 12 && 1 <= day
                <= days_in_month(year as int, month as int)),
            r matches Some(d) ==> d@.0 == year && is_month_day(d@.0, d@.1, month as int, day as int),
    {
        if year < MIN_YEAR || year > MAX_YEAR || month < 1 || month > 12 || day < 1 {
            return None;
        }
        let leap: bool = year % 4 == 0 && (year % 100 != 0 || year % 400 == 0);
        let month_len: u32 = if month == 2 {
            if leap { 29 } else { 28 }
        } else if month == 4 || month == 6 || month == 9 || month == 11 {
            30
        } else {
            31
        };
        if day > month_len {
            return None;
        }
        let common: u32 = if month == 1 {
            0
        } else if month == 2 {
            31
        } else if month == 3 {
            59
        } else if month == 4 {
            90
        } else if month == 5 {
            120
        } else if month == 6 {
            151
        } else if month == 7 {
            181
        } else if month == 8 {
            212
        } else if month == 9 {
            243
        } else if month == 10 {
            273
        } else if month == 11 {
            304
        } else {
            334
        };
        let before: u32 = if month > 2 && leap { common + 1 } else { common };
        Some(NaiveDate { year, ordinal: before + day })
    }

    /// The date that is day `ordinal` (from 1) of `year`, or `None` when the year lies
    /// outside `MIN_YEAR..=MAX_YEAR` or the year has no such day.
    pub fn from_yo_opt(year: i32, ordinal: u32) -> (r: Option<NaiveDate>)
        ensures
            r is Some <==> is_valid_date(year as int, ordinal as int),
            r matches Some(d) ==> d@ == (year as int, ordinal as int),
    {
        if year < MIN_YEAR || year > MAX_YEAR || ordinal < 1 {
            return None;
        }
        let leap: bool = year % 4 == 0 && (year % 100 != 0 || year % 400 == 0);
        let len: u32 = if leap { 366 } else { 365 };
        if ordinal > len {
            return None;
        }
        Some(NaiveDate { year, ordinal })
    }

    /// The date that is day `days` counted from 0001-01-01 as day 1, or `None` when that
    /// day lies outside the years `MIN_YEAR..=MAX_YEAR`.
    pub fn from_num_days_from_ce_opt(days: i32) -> (r: Option<NaiveDate>)
        ensures
            r is Some <==> min_days_from_ce() <= days <= max_days_from_ce(),
            r matches Some(d) ==> is_valid_date(d@.0, d@.1) && days_from_ce(d@.0, d@.1) == days,
    {
        // With 365 added, day 0 is 0000-01-01.
        let day0 = match days.checked_add(365) {
            Some(v) => v,
            None => {
                assert(max_days_from_ce() == 95745399);
                return None;
            },
        };
        // Move by whole 400-year cycles so that the division works on a non-negative number.
        let shifted: u64 = (day0 as i64 + 14700 * 146097) as u64;
        let cycles: u64 = shifted / 146097;
        let rem: u64 = shifted % 146097;
        let mut year_in_cycle: u64 = rem / 365;
        let mut start: u64 = days_before_year_exec(year_in_cycle);
        proof {
            if year_in_cycle < 400 {
                lemma_cycle_bounds(year_in_cycle as int + 1);
                lemma_next_year(year_in_cycle as int);
            }
        }
        if start > rem {
            proof {
                lemma_cycle_bounds(year_in_cycle as int);
                lemma_next_year(year_in_cycle as int - 1);
            }
            year_in_cycle = year_in_cycle - 1;
            start = days_before_year_exec(year_in_cycle);
        }
        let ordinal: u64 = rem - start + 1;
        let year: i64 = (cycles as i64 - 14700) * 400 + year_in_cycle as i64;
        proof {
            let k = cycles as int - 14700;
            lemma_next_year(year_in_cycle as int);
            lemma_cycles(year_in_cycle as int, k);
            lemma_cycles(year_in_cycle as int + 1, k);
            lemma_next_year(year as int);
            assert(days_in_year(year as int) == days_in_year(year_in_cycle as int));
            assert(days_from_ce(year as int, ordinal as int) == days);
            if year < MIN_YEAR {
                lemma_year_order(year as int, MIN_YEAR as int);
            }
            if year > MAX_YEAR {
                lemma_year_order(MAX_YEAR as int, year as int);
            }
            if MIN_YEAR <= year <= MAX_YEAR {
                law_valid_date_in_range(year as int, ordinal as int);
            }
        }
        if year < MIN_YEAR as i64 || year > MAX_YEAR as i64 {
            return None;
        }
        Some(NaiveDate { year: year as i32, ordinal: ordinal as u32 })
    }

    /// The day of the week.
    pub fn weekday(&self) -> (w: Weekday)
        ensures
            spec_num_days_from_monday(w) == weekday_of_day(days_from_ce(self@.0, self@.1)),
    {
        let n = self.num_days_from_ce();
        let k: u64 = ((n as i64 - 1 + 7 * 20_000_000) as u64) % 7;
        proof {
            assert((n - 1 + 7 * 20_000_000) % 7 == (n - 1) % 7);
        }
        if k == 0 {
            Weekday::Mon
        } else if k == 1 {
            Weekday::Tue
        } else if k == 2 {
            Weekday::Wed
        } else if k == 3 {
            Weekday::Thu
        } else if k == 4 {
            Weekday::Fri
        } else if k == 5 {
            Weekday::Sat
        } else {
            Weekday::Sun
        }
    }

    /// The day number of this date, counting 0001-01-01 as day 1.
    pub fn num_days_from_ce(&self) -> (days: i32)
        ensures
            days == days_from_ce(self@.0, self@.1),
            min_days_from_ce() <= days <= max_days_from_ce(),
    {
        proof {
            use_type_invariant(self);
            law_valid_date_in_range(self.year as int, self.ordinal as int);
            lemma_cycles(self.year as int, 656);
            assert(max_days_from_ce() == 95745399);
            assert(min_days_from_ce() == -95746129);
        }
        // Shift by whole 400-year cycles so that the year is non-negative.
        let shifted_year: u64 = (self.year as i64 + 656 * 400) as u64;
        let start: u64 = days_before_year_exec(shifted_year);
        let days: i64 = start as i64 - 656 * 146097 - 366 + self.ordinal as i64;
        days as i32
    }
}

} // verus!
