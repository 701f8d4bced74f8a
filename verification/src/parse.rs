//! Parsing text into the fields of a date and time, item by item.

use vstd::prelude::*;
use crate::scan::{
    long_weekday_suffix, starts_with_ci, spec_short_weekday, lemma_utf8_bytes_at_least_len,
    ParseError, rest, ascii_ci_eq, weekday_from_abbrev, short_or_long_weekday, spec_short_or_long_weekday, utf8_bytes, utf8_len,
    short_weekday, utf8_len_exec, short_month, short_or_long_month, spec_short_month,
    spec_short_or_long_month, month_from_abbrev, long_month_suffix, ampm, spec_ampm, skip_non_whitespace, skip_non_whitespace_exec,
    spec_timezone_offset_with, timezone_offset_with, fraction_nanos, law_fraction_is_seconds,
    lemma_fraction_nanos_bounds, is_digit, spec_nanosecond_fixed, nanosecond_fixed,
    bytes_at_least, skip_whitespace, skip_whitespace_exec, spec_number, number, spec_nanosecond,
    nanosecond,
};
use crate::text::chars_of;
use crate::weekday::{Weekday, long_name, spec_num_days_from_monday};
use crate::date::{
    NaiveDate, MIN_YEAR, MAX_YEAR, days_in_month, days_before_month, days_from_ce, weekday_of_day,
    is_month_day, is_valid_date, law_month_day_unique,
};
use crate::datetime::{NaiveDateTime, DateTimeOffset, spec_local_to_utc};

verus! {

/// The fields gathered while parsing; each is set at most once.
#[derive(Clone, Copy, Debug, PartialEq, Eq, Structural)]
pub struct Parsed {
    pub year: Option<i32>,
    /// The year divided by 100 (the century), for a year that is not negative.
    pub year_div_100: Option<i32>,
    /// The year modulo 100, 0 to 99.
    pub year_mod_100: Option<i32>,
    pub month: Option<u32>,
    pub day: Option<u32>,
    /// The day of the year, 1 to 366.
    pub ordinal: Option<u32>,
    /// 0 before noon and 1 from noon.
    pub hour_div_12: Option<u32>,
    /// The hour within the half of the day, 0 to 11.
    pub hour_mod_12: Option<u32>,
    pub minute: Option<u32>,
    pub second: Option<u32>,
    pub nanosecond: Option<u32>,
    /// Offset from UTC in seconds, east positive.
    pub offset: Option<i32>,
    pub weekday: Option<Weekday>,
}

/// The result of giving a field the value `new` when it holds `old`.
pub open spec fn consistent<T>(old: Option<T>, new: T) -> Result<Option<T>, ParseError> {
    match old {
        Some(o) => if o == new {
            Ok(Some(o))
        } else {
            Err(ParseError::Impossible)
        },
        None => Ok(Some(new)),
    }
}

pub open spec fn empty_parsed() -> Parsed {
    Parsed {
        year: None,
        year_div_100: None,
        year_mod_100: None,
        month: None,
        day: None,
        ordinal: None,
        hour_div_12: None,
        hour_mod_12: None,
        minute: None,
        second: None,
        nanosecond: None,
        offset: None,
        weekday: None,
    }
}

/// `set_weekday` on the model.
pub open spec fn spec_set_weekday(p: Parsed, w: Weekday) -> (Parsed, Result<(), ParseError>) {
    match consistent(p.weekday, w) {
        Ok(v) => (Parsed { weekday: v, ..p }, Ok(())),
        Err(e) => (p, Err(e)),
    }
}

/// `set_year` on the model: the value must fit an `i32`.
pub open spec fn spec_set_year(p: Parsed, v: int) -> (Parsed, Result<(), ParseError>) {
    if v < i32::MIN || v > i32::MAX {
        (p, Err(ParseError::OutOfRange))
    } else {
        match consistent(p.year, v as i32) {
            Ok(o) => (Parsed { year: o, ..p }, Ok(())),
            Err(e) => (p, Err(e)),
        }
    }
}

/// `set_ordinal` on the model: the value must lie in 1 to 366.
pub open spec fn spec_set_ordinal(p: Parsed, v: int) -> (Parsed, Result<(), ParseError>) {
    if v < 1 || v > 366 {
        (p, Err(ParseError::OutOfRange))
    } else {
        match consistent(p.ordinal, v as u32) {
            Ok(o) => (Parsed { ordinal: o, ..p }, Ok(())),
            Err(e) => (p, Err(e)),
        }
    }
}

/// `set_year_div_100` on the model: the value must lie in 0 to `i32::MAX`.
pub open spec fn spec_set_year_div_100(p: Parsed, v: int) -> (Parsed, Result<(), ParseError>) {
    if v < 0 || v > i32::MAX {
        (p, Err(ParseError::OutOfRange))
    } else {
        match consistent(p.year_div_100, v as i32) {
            Ok(o) => (Parsed { year_div_100: o, ..p }, Ok(())),
            Err(e) => (p, Err(e)),
        }
    }
}

/// `set_year_mod_100` on the model: the value must lie in 0 to 99.
pub open spec fn spec_set_year_mod_100(p: Parsed, v: int) -> (Parsed, Result<(), ParseError>) {
    if v < 0 || v > 99 {
        (p, Err(ParseError::OutOfRange))
    } else {
        match consistent(p.year_mod_100, v as i32) {
            Ok(o) => (Parsed { year_mod_100: o, ..p }, Ok(())),
            Err(e) => (p, Err(e)),
        }
    }
}

/// The year that the year fields give together, if any: a full year must agree with the
/// century and the year in the century that are set (and then not be negative); a century
/// and a year in the century make a year; a year in the century alone is read as 1970 to
/// 2069; a century alone is `NotEnough`.
pub open spec fn spec_resolve_year(p: Parsed) -> Result<Option<int>, ParseError> {
    let r_ok = match p.year_mod_100 {
        Some(r) => 0 <= r <= 99,
        None => true,
    };
    match (p.year, p.year_div_100, p.year_mod_100) {
        (y, None, None) => Ok(
            match y {
                Some(v) => Some(v as int),
                None => None,
            },
        ),
        (Some(y), q, r) => if !r_ok {
            Err(ParseError::OutOfRange)
        } else if y < 0 {
            Err(ParseError::Impossible)
        } else if (q is Some ==> q->0 == y / 100) && (r is Some ==> r->0 == y % 100) {
            Ok(Some(y as int))
        } else {
            Err(ParseError::Impossible)
        },
        (None, Some(q), Some(r)) => if !r_ok {
            Err(ParseError::OutOfRange)
        } else if q < 0 {
            Err(ParseError::Impossible)
        } else if q * 100 + r > i32::MAX {
            Err(ParseError::OutOfRange)
        } else {
            Ok(Some(q * 100 + r))
        },
        (None, None, Some(r)) => if !r_ok {
            Err(ParseError::OutOfRange)
        } else {
            Ok(Some(r + if r < 70 { 2000int } else { 1900int }))
        },
        (None, Some(_), None) => Err(ParseError::NotEnough),
    }
}

/// `set_month` on the model: the value must lie in 1 to 12.
pub open spec fn spec_set_month(p: Parsed, v: int) -> (Parsed, Result<(), ParseError>) {
    if v < 1 || v > 12 {
        (p, Err(ParseError::OutOfRange))
    } else {
        match consistent(p.month, v as u32) {
            Ok(o) => (Parsed { month: o, ..p }, Ok(())),
            Err(e) => (p, Err(e)),
        }
    }
}

/// `set_day` on the model: the value must lie in 1 to 31.
pub open spec fn spec_set_day(p: Parsed, v: int) -> (Parsed, Result<(), ParseError>) {
    if v < 1 || v > 31 {
        (p, Err(ParseError::OutOfRange))
    } else {
        match consistent(p.day, v as u32) {
            Ok(o) => (Parsed { day: o, ..p }, Ok(())),
            Err(e) => (p, Err(e)),
        }
    }
}

/// `set_hour` on the model: the value must lie in 0 to 23; it sets the half of the day,
/// then the hour within it.
pub open spec fn spec_set_hour(p: Parsed, v: int) -> (Parsed, Result<(), ParseError>) {
    if v < 0 || v > 23 {
        (p, Err(ParseError::OutOfRange))
    } else {
        match consistent(p.hour_div_12, (v / 12) as u32) {
            Ok(o) => {
                let p1 = Parsed { hour_div_12: o, ..p };
                match consistent(p1.hour_mod_12, (v % 12) as u32) {
                    Ok(o2) => (Parsed { hour_mod_12: o2, ..p1 }, Ok(())),
                    Err(e) => (p1, Err(e)),
                }
            },
            Err(e) => (p, Err(e)),
        }
    }
}

/// `set_hour12` on the model: the value must lie in 1 to 12; it sets the hour within the
/// half of the day, 12 counting as 0.
pub open spec fn spec_set_hour12(p: Parsed, v: int) -> (Parsed, Result<(), ParseError>) {
    if v < 1 || v > 12 {
        (p, Err(ParseError::OutOfRange))
    } else {
        match consistent(p.hour_mod_12, (if v == 12 { 0 } else { v }) as u32) {
            Ok(o) => (Parsed { hour_mod_12: o, ..p }, Ok(())),
            Err(e) => (p, Err(e)),
        }
    }
}

/// `set_ampm` on the model: it sets the half of the day, 1 for the afternoon.
pub open spec fn spec_set_ampm(p: Parsed, pm: bool) -> (Parsed, Result<(), ParseError>) {
    match consistent(p.hour_div_12, (if pm { 1int } else { 0int }) as u32) {
        Ok(o) => (Parsed { hour_div_12: o, ..p }, Ok(())),
        Err(e) => (p, Err(e)),
    }
}

/// The weekday numbered `v` counting Monday as 1 and Sunday as 7.
pub open spec fn weekday_from_monday_number(v: int) -> Option<Weekday> {
    if v == 1 {
        Some(Weekday::Mon)
    } else if v == 2 {
        Some(Weekday::Tue)
    } else if v == 3 {
        Some(Weekday::Wed)
    } else if v == 4 {
        Some(Weekday::Thu)
    } else if v == 5 {
        Some(Weekday::Fri)
    } else if v == 6 {
        Some(Weekday::Sat)
    } else if v == 7 {
        Some(Weekday::Sun)
    } else {
        None
    }
}

/// The weekday numbered `v` counting Sunday as 0 and Saturday as 6.
pub open spec fn weekday_from_sunday_number(v: int) -> Option<Weekday> {
    if v == 0 {
        Some(Weekday::Sun)
    } else {
        weekday_from_monday_number(v)
    }
}

/// `set_minute` on the model: the value must lie in 0 to 59.
pub open spec fn spec_set_minute(p: Parsed, v: int) -> (Parsed, Result<(), ParseError>) {
    if v < 0 || v > 59 {
        (p, Err(ParseError::OutOfRange))
    } else {
        match consistent(p.minute, v as u32) {
            Ok(o) => (Parsed { minute: o, ..p }, Ok(())),
            Err(e) => (p, Err(e)),
        }
    }
}

/// `set_second` on the model: the value must lie in 0 to 60, 60 being a leap second.
pub open spec fn spec_set_second(p: Parsed, v: int) -> (Parsed, Result<(), ParseError>) {
    if v < 0 || v > 60 {
        (p, Err(ParseError::OutOfRange))
    } else {
        match consistent(p.second, v as u32) {
            Ok(o) => (Parsed { second: o, ..p }, Ok(())),
            Err(e) => (p, Err(e)),
        }
    }
}

/// `set_nanosecond` on the model: the value must lie in 0 to 999,999,999.
pub open spec fn spec_set_nanosecond(p: Parsed, v: int) -> (Parsed, Result<(), ParseError>) {
    if v < 0 || v > 999_999_999 {
        (p, Err(ParseError::OutOfRange))
    } else {
        match consistent(p.nanosecond, v as u32) {
            Ok(o) => (Parsed { nanosecond: o, ..p }, Ok(())),
            Err(e) => (p, Err(e)),
        }
    }
}

/// `set_offset` on the model: the value must fit an `i32`.
pub open spec fn spec_set_offset(p: Parsed, v: int) -> (Parsed, Result<(), ParseError>) {
    if v < i32::MIN || v > i32::MAX {
        (p, Err(ParseError::OutOfRange))
    } else {
        match consistent(p.offset, v as i32) {
            Ok(o) => (Parsed { offset: o, ..p }, Ok(())),
            Err(e) => (p, Err(e)),
        }
    }
}

/// Gives `slot` the value `new`, or fails with `Impossible` when it holds another value.
fn set_consistent_u32(slot: &mut Option<u32>, new: u32) -> (r: Result<(), ParseError>)
    ensures
        match consistent(*old(slot), new) {
            Ok(o) => *final(slot) == o && r == Ok::<(), ParseError>(()),
            Err(e) => *final(slot) == *old(slot) && r == Err::<(), ParseError>(e),
        },
{
    match *slot {
        Some(o) => if o == new {
            Ok(())
        } else {
            Err(ParseError::Impossible)
        },
        None => {
            *slot = Some(new);
            Ok(())
        },
    }
}

/// Gives `slot` the value `new`, or fails with `Impossible` when it holds another value.
fn set_consistent_i32(slot: &mut Option<i32>, new: i32) -> (r: Result<(), ParseError>)
    ensures
        match consistent(*old(slot), new) {
            Ok(o) => *final(slot) == o && r == Ok::<(), ParseError>(()),
            Err(e) => *final(slot) == *old(slot) && r == Err::<(), ParseError>(e),
        },
{
    match *slot {
        Some(o) => if o == new {
            Ok(())
        } else {
            Err(ParseError::Impossible)
        },
        None => {
            *slot = Some(new);
            Ok(())
        },
    }
}

impl Parsed {
    /// Sets the year; it must fit an `i32`.
    pub fn set_year(&mut self, v: i64) -> (r: Result<(), ParseError>)
        ensures
            (*final(self), r) == spec_set_year(*old(self), v as int),
    {
        if v < i32::MIN as i64 || v > i32::MAX as i64 {
            return Err(ParseError::OutOfRange);
        }
        set_consistent_i32(&mut self.year, v as i32)
    }

    /// Sets the day of the year; it must lie in 1 to 366.
    pub fn set_ordinal(&mut self, v: i64) -> (r: Result<(), ParseError>)
        ensures
            (*final(self), r) == spec_set_ordinal(*old(self), v as int),
    {
        if v < 1 || v > 366 {
            return Err(ParseError::OutOfRange);
        }
        set_consistent_u32(&mut self.ordinal, v as u32)
    }

    /// Sets the year divided by 100; it must lie in 0 to `i32::MAX`.
    pub fn set_year_div_100(&mut self, v: i64) -> (r: Result<(), ParseError>)
        ensures
            (*final(self), r) == spec_set_year_div_100(*old(self), v as int),
    {
        if v < 0 || v > i32::MAX as i64 {
            return Err(ParseError::OutOfRange);
        }
        set_consistent_i32(&mut self.year_div_100, v as i32)
    }

    /// Sets the year modulo 100; it must lie in 0 to 99.
    pub fn set_year_mod_100(&mut self, v: i64) -> (r: Result<(), ParseError>)
        ensures
            (*final(self), r) == spec_set_year_mod_100(*old(self), v as int),
    {
        if v < 0 || v > 99 {
            return Err(ParseError::OutOfRange);
        }
        set_consistent_i32(&mut self.year_mod_100, v as i32)
    }

    /// The year that the year fields give together, as `spec_resolve_year` says.
    pub fn resolve_year(&self) -> (r: Result<Option<i32>, ParseError>)
        ensures
            r matches Ok(Some(y)) ==> spec_resolve_year(*self) == Ok::<Option<int>, ParseError>(Some(y as int)),
            r matches Ok(None) ==> spec_resolve_year(*self) == Ok::<Option<int>, ParseError>(None),
            r matches Err(e) ==> spec_resolve_year(*self) == Err::<Option<int>, ParseError>(e),
    {
        let r_ok = match self.year_mod_100 {
            Some(r) => 0 <= r && r <= 99,
            None => true,
        };
        match (self.year, self.year_div_100, self.year_mod_100) {
            (y, None, None) => Ok(y),
            (Some(y), q, r) => {
                if !r_ok {
                    Err(ParseError::OutOfRange)
                } else if y < 0 {
                    Err(ParseError::Impossible)
                } else {
                    let q_ok = match q {
                        Some(q) => q == y / 100,
                        None => true,
                    };
                    let r_same = match r {
                        Some(r) => r == y % 100,
                        None => true,
                    };
                    if q_ok && r_same {
                        Ok(Some(y))
                    } else {
                        Err(ParseError::Impossible)
                    }
                }
            },
            (None, Some(q), Some(r)) => {
                if !r_ok {
                    Err(ParseError::OutOfRange)
                } else if q < 0 {
                    Err(ParseError::Impossible)
                } else if q as i64 * 100 + r as i64 > i32::MAX as i64 {
                    Err(ParseError::OutOfRange)
                } else {
                    Ok(Some(q * 100 + r))
                }
            },
            (None, None, Some(r)) => {
                if !r_ok {
                    Err(ParseError::OutOfRange)
                } else {
                    Ok(Some(r + if r < 70 { 2000 } else { 1900 }))
                }
            },
            (None, Some(_), None) => Err(ParseError::NotEnough),
        }
    }

    /// Sets the month; it must lie in 1 to 12.
    pub fn set_month(&mut self, v: i64) -> (r: Result<(), ParseError>)
        ensures
            (*final(self), r) == spec_set_month(*old(self), v as int),
    {
        if v < 1 || v > 12 {
            return Err(ParseError::OutOfRange);
        }
        set_consistent_u32(&mut self.month, v as u32)
    }

    /// Sets the day of the month; it must lie in 1 to 31.
    pub fn set_day(&mut self, v: i64) -> (r: Result<(), ParseError>)
        ensures
            (*final(self), r) == spec_set_day(*old(self), v as int),
    {
        if v < 1 || v > 31 {
            return Err(ParseError::OutOfRange);
        }
        set_consistent_u32(&mut self.day, v as u32)
    }

    /// Sets the hour of the day; it must lie in 0 to 23.
    pub fn set_hour(&mut self, v: i64) -> (r: Result<(), ParseError>)
        ensures
            (*final(self), r) == spec_set_hour(*old(self), v as int),
    {
        if v < 0 || v > 23 {
            return Err(ParseError::OutOfRange);
        }
        set_consistent_u32(&mut self.hour_div_12, (v / 12) as u32)?;
        set_consistent_u32(&mut self.hour_mod_12, (v % 12) as u32)
    }

    /// Sets the hour within the half of the day from a value in 1 to 12, 12 counting as 0.
    pub fn set_hour12(&mut self, v: i64) -> (r: Result<(), ParseError>)
        ensures
            (*final(self), r) == spec_set_hour12(*old(self), v as int),
    {
        if v < 1 || v > 12 {
            return Err(ParseError::OutOfRange);
        }
        let h: u32 = if v == 12 { 0 } else { v as u32 };
        set_consistent_u32(&mut self.hour_mod_12, h)
    }

    /// Sets the half of the day: the afternoon when `pm`.
    pub fn set_ampm(&mut self, pm: bool) -> (r: Result<(), ParseError>)
        ensures
            (*final(self), r) == spec_set_ampm(*old(self), pm),
    {
        set_consistent_u32(&mut self.hour_div_12, if pm { 1 } else { 0 })
    }

    /// Sets the minute; it must lie in 0 to 59.
    pub fn set_minute(&mut self, v: i64) -> (r: Result<(), ParseError>)
        ensures
            (*final(self), r) == spec_set_minute(*old(self), v as int),
    {
        if v < 0 || v > 59 {
            return Err(ParseError::OutOfRange);
        }
        set_consistent_u32(&mut self.minute, v as u32)
    }

    /// Sets the second; it must lie in 0 to 60.
    pub fn set_second(&mut self, v: i64) -> (r: Result<(), ParseError>)
        ensures
            (*final(self), r) == spec_set_second(*old(self), v as int),
    {
        if v < 0 || v > 60 {
            return Err(ParseError::OutOfRange);
        }
        set_consistent_u32(&mut self.second, v as u32)
    }

    /// Sets the nanoseconds within the second; they must lie in 0 to 999,999,999.
    pub fn set_nanosecond(&mut self, v: i64) -> (r: Result<(), ParseError>)
        ensures
            (*final(self), r) == spec_set_nanosecond(*old(self), v as int),
    {
        if v < 0 || v > 999_999_999 {
            return Err(ParseError::OutOfRange);
        }
        set_consistent_u32(&mut self.nanosecond, v as u32)
    }

    /// Sets the offset from UTC in seconds; it must fit an `i32`.
    pub fn set_offset(&mut self, v: i64) -> (r: Result<(), ParseError>)
        ensures
            (*final(self), r) == spec_set_offset(*old(self), v as int),
    {
        if v < i32::MIN as i64 || v > i32::MAX as i64 {
            return Err(ParseError::OutOfRange);
        }
        set_consistent_i32(&mut self.offset, v as i32)
    }

    /// A `Parsed` with no field set.
    pub fn new() -> (p: Parsed)
        ensures
            p == empty_parsed(),
    {
        Parsed {
            year: None,
            year_div_100: None,
            year_mod_100: None,
            month: None,
            day: None,
            ordinal: None,
            hour_div_12: None,
            hour_mod_12: None,
            minute: None,
            second: None,
            nanosecond: None,
            offset: None,
            weekday: None,
        }
    }

    /// The date the fields give.
    pub fn to_naive_date(&self) -> (r: Result<NaiveDate, ParseError>)
        ensures
            r matches Ok(d) ==> spec_to_naive_date(*self) == Ok::<int, ParseError>(days_from_ce(d@.0, d@.1)),
            r matches Err(e) ==> spec_to_naive_date(*self) == Err::<int, ParseError>(e),
    {
        let year = self.resolve_year()?;
        match (year, self.month, self.day) {
            (Some(y), Some(m), Some(d)) => {
                let date = match NaiveDate::from_ymd_opt(y, m, d) {
                    Some(date) => date,
                    None => return Err(ParseError::OutOfRange),
                };
                let weekday_ok = match self.weekday {
                    Some(w) => w.num_days_from_monday() == date.weekday().num_days_from_monday(),
                    None => true,
                };
                let ordinal_ok = match self.ordinal {
                    Some(o) => o == date.ordinal(),
                    None => true,
                };
                if weekday_ok && ordinal_ok {
                    Ok(date)
                } else {
                    Err(ParseError::Impossible)
                }
            },
            (Some(y), _, _) => match self.ordinal {
                Some(o) => {
                    let date = match NaiveDate::from_yo_opt(y, o) {
                        Some(date) => date,
                        None => return Err(ParseError::OutOfRange),
                    };
                    let (dm, dd) = date.month_day();
                    let weekday_ok = match self.weekday {
                        Some(w) => w.num_days_from_monday() == date.weekday().num_days_from_monday(),
                        None => true,
                    };
                    let month_ok = match self.month {
                        Some(m) => m == dm,
                        None => true,
                    };
                    let day_ok = match self.day {
                        Some(d) => d == dd,
                        None => true,
                    };
                    proof {
                        let (yy, oo) = (y as int, o as int);
                        assert forall|d: int| is_month_day(yy, oo, self.month->0 as int, d) implies self.month->0 == dm by {
                            law_month_day_unique(yy, oo, self.month->0 as int, d, dm as int, dd as int);
                        }
                        assert forall|m: int| is_month_day(yy, oo, m, self.day->0 as int) implies self.day->0 == dd by {
                            law_month_day_unique(yy, oo, m, self.day->0 as int, dm as int, dd as int);
                        }
                        assert(is_month_day(yy, oo, dm as int, dd as int));
                    }
                    if weekday_ok && month_ok && day_ok {
                        Ok(date)
                    } else {
                        Err(ParseError::Impossible)
                    }
                },
                None => Err(ParseError::NotEnough),
            },
            _ => Err(ParseError::NotEnough),
        }
    }

    /// The time of day the fields give, as the second of the day and the nanoseconds.
    pub fn to_naive_time(&self) -> (r: Result<(u32, u32), ParseError>)
        ensures
            r matches Ok((secs, nano)) ==> spec_to_naive_time(*self) == Ok::<(int, int), ParseError>((secs as int, nano as int)) && secs < 86_400 && nano < 2_000_000_000,
            r matches Err(e) ==> spec_to_naive_time(*self) == Err::<(int, int), ParseError>(e),
    {
        let hd = match self.hour_div_12 {
            Some(v) => if v > 1 {
                return Err(ParseError::OutOfRange);
            } else {
                v
            },
            None => return Err(ParseError::NotEnough),
        };
        let hm = match self.hour_mod_12 {
            Some(v) => if v > 11 {
                return Err(ParseError::OutOfRange);
            } else {
                v
            },
            None => return Err(ParseError::NotEnough),
        };
        let mi = match self.minute {
            Some(v) => if v > 59 {
                return Err(ParseError::OutOfRange);
            } else {
                v
            },
            None => return Err(ParseError::NotEnough),
        };
        let sec_raw: u32 = match self.second {
            Some(v) => v,
            None => 0,
        };
        if sec_raw > 60 {
            return Err(ParseError::OutOfRange);
        }
        let (sec, base): (u32, u32) = if sec_raw == 60 {
            (59, 1_000_000_000)
        } else {
            (sec_raw, 0)
        };
        let extra: u32 = match self.nanosecond {
            Some(v) => if v <= 999_999_999 {
                if self.second.is_some() {
                    v
                } else {
                    return Err(ParseError::NotEnough);
                }
            } else {
                return Err(ParseError::OutOfRange);
            },
            None => 0,
        };
        Ok(((hd * 12 + hm) * 3600 + mi * 60 + sec, base + extra))
    }

    /// The moment the fields give, seen at the offset they give.
    pub fn to_datetime(&self) -> (r: Result<DateTimeOffset, ParseError>)
        ensures
            r matches Ok(t) ==> spec_to_datetime(*self) == Ok::<((int, int, int), int), ParseError>(t@),
            r matches Err(e) ==> spec_to_datetime(*self) == Err::<((int, int, int), int), ParseError>(e),
    {
        let off = match self.offset {
            Some(v) => v,
            None => return Err(ParseError::NotEnough),
        };
        let date = self.to_naive_date()?;
        let (secs, nano) = self.to_naive_time()?;
        if !(-86_400 < off && off < 86_400) {
            return Err(ParseError::OutOfRange);
        }
        let day = date.num_days_from_ce() as i64;
        let local = match NaiveDateTime::from_parts(day, secs, nano) {
            Some(t) => t,
            None => return Err(ParseError::Impossible),
        };
        match DateTimeOffset::from_local(local, off) {
            Some(t) => Ok(t),
            None => Err(ParseError::Impossible),
        }
    }

    /// Sets the weekday; fails with `Impossible` when another weekday was set before.
    pub fn set_weekday(&mut self, w: Weekday) -> (r: Result<(), ParseError>)
        ensures
            (*final(self), r) == spec_set_weekday(*old(self), w),
    {
        match self.weekday {
            Some(o) => if o == w {
                Ok(())
            } else {
                Err(ParseError::Impossible)
            },
            None => {
                self.weekday = Some(w);
                Ok(())
            },
        }
    }
}

/// The day number of the date the fields give: year, month and day must all be set and
/// name a date, and a weekday that is set must be its weekday.
pub open spec fn spec_to_naive_date(p: Parsed) -> Result<int, ParseError> {
    match spec_resolve_year(p) {
        Err(e) => Err(e),
        Ok(year) => spec_ymd_date(p, year),
    }
}

/// The weekday field, where it is set, is the weekday of day number `n`.
pub open spec fn weekday_agrees(p: Parsed, n: int) -> bool {
    match p.weekday {
        Some(w) => spec_num_days_from_monday(w) == weekday_of_day(n),
        None => true,
    }
}

/// The month and day fields, where they are set, agree with day `ordinal` of `year`.
pub open spec fn month_day_agree(p: Parsed, year: int, ordinal: int) -> bool {
    &&& (p.month matches Some(m) ==> exists|d: int| is_month_day(year, ordinal, m as int, d))
    &&& (p.day matches Some(d) ==> exists|m: int| is_month_day(year, ordinal, m, d as int))
}

/// The day number of the date that `year` and the other date fields give: from the month
/// and day if both are set (the day of the year must then agree), else from the day of the
/// year (the month and day that are set must then agree); the weekday, if set, must agree.
pub open spec fn spec_ymd_date(p: Parsed, year: Option<int>) -> Result<int, ParseError> {
    match (year, p.month, p.day) {
        (Some(y), Some(m), Some(d)) => if MIN_YEAR <= y <= MAX_YEAR && 1 <= m <= 12 && 1 <= d
            <= days_in_month(y as int, m as int) {
            let o = days_before_month(y as int, m as int) + d;
            let n = days_from_ce(y as int, o);
            if weekday_agrees(p, n) && (p.ordinal matches Some(po) ==> po == o) {
                Ok(n)
            } else {
                Err(ParseError::Impossible)
            }
        } else {
            Err(ParseError::OutOfRange)
        },
        (Some(y), _, _) => match p.ordinal {
            Some(o) => if is_valid_date(y, o as int) {
                let n = days_from_ce(y, o as int);
                if weekday_agrees(p, n) && month_day_agree(p, y, o as int) {
                    Ok(n)
                } else {
                    Err(ParseError::Impossible)
                }
            } else {
                Err(ParseError::OutOfRange)
            },
            None => Err(ParseError::NotEnough),
        },
        _ => Err(ParseError::NotEnough),
    }
}

/// A date resolved from fields that name a weekday falls on that weekday, whichever fields
/// (year, month and day, or year and day of the year) give the date: a weekday that does
/// not agree with the date makes the fields `Impossible`.
pub proof fn law_resolved_date_has_parsed_weekday(p: Parsed)
    ensures
        spec_to_naive_date(p) matches Ok(n) ==> (p.weekday matches Some(w) ==> spec_num_days_from_monday(w) == (n - 1) % 7),
{
}

/// The nanoseconds that the fields add to the second: those set, which need the second set.
pub open spec fn nano_part(p: Parsed) -> Result<int, ParseError> {
    match p.nanosecond {
        Some(v) => if v <= 999_999_999 {
            if p.second is Some {
                Ok(v as int)
            } else {
                Err(ParseError::NotEnough)
            }
        } else {
            Err(ParseError::OutOfRange)
        },
        None => Ok(0),
    }
}

/// The second of the day and the nanoseconds that the fields give. Hour and minute must be
/// set; second 60 is a leap second, held as second 59 and one more second of nanoseconds.
pub open spec fn spec_to_naive_time(p: Parsed) -> Result<(int, int), ParseError> {
    match (p.hour_div_12, p.hour_mod_12, p.minute) {
        (Some(hd), Some(hm), Some(mi)) => if hd > 1 || hm > 11 || mi > 59 {
            Err(ParseError::OutOfRange)
        } else {
            let sec_raw: int = match p.second {
                Some(v) => v as int,
                None => 0,
            };
            if sec_raw > 60 {
                Err(ParseError::OutOfRange)
            } else {
                let sec = if sec_raw == 60 { 59 } else { sec_raw };
                let base: int = if sec_raw == 60 { 1_000_000_000 } else { 0 };
                match nano_part(p) {
                    Ok(x) => Ok(((hd * 12 + hm) * 3600 + mi * 60 + sec, base + x)),
                    Err(e) => Err(e),
                }
            }
        },
        (Some(hd), _, _) if hd > 1 => Err(ParseError::OutOfRange),
        (Some(_), Some(hm), _) if hm > 11 => Err(ParseError::OutOfRange),
        _ => Err(ParseError::NotEnough),
    }
}

/// The moment the fields give, as UTC and offset: the offset must be set and lie within a
/// day, and the date and time must be given (an error in the date comes first). A moment
/// whose UTC day is out of range is `Impossible`.
pub open spec fn spec_to_datetime(p: Parsed) -> Result<((int, int, int), int), ParseError> {
    match p.offset {
        None => Err(ParseError::NotEnough),
        Some(off) => match spec_to_naive_date(p) {
            Err(e) => Err(e),
            Ok(n) => match spec_to_naive_time(p) {
                Err(e) => Err(e),
                Ok((secs, nano)) => if !(-86_400 < off < 86_400) {
                    Err(ParseError::OutOfRange)
                } else {
                    match spec_local_to_utc((n, secs, nano), off as int) {
                        None => Err(ParseError::Impossible),
                        Some(u) => Ok((u, off as int)),
                    }
                },
            },
        },
    }
}

/// Fields that are written with a fixed textual form.
#[derive(Clone, Copy, Debug, PartialEq, Eq, Structural)]
pub enum Fixed {
    /// The three-letter English abbreviation of a weekday.
    ShortWeekdayName,
    /// The full English name of a weekday, or its three-letter abbreviation.
    LongWeekdayName,
    /// An optional fraction of a second: a point and one or more digits.
    Nanosecond,
    /// The three-letter English abbreviation of a month.
    ShortMonthName,
    /// The full English name of a month, or its three-letter abbreviation.
    LongMonthName,
    /// `am` or `pm`, in any case (written in lowercase).
    LowerAmPm,
    /// `AM` or `PM`, in any case (written in uppercase).
    UpperAmPm,
    /// The name of a time zone: it is skipped up to the next whitespace.
    TimezoneName,
    /// A fraction of a second of exactly three digits, without a point.
    Nanosecond3NoDot,
    /// A fraction of a second of exactly six digits, without a point.
    Nanosecond6NoDot,
    /// A fraction of a second of exactly nine digits, without a point.
    Nanosecond9NoDot,
    /// An offset from UTC after any whitespace: a sign, hours and minutes (not `Z`).
    TimezoneOffset,
    /// An offset from UTC after any whitespace: `Z`, or a sign and hours, with minutes
    /// that may be left out at the end of the text.
    TimezoneOffsetPermissive,
}

/// Fields that are written as decimal numbers.
#[derive(Clone, Copy, Debug, PartialEq, Eq, Structural)]
pub enum Numeric {
    /// The year: up to four digits, or a sign and any number of digits.
    Year,
    /// The month, up to two digits.
    Month,
    /// The day of the month, up to two digits.
    Day,
    /// The hour of the day, up to two digits.
    Hour,
    /// The minute, up to two digits.
    Minute,
    /// The second, up to two digits.
    Second,
    /// The hour in the half of the day, 1 to 12, up to two digits.
    Hour12,
    /// The nanoseconds within the second, up to nine digits.
    Nanosecond,
    /// The weekday as one digit, Monday being 1 and Sunday 7.
    WeekdayFromMon,
    /// The weekday as one digit, Sunday being 0 and Saturday 6.
    NumDaysFromSun,
    /// The year divided by 100, up to two digits.
    YearDiv100,
    /// The year modulo 100, up to two digits.
    YearMod100,
    /// The day of the year, up to three digits.
    Ordinal,
}

/// One element of a format: what the parser expects next.
#[derive(Clone, Copy, Debug, PartialEq, Eq, Structural)]
pub enum Item {
    /// This exact character.
    Literal(char),
    /// Any amount of whitespace, possibly none.
    Space,
    /// A number, after any whitespace.
    Numeric(Numeric),
    /// A field with a fixed textual form.
    Fixed(Fixed),
    /// At least this many bytes of text (in UTF-8) must be left; nothing is read. It
    /// stands before a run of literal characters, so that text too short for the whole
    /// run is `TooShort`.
    MinBytes(u128),
    /// A part of a format that could not be read; parsing with it fails.
    Error,
}

/// The number that a numeric item reads at `pos` (after whitespace): the position after it
/// and its value. Only the year takes a sign, and with a sign any number of digits.
pub open spec fn spec_numeric_value(s: Seq<char>, pos: int, n: Numeric) -> Result<(int, int), ParseError> {
    let q = skip_whitespace(s, pos);
    match n {
        Numeric::Year => if q < s.len() && s[q] == '-' {
            match spec_number(s, q + 1, s.len() as int) {
                Ok((r, v)) => Ok((r, -v)),
                Err(e) => Err(e),
            }
        } else if q < s.len() && s[q] == '+' {
            spec_number(s, q + 1, s.len() as int)
        } else {
            spec_number(s, q, 4)
        },
        Numeric::WeekdayFromMon | Numeric::NumDaysFromSun => spec_number(s, q, 1),
        Numeric::Nanosecond => spec_number(s, q, 9),
        Numeric::Ordinal => spec_number(s, q, 3),
        _ => spec_number(s, q, 2),
    }
}

/// Giving the field of a numeric item the value `v`.
pub open spec fn spec_set_numeric(p: Parsed, n: Numeric, v: int) -> (Parsed, Result<(), ParseError>) {
    match n {
        Numeric::Year => spec_set_year(p, v),
        Numeric::Month => spec_set_month(p, v),
        Numeric::Day => spec_set_day(p, v),
        Numeric::Hour => spec_set_hour(p, v),
        Numeric::Minute => spec_set_minute(p, v),
        Numeric::Second => spec_set_second(p, v),
        Numeric::Hour12 => spec_set_hour12(p, v),
        Numeric::Nanosecond => spec_set_nanosecond(p, v),
        Numeric::WeekdayFromMon => match weekday_from_monday_number(v) {
            Some(w) => spec_set_weekday(p, w),
            None => (p, Err(ParseError::OutOfRange)),
        },
        Numeric::NumDaysFromSun => match weekday_from_sunday_number(v) {
            Some(w) => spec_set_weekday(p, w),
            None => (p, Err(ParseError::OutOfRange)),
        },
        Numeric::YearDiv100 => spec_set_year_div_100(p, v),
        Numeric::YearMod100 => spec_set_year_mod_100(p, v),
        Numeric::Ordinal => spec_set_ordinal(p, v),
    }
}

/// Recording an offset that was read (the position after it and its value).
pub open spec fn spec_offset_step(p: Parsed, s: Seq<char>, read: Result<(int, int), ParseError>) -> (Parsed, Result<int, ParseError>) {
    match read {
        Ok((q, off)) => {
            let (p1, r) = spec_set_offset(p, off);
            match r {
                Ok(_) => (p1, Ok(q)),
                Err(e) => (p1, Err(e)),
            }
        },
        Err(e) => (p, Err(e)),
    }
}

/// Recording a fraction of a second that was read (the position after it and its value).
pub open spec fn spec_nanos_step(p: Parsed, read: Result<(int, int), ParseError>) -> (Parsed, Result<int, ParseError>) {
    match read {
        Ok((q, v)) => {
            let (p1, r) = spec_set_nanosecond(p, v);
            match r {
                Ok(_) => (p1, Ok(q)),
                Err(e) => (p1, Err(e)),
            }
        },
        Err(e) => (p, Err(e)),
    }
}

/// The effect of one item at `pos`: the fields afterwards and the position after it.
pub open spec fn spec_item_step(p: Parsed, s: Seq<char>, pos: int, item: Item) -> (Parsed, Result<int, ParseError>) {
    match item {
        Item::Literal(c) => if utf8_bytes(rest(s, pos)) < utf8_len(c) {
            (p, Err(ParseError::TooShort))
        } else if pos < s.len() && s[pos] == c {
            (p, Ok(pos + 1))
        } else {
            (p, Err(ParseError::Invalid))
        },
        Item::Space => (p, Ok(skip_whitespace(s, pos))),
        Item::MinBytes(n) => if utf8_bytes(rest(s, pos)) < n {
            (p, Err(ParseError::TooShort))
        } else {
            (p, Ok(pos))
        },
        Item::Numeric(n) => match spec_numeric_value(s, pos, n) {
            Ok((q, v)) => {
                let (p1, r) = spec_set_numeric(p, n, v);
                match r {
                    Ok(_) => (p1, Ok(q)),
                    Err(e) => (p1, Err(e)),
                }
            },
            Err(e) => (p, Err(e)),
        },
        Item::Fixed(Fixed::Nanosecond) => if 0 <= pos < s.len() && s[pos] == '.' {
            match spec_nanosecond(s, pos + 1) {
                Ok((q, v)) => {
                    let (p1, r) = spec_set_nanosecond(p, v);
                    match r {
                        Ok(_) => (p1, Ok(q)),
                        Err(e) => (p1, Err(e)),
                    }
                },
                Err(e) => (p, Err(e)),
            }
        } else {
            (p, Ok(pos))
        },
        Item::Fixed(Fixed::ShortWeekdayName) => match spec_short_weekday(s, pos) {
            Ok((q, w)) => {
                let (p1, r) = spec_set_weekday(p, w);
                match r {
                    Ok(_) => (p1, Ok(q)),
                    Err(e) => (p1, Err(e)),
                }
            },
            Err(e) => (p, Err(e)),
        },
        Item::Fixed(Fixed::LongWeekdayName) => match spec_short_or_long_weekday(s, pos) {
            Ok((q, w)) => {
                let (p1, r) = spec_set_weekday(p, w);
                match r {
                    Ok(_) => (p1, Ok(q)),
                    Err(e) => (p1, Err(e)),
                }
            },
            Err(e) => (p, Err(e)),
        },
        Item::Fixed(Fixed::ShortMonthName) => match spec_short_month(s, pos) {
            Ok((q, m)) => {
                let (p1, r) = spec_set_month(p, m);
                match r {
                    Ok(_) => (p1, Ok(q)),
                    Err(e) => (p1, Err(e)),
                }
            },
            Err(e) => (p, Err(e)),
        },
        Item::Fixed(Fixed::LongMonthName) => match spec_short_or_long_month(s, pos) {
            Ok((q, m)) => {
                let (p1, r) = spec_set_month(p, m);
                match r {
                    Ok(_) => (p1, Ok(q)),
                    Err(e) => (p1, Err(e)),
                }
            },
            Err(e) => (p, Err(e)),
        },
        Item::Fixed(Fixed::LowerAmPm) | Item::Fixed(Fixed::UpperAmPm) => match spec_ampm(s, pos) {
            Ok((q, pm)) => {
                let (p1, r) = spec_set_ampm(p, pm);
                match r {
                    Ok(_) => (p1, Ok(q)),
                    Err(e) => (p1, Err(e)),
                }
            },
            Err(e) => (p, Err(e)),
        },
        Item::Fixed(Fixed::TimezoneName) => (p, Ok(skip_non_whitespace(s, pos))),
        Item::Fixed(Fixed::Nanosecond3NoDot) => spec_nanos_step(p, spec_nanosecond_fixed(s, pos, 3)),
        Item::Fixed(Fixed::Nanosecond6NoDot) => spec_nanos_step(p, spec_nanosecond_fixed(s, pos, 6)),
        Item::Fixed(Fixed::Nanosecond9NoDot) => spec_nanos_step(p, spec_nanosecond_fixed(s, pos, 9)),
        Item::Fixed(Fixed::TimezoneOffset) => spec_offset_step(p, s, spec_timezone_offset_with(s, skip_whitespace(s, pos), false, false)),
        Item::Fixed(Fixed::TimezoneOffsetPermissive) => spec_offset_step(p, s, spec_timezone_offset_with(s, skip_whitespace(s, pos), true, true)),
        Item::Error => (p, Err(ParseError::BadFormat)),
    }
}

/// The effect of a list of items starting at `pos`; stops at the first error.
pub open spec fn spec_parse_items(p: Parsed, s: Seq<char>, pos: int, items: Seq<Item>) -> (Parsed, Result<int, ParseError>)
    decreases items.len(),
{
    if items.len() == 0 {
        (p, Ok(pos))
    } else {
        let (p1, r) = spec_item_step(p, s, pos, items[0]);
        match r {
            Ok(q) => spec_parse_items(p1, s, q, items.drop_first()),
            Err(e) => (p1, Err(e)),
        }
    }
}

/// Parsing the whole of `s` with `items`: as `spec_parse_items`, and text left over is `TooLong`.
pub open spec fn spec_parse(p: Parsed, s: Seq<char>, items: Seq<Item>) -> (Parsed, Result<(), ParseError>) {
    let (p1, r) = spec_parse_items(p, s, 0, items);
    match r {
        Ok(q) => if q < s.len() {
            (p1, Err(ParseError::TooLong))
        } else {
            (p1, Ok(()))
        },
        Err(e) => (p1, Err(e)),
    }
}

/// Parsing the full English name of any weekday with the one item of a full weekday name
/// reads the whole name and records exactly that weekday.
#[verifier::spinoff_prover]
#[verifier::rlimit(50)]
pub proof fn lemma_long_weekday_name_item(w: Weekday)
    ensures
        spec_parse(empty_parsed(), long_name(w), seq![Item::Fixed(Fixed::LongWeekdayName)]) == (
        Parsed { weekday: Some(w), ..empty_parsed() },
        Ok::<(), ParseError>(()),
        ),
{
    let s = long_name(w);
    assert(rest(s, 0) =~= s);
    lemma_utf8_bytes_at_least_len(s);
    assert(spec_short_weekday(s, 0) == Ok::<(int, Weekday), ParseError>((3, w)));
    let suffix = long_weekday_suffix(w);
    assert(3 + suffix.len() == s.len());
    assert forall|i: int| 0 <= i < suffix.len() implies ascii_ci_eq(#[trigger] s[3 + i], suffix[i]) by {
        assert(s[3 + i] == suffix[i]);
    }
    assert(starts_with_ci(s, 3, suffix));
    assert(spec_short_or_long_weekday(s, 0) == Ok::<(int, Weekday), ParseError>((s.len() as int, w)));
    let p1 = Parsed { weekday: Some(w), ..empty_parsed() };
    assert(spec_set_weekday(empty_parsed(), w) == (p1, Ok::<(), ParseError>(())));
    let items = seq![Item::Fixed(Fixed::LongWeekdayName)];
    assert(spec_item_step(empty_parsed(), s, 0, items[0]) == (p1, Ok::<int, ParseError>(s.len() as int)));
    assert(items.drop_first() =~= Seq::<Item>::empty());
    assert(spec_parse_items(p1, s, s.len() as int, items.drop_first()) == (p1, Ok::<int, ParseError>(s.len() as int)));
    assert(spec_parse_items(empty_parsed(), s, 0, items) == (p1, Ok::<int, ParseError>(s.len() as int)));
}

/// The fraction item reads a point followed by one to nine digits as that fraction of a
/// second (the first digit counting tenths), records it in nanoseconds and ends after the
/// last digit.
pub proof fn law_fraction_item(p: Parsed, s: Seq<char>, pos: int, k: int)
    requires
        p.nanosecond is None,
        0 <= pos,
        pos + 1 + k <= s.len(),
        s[pos] == '.',
        1 <= k <= 9,
        forall|i: int| pos + 1 <= i < pos + 1 + k ==> is_digit(#[trigger] s[i]),
        pos + 1 + k == s.len() || !is_digit(s[pos + 1 + k]),
    ensures
        spec_item_step(p, s, pos, Item::Fixed(Fixed::Nanosecond)) == (
        Parsed { nanosecond: Some(fraction_nanos(s.subrange(pos + 1, pos + 1 + k)) as u32), ..p },
        Ok::<int, ParseError>(pos + 1 + k),
        ),
{
    law_fraction_is_seconds(s, pos + 1, k);
    let d = s.subrange(pos + 1, pos + 1 + k);
    assert forall|i: int| 0 <= i < d.len() implies is_digit(#[trigger] d[i]) by {
        assert(d[i] == s[pos + 1 + i]);
    }
    lemma_fraction_nanos_bounds(d);
}

/// Reading the first three letters of the English name of any weekday with the item of
/// a weekday abbreviation, or with the item of a full weekday name, reads the whole text
/// and records exactly that weekday.
#[verifier::spinoff_prover]
#[verifier::rlimit(50)]
pub proof fn lemma_short_weekday_name_items(w: Weekday)
    ensures
        spec_parse(empty_parsed(), long_name(w).subrange(0, 3), seq![Item::Fixed(Fixed::ShortWeekdayName)]) == (
        Parsed { weekday: Some(w), ..empty_parsed() },
        Ok::<(), ParseError>(()),
        ),
        spec_parse(empty_parsed(), long_name(w).subrange(0, 3), seq![Item::Fixed(Fixed::LongWeekdayName)]) == (
        Parsed { weekday: Some(w), ..empty_parsed() },
        Ok::<(), ParseError>(()),
        ),
{
    let s = long_name(w).subrange(0, 3);
    assert(s.len() == 3);
    assert(rest(s, 0) =~= s);
    lemma_utf8_bytes_at_least_len(s);
    assert(s[0] == long_name(w)[0] && s[1] == long_name(w)[1] && s[2] == long_name(w)[2]);
    assert(weekday_from_abbrev(s[0], s[1], s[2]) == Some(w));
    assert(spec_short_weekday(s, 0) == Ok::<(int, Weekday), ParseError>((3, w)));
    assert(!starts_with_ci(s, 3, long_weekday_suffix(w)));
    assert(spec_short_or_long_weekday(s, 0) == Ok::<(int, Weekday), ParseError>((3, w)));
    let p1 = Parsed { weekday: Some(w), ..empty_parsed() };
    assert(spec_set_weekday(empty_parsed(), w) == (p1, Ok::<(), ParseError>(())));
    let short = seq![Item::Fixed(Fixed::ShortWeekdayName)];
    let long = seq![Item::Fixed(Fixed::LongWeekdayName)];
    assert(short.drop_first() =~= Seq::<Item>::empty());
    assert(long.drop_first() =~= Seq::<Item>::empty());
    assert(spec_item_step(empty_parsed(), s, 0, short[0]) == (p1, Ok::<int, ParseError>(3)));
    assert(spec_item_step(empty_parsed(), s, 0, long[0]) == (p1, Ok::<int, ParseError>(3)));
    assert(spec_parse_items(p1, s, 3, short.drop_first()) == (p1, Ok::<int, ParseError>(3)));
    assert(spec_parse_items(empty_parsed(), s, 0, short) == (p1, Ok::<int, ParseError>(3)));
    assert(spec_parse_items(empty_parsed(), s, 0, long) == (p1, Ok::<int, ParseError>(3)));
}

/// The weekday numbers follow the order of the week: Monday is 1 and Sunday 7 when
/// counting from Monday, Sunday 0 and Saturday 6 when counting from Sunday.
pub proof fn law_weekday_numbers(w: Weekday)
    ensures
        weekday_from_monday_number(spec_num_days_from_monday(w) + 1) == Some(w),
        weekday_from_sunday_number((spec_num_days_from_monday(w) + 1) % 7) == Some(w),
{
}

/// The three-letter English abbreviations of the months, January first.
pub open spec fn english_month_abbreviation(m: int) -> Seq<char> {
    seq![
        seq!['J', 'a', 'n'],
        seq!['F', 'e', 'b'],
        seq!['M', 'a', 'r'],
        seq!['A', 'p', 'r'],
        seq!['M', 'a', 'y'],
        seq!['J', 'u', 'n'],
        seq!['J', 'u', 'l'],
        seq!['A', 'u', 'g'],
        seq!['S', 'e', 'p'],
        seq!['O', 'c', 't'],
        seq!['N', 'o', 'v'],
        seq!['D', 'e', 'c'],
    ][m - 1]
}

/// The full English names of the months, January first.
pub open spec fn english_month_name(m: int) -> Seq<char> {
    seq![
        seq!['J', 'a', 'n', 'u', 'a', 'r', 'y'],
        seq!['F', 'e', 'b', 'r', 'u', 'a', 'r', 'y'],
        seq!['M', 'a', 'r', 'c', 'h'],
        seq!['A', 'p', 'r', 'i', 'l'],
        seq!['M', 'a', 'y'],
        seq!['J', 'u', 'n', 'e'],
        seq!['J', 'u', 'l', 'y'],
        seq!['A', 'u', 'g', 'u', 's', 't'],
        seq!['S', 'e', 'p', 't', 'e', 'm', 'b', 'e', 'r'],
        seq!['O', 'c', 't', 'o', 'b', 'e', 'r'],
        seq!['N', 'o', 'v', 'e', 'm', 'b', 'e', 'r'],
        seq!['D', 'e', 'c', 'e', 'm', 'b', 'e', 'r'],
    ][m - 1]
}

proof fn lemma_month_tables(m: int)
    requires
        1 <= m <= 12,
    ensures
        english_month_abbreviation(m).len() == 3,
        month_from_abbrev(
            english_month_abbreviation(m)[0],
            english_month_abbreviation(m)[1],
            english_month_abbreviation(m)[2],
        ) == Some(m),
        english_month_name(m).len() == 3 + long_month_suffix(m).len(),
        english_month_name(m).subrange(0, 3) == english_month_abbreviation(m),
        forall|i: int| 0 <= i < long_month_suffix(m).len() ==> english_month_name(m)[3 + i] == #[trigger] long_month_suffix(m)[i],
{
    let a = english_month_abbreviation(m);
    let n = english_month_name(m);
    let x = long_month_suffix(m);
    if m == 1 {
        assert(a == seq!['J', 'a', 'n']);
        assert(n == seq!['J', 'a', 'n', 'u', 'a', 'r', 'y']);
    } else if m == 2 {
        assert(a == seq!['F', 'e', 'b']);
        assert(n == seq!['F', 'e', 'b', 'r', 'u', 'a', 'r', 'y']);
    } else if m == 3 {
        assert(a == seq!['M', 'a', 'r']);
        assert(n == seq!['M', 'a', 'r', 'c', 'h']);
    } else if m == 4 {
        assert(a == seq!['A', 'p', 'r']);
        assert(n == seq!['A', 'p', 'r', 'i', 'l']);
    } else if m == 5 {
        assert(a == seq!['M', 'a', 'y']);
        assert(n == seq!['M', 'a', 'y']);
    } else if m == 6 {
        assert(a == seq!['J', 'u', 'n']);
        assert(n == seq!['J', 'u', 'n', 'e']);
    } else if m == 7 {
        assert(a == seq!['J', 'u', 'l']);
        assert(n == seq!['J', 'u', 'l', 'y']);
    } else if m == 8 {
        assert(a == seq!['A', 'u', 'g']);
        assert(n == seq!['A', 'u', 'g', 'u', 's', 't']);
    } else if m == 9 {
        assert(a == seq!['S', 'e', 'p']);
        assert(n == seq!['S', 'e', 'p', 't', 'e', 'm', 'b', 'e', 'r']);
    } else if m == 10 {
        assert(a == seq!['O', 'c', 't']);
        assert(n == seq!['O', 'c', 't', 'o', 'b', 'e', 'r']);
    } else if m == 11 {
        assert(a == seq!['N', 'o', 'v']);
        assert(n == seq!['N', 'o', 'v', 'e', 'm', 'b', 'e', 'r']);
    } else {
        assert(a == seq!['D', 'e', 'c']);
        assert(n == seq!['D', 'e', 'c', 'e', 'm', 'b', 'e', 'r']);
    }
    assert(n.subrange(0, 3) =~= a);
}

/// Reading the English abbreviation of a month with the item of a month abbreviation, or
/// its abbreviation or full name with the item of a full month name, reads the whole text
/// and records exactly that month.
#[verifier::spinoff_prover]
#[verifier::rlimit(50)]
pub proof fn lemma_month_name_items(m: int)
    requires
        1 <= m <= 12,
    ensures
        spec_parse(empty_parsed(), english_month_abbreviation(m), seq![Item::Fixed(Fixed::ShortMonthName)]) == (
        Parsed { month: Some(m as u32), ..empty_parsed() },
        Ok::<(), ParseError>(()),
        ),
        spec_parse(empty_parsed(), english_month_abbreviation(m), seq![Item::Fixed(Fixed::LongMonthName)]) == (
        Parsed { month: Some(m as u32), ..empty_parsed() },
        Ok::<(), ParseError>(()),
        ),
        spec_parse(empty_parsed(), english_month_name(m), seq![Item::Fixed(Fixed::LongMonthName)]) == (
        Parsed { month: Some(m as u32), ..empty_parsed() },
        Ok::<(), ParseError>(()),
        ),
{
    lemma_month_tables(m);
    let a = english_month_abbreviation(m);
    let n = english_month_name(m);
    let x = long_month_suffix(m);
    let p1 = Parsed { month: Some(m as u32), ..empty_parsed() };
    assert(spec_set_month(empty_parsed(), m) == (p1, Ok::<(), ParseError>(())));
    // The abbreviation.
    assert(rest(a, 0) =~= a);
    lemma_utf8_bytes_at_least_len(a);
    assert(spec_short_month(a, 0) == Ok::<(int, int), ParseError>((3, m)));
    let short = seq![Item::Fixed(Fixed::ShortMonthName)];
    assert(short.drop_first() =~= Seq::<Item>::empty());
    assert(spec_item_step(empty_parsed(), a, 0, short[0]) == (p1, Ok::<int, ParseError>(3)));
    assert(spec_parse_items(p1, a, 3, short.drop_first()) == (p1, Ok::<int, ParseError>(3)));
    assert(spec_parse_items(empty_parsed(), a, 0, short) == (p1, Ok::<int, ParseError>(3)));
    // The abbreviation, read as a full name.
    let long = seq![Item::Fixed(Fixed::LongMonthName)];
    assert(long.drop_first() =~= Seq::<Item>::empty());
    if x.len() > 0 {
        assert(!starts_with_ci(a, 3, x));
    }
    assert(spec_short_or_long_month(a, 0) == Ok::<(int, int), ParseError>((3, m)));
    assert(spec_item_step(empty_parsed(), a, 0, long[0]) == (p1, Ok::<int, ParseError>(3)));
    assert(spec_parse_items(p1, a, 3, long.drop_first()) == (p1, Ok::<int, ParseError>(3)));
    assert(spec_parse_items(empty_parsed(), a, 0, long) == (p1, Ok::<int, ParseError>(3)));
    // The full name.
    assert(rest(n, 0) =~= n);
    lemma_utf8_bytes_at_least_len(n);
    assert(n[0] == a[0] && n[1] == a[1] && n[2] == a[2]);
    assert(spec_short_month(n, 0) == Ok::<(int, int), ParseError>((3, m)));
    assert forall|i: int| 0 <= i < x.len() implies ascii_ci_eq(#[trigger] n[3 + i], x[i]) by {
        assert(n[3 + i] == x[i]);
    }
    assert(starts_with_ci(n, 3, x));
    assert(spec_short_or_long_month(n, 0) == Ok::<(int, int), ParseError>((n.len() as int, m)));
    assert(spec_item_step(empty_parsed(), n, 0, long[0]) == (p1, Ok::<int, ParseError>(n.len() as int)));
    assert(spec_parse_items(p1, n, n.len() as int, long.drop_first()) == (p1, Ok::<int, ParseError>(n.len() as int)));
    assert(spec_parse_items(empty_parsed(), n, 0, long) == (p1, Ok::<int, ParseError>(n.len() as int)));
}

/// The weekday numbered `v` counting Monday as 1; any other number is `OutOfRange`.
fn weekday_from_monday_number_exec(v: i64) -> (r: Result<Weekday, ParseError>)
    ensures
        r matches Ok(w) ==> weekday_from_monday_number(v as int) == Some(w),
        r matches Err(e) ==> weekday_from_monday_number(v as int) is None && e == ParseError::OutOfRange,
{
    if v == 1 {
        Ok(Weekday::Mon)
    } else if v == 2 {
        Ok(Weekday::Tue)
    } else if v == 3 {
        Ok(Weekday::Wed)
    } else if v == 4 {
        Ok(Weekday::Thu)
    } else if v == 5 {
        Ok(Weekday::Fri)
    } else if v == 6 {
        Ok(Weekday::Sat)
    } else if v == 7 {
        Ok(Weekday::Sun)
    } else {
        Err(ParseError::OutOfRange)
    }
}

/// The weekday numbered `v` counting Sunday as 0; any other number is `OutOfRange`.
fn weekday_from_sunday_number_exec(v: i64) -> (r: Result<Weekday, ParseError>)
    ensures
        r matches Ok(w) ==> weekday_from_sunday_number(v as int) == Some(w),
        r matches Err(e) ==> weekday_from_sunday_number(v as int) is None && e == ParseError::OutOfRange,
{
    if v == 0 {
        Ok(Weekday::Sun)
    } else {
        weekday_from_monday_number_exec(v)
    }
}

/// Applies one item at `pos`.
fn parse_item(parsed: &mut Parsed, s: &Vec<char>, pos: usize, item: Item) -> (r: Result<usize, ParseError>)
    requires
        pos <= s.len(),
    ensures
        r matches Ok(q) ==> spec_item_step(*old(parsed), s@, pos as int, item) == (*final(parsed), Ok::<int, ParseError>(q as int)) && q <= s.len(),
        r matches Err(e) ==> spec_item_step(*old(parsed), s@, pos as int, item) == (*final(parsed), Err::<int, ParseError>(e)),
{
    match item {
        Item::Literal(c) => {
            if !bytes_at_least(s, pos, utf8_len_exec(c)) {
                Err(ParseError::TooShort)
            } else if pos < s.len() && s[pos] == c {
                Ok(pos + 1)
            } else {
                Err(ParseError::Invalid)
            }
        },
        Item::Space => Ok(skip_whitespace_exec(s, pos)),
        Item::MinBytes(n) => {
            if !bytes_at_least(s, pos, n) {
                Err(ParseError::TooShort)
            } else {
                Ok(pos)
            }
        },
        Item::Numeric(n) => {
            let q = skip_whitespace_exec(s, pos);
            let (r, v) = match n {
                Numeric::Year => if q < s.len() && s[q] == '-' {
                    let (r, v) = number(s, q + 1, s.len())?;
                    (r, 0 - v)
                } else if q < s.len() && s[q] == '+' {
                    number(s, q + 1, s.len())?
                } else {
                    number(s, q, 4)?
                },
                Numeric::WeekdayFromMon | Numeric::NumDaysFromSun => number(s, q, 1)?,
                Numeric::Nanosecond => number(s, q, 9)?,
                Numeric::Ordinal => number(s, q, 3)?,
                _ => number(s, q, 2)?,
            };
            match n {
                Numeric::Year => parsed.set_year(v)?,
                Numeric::Month => parsed.set_month(v)?,
                Numeric::Day => parsed.set_day(v)?,
                Numeric::Hour => parsed.set_hour(v)?,
                Numeric::Minute => parsed.set_minute(v)?,
                Numeric::Second => parsed.set_second(v)?,
                Numeric::Hour12 => parsed.set_hour12(v)?,
                Numeric::Nanosecond => parsed.set_nanosecond(v)?,
                Numeric::WeekdayFromMon => parsed.set_weekday(weekday_from_monday_number_exec(v)?)?,
                Numeric::NumDaysFromSun => parsed.set_weekday(weekday_from_sunday_number_exec(v)?)?,
                Numeric::YearDiv100 => parsed.set_year_div_100(v)?,
                Numeric::YearMod100 => parsed.set_year_mod_100(v)?,
                Numeric::Ordinal => parsed.set_ordinal(v)?,
            }
            Ok(r)
        },
        Item::Fixed(Fixed::Nanosecond) => {
            if pos < s.len() && s[pos] == '.' {
                let (q, v) = nanosecond(s, pos + 1)?;
                parsed.set_nanosecond(v)?;
                Ok(q)
            } else {
                Ok(pos)
            }
        },
        Item::Fixed(Fixed::ShortWeekdayName) => {
            let (q, w) = short_weekday(s, pos)?;
            parsed.set_weekday(w)?;
            Ok(q)
        },
        Item::Fixed(Fixed::LongWeekdayName) => {
            let (q, w) = short_or_long_weekday(s, pos)?;
            parsed.set_weekday(w)?;
            Ok(q)
        },
        Item::Fixed(Fixed::ShortMonthName) => {
            let (q, m) = short_month(s, pos)?;
            parsed.set_month(m)?;
            Ok(q)
        },
        Item::Fixed(Fixed::LongMonthName) => {
            let (q, m) = short_or_long_month(s, pos)?;
            parsed.set_month(m)?;
            Ok(q)
        },
        Item::Fixed(Fixed::LowerAmPm) | Item::Fixed(Fixed::UpperAmPm) => {
            let (q, pm) = ampm(s, pos)?;
            parsed.set_ampm(pm)?;
            Ok(q)
        },
        Item::Fixed(Fixed::TimezoneName) => Ok(skip_non_whitespace_exec(s, pos)),
        Item::Fixed(Fixed::Nanosecond3NoDot) | Item::Fixed(Fixed::Nanosecond6NoDot) | Item::Fixed(
            Fixed::Nanosecond9NoDot,
        ) => {
            let k: usize = match item {
                Item::Fixed(Fixed::Nanosecond3NoDot) => 3,
                Item::Fixed(Fixed::Nanosecond6NoDot) => 6,
                _ => 9,
            };
            let (q, v) = nanosecond_fixed(s, pos, k)?;
            parsed.set_nanosecond(v)?;
            Ok(q)
        },
        Item::Fixed(Fixed::TimezoneOffset) => {
            let q0 = skip_whitespace_exec(s, pos);
            let (q, off) = timezone_offset_with(s, q0, false, false)?;
            parsed.set_offset(off as i64)?;
            Ok(q)
        },
        Item::Fixed(Fixed::TimezoneOffsetPermissive) => {
            let q0 = skip_whitespace_exec(s, pos);
            let (q, off) = timezone_offset_with(s, q0, true, true)?;
            parsed.set_offset(off as i64)?;
            Ok(q)
        },
        Item::Error => Err(ParseError::BadFormat),
    }
}

/// Parses the whole of `s` with `items`, recording the fields in `parsed`.
pub fn parse(parsed: &mut Parsed, s: &str, items: &Vec<Item>) -> (r: Result<(), ParseError>)
    ensures
        (*final(parsed), r) == spec_parse(*old(parsed), s@, items@),
{
    let chars = chars_of(s);
    parse_chars(parsed, &chars, items)
}

/// Applies `items` in turn from `pos`; stops at the first error.
pub fn parse_items_at(parsed: &mut Parsed, s: &Vec<char>, start: usize, items: &Vec<Item>) -> (r: Result<usize, ParseError>)
    requires
        start <= s.len(),
    ensures
        r matches Ok(q) ==> spec_parse_items(*old(parsed), s@, start as int, items@) == (*final(parsed), Ok::<int, ParseError>(q as int)) && q <= s.len(),
        r matches Err(e) ==> spec_parse_items(*old(parsed), s@, start as int, items@) == (*final(parsed), Err::<int, ParseError>(e)),
{
    let ghost p0 = *parsed;
    let mut pos: usize = start;
    let mut i: usize = 0;
    assert(items@.subrange(0, items@.len() as int) =~= items@);
    while i < items.len()
        invariant
            i <= items.len(),
            pos <= s.len(),
            p0 == *old(parsed),
            spec_parse_items(p0, s@, start as int, items@) == spec_parse_items(*parsed, s@, pos as int, items@.subrange(i as int, items@.len() as int)),
        decreases items.len() - i,
    {
        let ghost before = *parsed;
        let ghost tail = items@.subrange(i as int, items@.len() as int);
        assert(tail[0] == items@[i as int]);
        assert(tail.drop_first() =~= items@.subrange(i + 1, items@.len() as int));
        match parse_item(parsed, s, pos, items[i]) {
            Ok(q) => {
                pos = q;
            },
            Err(e) => {
                assert(spec_parse_items(before, s@, pos as int, tail) == (*parsed, Err::<int, ParseError>(e)));
                assert(spec_parse_items(p0, s@, start as int, items@) == (*parsed, Err::<int, ParseError>(e)));
                return Err(e);
            },
        }
        i = i + 1;
    }
    assert(items@.subrange(i as int, items@.len() as int) =~= Seq::<Item>::empty());
    Ok(pos)
}

/// Parses the whole of `s`, given as characters, with `items`.
pub fn parse_chars(parsed: &mut Parsed, s: &Vec<char>, items: &Vec<Item>) -> (r: Result<(), ParseError>)
    ensures
        (*final(parsed), r) == spec_parse(*old(parsed), s@, items@),
{
    let q = parse_items_at(parsed, s, 0, items)?;
    if q < s.len() {
        Err(ParseError::TooLong)
    } else {
        Ok(())
    }
}

} // verus!
