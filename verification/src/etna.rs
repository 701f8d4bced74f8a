//! The properties: each runs one piece of the library on one input and reports whether the
//! piece behaved as it promises.

use vstd::prelude::*;
use crate::date::NaiveDate;
use crate::datetime::{DateTimeOffset, DateTimeUtc, RoundingError, TimeDelta, spec_timestamp_nanos_opt};
use crate::parse::{Parsed, parse};
use crate::strftime::{strftime_items, law_long_weekday_names_parse};
use crate::scan::ParseError;
use crate::text::{push_signed, push_date, push_datetime_utc};
use crate::weekday::{Weekday, long_name, spec_num_days_from_monday};

verus! {

/// The outcome of checking a property on one input.
#[derive(Debug, Clone, PartialEq, Eq)]
pub enum PropertyResult {
    /// The property holds on the input.
    Pass,
    /// The property fails on the input, with a description of how.
    Fail(String),
    /// The input is outside what the property speaks of.
    Discard,
}

/// Converting a day count to a date and back gives the day count again.
///
/// For every `i32` the conversion returns, and a date it returns has the day count it was
/// made from, so the result is always `Pass`.
pub fn property_from_num_days_from_ce_no_panic(days: i32) -> (r: PropertyResult)
    ensures
        r is Pass,
{
    match NaiveDate::from_num_days_from_ce_opt(days) {
        None => PropertyResult::Pass,
        Some(d) => {
            let back = d.num_days_from_ce();
            if back == days {
                PropertyResult::Pass
            } else {
                let mut msg = String::new();
                msg.append("from_num_days_from_ce_opt(");
                push_signed(&mut msg, days as i64);
                msg.append(") = Some(");
                push_date(&mut msg, &d);
                msg.append("); roundtrip = ");
                push_signed(&mut msg, back as i64);
                PropertyResult::Fail(msg)
            }
        },
    }
}

/// Reading any text as a date and time in the relaxed RFC 3339 form returns a result.
///
/// The reading is a total function of the text (`spec_from_str`): it gives a moment or an
/// error for every input, whatever bytes stand where, so the result is always `Pass`.
pub fn property_parse_rfc3339_no_panic(input: String) -> (r: PropertyResult)
    ensures
        r is Pass,
{
    let _parsed = DateTimeOffset::from_str(input.as_str());
    PropertyResult::Pass
}

/// The name that `Debug` gives a rounding error.
pub open spec fn rounding_error_text(e: RoundingError) -> Seq<char> {
    match e {
        RoundingError::DurationExceedsTimestamp => "DurationExceedsTimestamp"@,
        RoundingError::DurationExceedsLimit => "DurationExceedsLimit"@,
        RoundingError::TimestampExceedsLimit => "TimestampExceedsLimit"@,
    }
}

/// The name that `Debug` gives a rounding error.
fn rounding_error_debug(e: RoundingError) -> (s: &'static str)
    ensures
        s@ == rounding_error_text(e),
{
    match e {
        RoundingError::DurationExceedsTimestamp => "DurationExceedsTimestamp",
        RoundingError::DurationExceedsLimit => "DurationExceedsLimit",
        RoundingError::TimestampExceedsLimit => "TimestampExceedsLimit",
    }
}

/// Rounding a moment to a duration of zero is refused with `DurationExceedsLimit`.
///
/// The seed is brought within about 285 years of 1970 (`seed_secs % 9_000_000_000`
/// seconds), where every second is a moment; rounding it to zero is always refused in
/// that way, so the result is always `Pass`.
pub fn property_duration_round_zero_no_panic(seed_secs: i64) -> (r: PropertyResult)
    ensures
        r is Pass,
{
    // The remainder of `seed_secs / 9_000_000_000` rounded towards zero.
    let secs: i64 = if seed_secs < 0 {
        (0 - ((0 - seed_secs as i128) % 9_000_000_000)) as i64
    } else {
        seed_secs % 9_000_000_000
    };
    let dt = match DateTimeUtc::from_timestamp(secs, 0) {
        Some(t) => t,
        None => {
            proof {
                assert(crate::date::max_days_from_ce() == 95745399);
                assert(crate::date::min_days_from_ce() == -95746129);
            }
            return PropertyResult::Discard;
        },
    };
    let zero = TimeDelta::zero();
    proof {
        assert(spec_timestamp_nanos_opt(dt@) == Some(secs * 1_000_000_000int));
    }
    match dt.duration_round(zero) {
        Err(RoundingError::DurationExceedsLimit) => PropertyResult::Pass,
        Ok(d) => {
            if d == dt {
                PropertyResult::Pass
            } else {
                let mut msg = String::new();
                msg.append("duration_round(0) returned ");
                push_datetime_utc(&mut msg, &d);
                msg.append(" != ");
                push_datetime_utc(&mut msg, &dt);
                PropertyResult::Fail(msg)
            }
        },
        Err(other) => {
            let mut msg = String::new();
            msg.append("duration_round(0) = Err(");
            msg.append(rounding_error_debug(other));
            msg.append("), expected DurationExceedsLimit");
            PropertyResult::Fail(msg)
        },
    }
}

/// The name and the weekday of row `idx` of the table of full weekday names.
fn long_weekday_entry(idx: u8) -> (entry: (&'static str, Weekday))
    requires
        idx < 7,
    ensures
        entry.0@ == long_name(entry.1),
        spec_num_days_from_monday(entry.1) == idx,
{
    match idx {
        0 => {
            proof {
                reveal_strlit("Monday");
            }
            ("Monday", Weekday::Mon)
        },
        1 => {
            proof {
                reveal_strlit("Tuesday");
            }
            ("Tuesday", Weekday::Tue)
        },
        2 => {
            proof {
                reveal_strlit("Wednesday");
            }
            ("Wednesday", Weekday::Wed)
        },
        3 => {
            proof {
                reveal_strlit("Thursday");
            }
            ("Thursday", Weekday::Thu)
        },
        4 => {
            proof {
                reveal_strlit("Friday");
            }
            ("Friday", Weekday::Fri)
        },
        5 => {
            proof {
                reveal_strlit("Saturday");
            }
            ("Saturday", Weekday::Sat)
        },
        _ => {
            proof {
                reveal_strlit("Sunday");
            }
            ("Sunday", Weekday::Sun)
        },
    }
}

/// The name that `Debug` gives a weekday.
pub open spec fn weekday_debug_text(w: Weekday) -> Seq<char> {
    match w {
        Weekday::Mon => "Mon"@,
        Weekday::Tue => "Tue"@,
        Weekday::Wed => "Wed"@,
        Weekday::Thu => "Thu"@,
        Weekday::Fri => "Fri"@,
        Weekday::Sat => "Sat"@,
        Weekday::Sun => "Sun"@,
    }
}

/// The name that `Debug` gives a weekday.
fn weekday_debug(w: Weekday) -> (s: &'static str)
    ensures
        s@ == weekday_debug_text(w),
{
    match w {
        Weekday::Mon => "Mon",
        Weekday::Tue => "Tue",
        Weekday::Wed => "Wed",
        Weekday::Thu => "Thu",
        Weekday::Fri => "Fri",
        Weekday::Sat => "Sat",
        Weekday::Sun => "Sun",
    }
}

/// The text that `Debug` gives a parse error.
pub open spec fn parse_error_text(e: ParseError) -> Seq<char> {
    match e {
        ParseError::OutOfRange => "ParseError(OutOfRange)"@,
        ParseError::Impossible => "ParseError(Impossible)"@,
        ParseError::NotEnough => "ParseError(NotEnough)"@,
        ParseError::Invalid => "ParseError(Invalid)"@,
        ParseError::TooShort => "ParseError(TooShort)"@,
        ParseError::TooLong => "ParseError(TooLong)"@,
        ParseError::BadFormat => "ParseError(BadFormat)"@,
    }
}

/// The text that `Debug` gives a parse error.
fn parse_error_debug(e: ParseError) -> (s: &'static str)
    ensures
        s@ == parse_error_text(e),
{
    match e {
        ParseError::OutOfRange => "ParseError(OutOfRange)",
        ParseError::Impossible => "ParseError(Impossible)",
        ParseError::NotEnough => "ParseError(NotEnough)",
        ParseError::Invalid => "ParseError(Invalid)",
        ParseError::TooShort => "ParseError(TooShort)",
        ParseError::TooLong => "ParseError(TooLong)",
        ParseError::BadFormat => "ParseError(BadFormat)",
    }
}

/// Parsing each full weekday name with `%A` reads the whole name and gives that weekday.
///
/// Row `idx % 7` of the table (Monday first) is parsed; every row parses to its own
/// weekday, so the result is always `Pass`.
pub fn property_long_weekday_parses_full_name(idx: u8) -> (r: PropertyResult)
    ensures
        r is Pass,
{
    let (name, expected) = long_weekday_entry(idx % 7);
    let mut parsed = Parsed::new();
    let items = strftime_items("%A");
    let result = parse(&mut parsed, name, &items);
    proof {
        law_long_weekday_names_parse(expected);
    }
    match result {
        Err(e) => {
            let mut msg = String::new();
            msg.append("parse(%A, \"");
            msg.append(name);
            msg.append("\") = Err(");
            msg.append(parse_error_debug(e));
            msg.append(")");
            PropertyResult::Fail(msg)
        },
        Ok(()) => match parsed.weekday {
            Some(w) if w == expected => PropertyResult::Pass,
            other => {
                let mut msg = String::new();
                msg.append("parse(%A, \"");
                msg.append(name);
                msg.append("\") gave weekday=");
                match other {
                    Some(w) => {
                        msg.append("Some(");
                        msg.append(weekday_debug(w));
                        msg.append(")");
                    },
                    None => {
                        msg.append("None");
                    },
                }
                msg.append(", expected ");
                msg.append(weekday_debug(expected));
                PropertyResult::Fail(msg)
            },
        },
    }
}

} // verus!
