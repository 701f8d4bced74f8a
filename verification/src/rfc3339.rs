//! Reading a date and time in the relaxed RFC 3339 form: `2024-01-01T00:00:00Z`, where the
//! `T` may also be `t` or a space, whitespace may stand around the separators, a fraction of
//! a second may follow the seconds, and the offset may be `Z`, `UTC` (any case) or a signed
//! `hh:mm`.

use vstd::prelude::*;
use crate::datetime::DateTimeOffset;
use crate::parse::{
    Fixed, Item, Numeric, Parsed, consistent, empty_parsed, parse_items_at, spec_parse_items,
    spec_to_datetime,
};
use crate::scan::{
    ParseError, skip_whitespace, skip_whitespace_exec, spec_timezone_offset, starts_with_ci,
    starts_with_ci_exec, timezone_offset,
};
use crate::text::chars_of;

verus! {

/// The items of the date: year, `-`, month, `-`, day, with whitespace allowed around the dashes.
pub open spec fn date_items() -> Seq<Item> {
    seq![
        Item::Numeric(Numeric::Year),
        Item::Space,
        Item::Literal('-'),
        Item::Numeric(Numeric::Month),
        Item::Space,
        Item::Literal('-'),
        Item::Numeric(Numeric::Day),
    ]
}

/// The items of the time: hour, `:`, minute, `:`, second, an optional fraction, whitespace.
pub open spec fn time_items() -> Seq<Item> {
    seq![
        Item::Numeric(Numeric::Hour),
        Item::Space,
        Item::Literal(':'),
        Item::Numeric(Numeric::Minute),
        Item::Space,
        Item::Literal(':'),
        Item::Numeric(Numeric::Second),
        Item::Fixed(Fixed::Nanosecond),
        Item::Space,
    ]
}

fn date_items_exec() -> (items: Vec<Item>)
    ensures
        items@ == date_items(),
{
    let items = vec![
        Item::Numeric(Numeric::Year),
        Item::Space,
        Item::Literal('-'),
        Item::Numeric(Numeric::Month),
        Item::Space,
        Item::Literal('-'),
        Item::Numeric(Numeric::Day),
    ];
    assert(items@ =~= date_items());
    items
}

fn time_items_exec() -> (items: Vec<Item>)
    ensures
        items@ == time_items(),
{
    let items = vec![
        Item::Numeric(Numeric::Hour),
        Item::Space,
        Item::Literal(':'),
        Item::Numeric(Numeric::Minute),
        Item::Space,
        Item::Literal(':'),
        Item::Numeric(Numeric::Second),
        Item::Fixed(Fixed::Nanosecond),
        Item::Space,
    ];
    assert(items@ =~= time_items());
    items
}

/// The offset at `pos`: `UTC` in any case, else as `spec_timezone_offset` reads it.
pub open spec fn spec_offset_or_utc(s: Seq<char>, pos: int) -> Result<(int, int), ParseError> {
    if starts_with_ci(s, pos, seq!['u', 't', 'c']) {
        Ok((pos + 3, 0))
    } else {
        spec_timezone_offset(s, pos)
    }
}

/// The relaxed RFC 3339 form read from the start of `s` into the fields `p`: the fields
/// afterwards and the position after the offset.
///
/// The date must be followed by `T`, `t` or a space, and the time by an offset; text that
/// ends after the date or after the time is `NotEnough`.
pub open spec fn spec_parse_rfc3339_relaxed(p: Parsed, s: Seq<char>) -> (Parsed, Result<int, ParseError>) {
    let (p1, r1) = spec_parse_items(p, s, 0, date_items());
    match r1 {
        Err(e) => (p1, Err(e)),
        Ok(q1) => if q1 >= s.len() {
            (p1, Err(ParseError::NotEnough))
        } else if !(s[q1] == 'T' || s[q1] == 't' || s[q1] == ' ') {
            (p1, Err(ParseError::Invalid))
        } else {
            let (p2, r2) = spec_parse_items(p1, s, q1 + 1, time_items());
            match r2 {
                Err(e) => (p2, Err(e)),
                Ok(q2) => if q2 >= s.len() {
                    (p2, Err(ParseError::NotEnough))
                } else {
                    match spec_offset_or_utc(s, skip_whitespace(s, q2)) {
                        Err(e) => (p2, Err(e)),
                        Ok((q3, off)) => match consistent(p2.offset, off as i32) {
                            Ok(o) => (Parsed { offset: o, ..p2 }, Ok(q3)),
                            Err(e) => (p2, Err(e)),
                        },
                    }
                },
            }
        },
    }
}

/// The moment that the whole of `s` writes in the relaxed RFC 3339 form, as UTC and offset.
/// Whitespace may follow; any other text after the offset is `TooLong`.
pub open spec fn spec_from_str(s: Seq<char>) -> Result<((int, int, int), int), ParseError> {
    let (p, r) = spec_parse_rfc3339_relaxed(empty_parsed(), s);
    match r {
        Err(e) => Err(e),
        Ok(q) => if skip_whitespace(s, q) < s.len() {
            Err(ParseError::TooLong)
        } else {
            spec_to_datetime(p)
        },
    }
}

/// Reads the relaxed RFC 3339 form from the start of `s` into `parsed`; gives the position
/// after the offset.
pub fn parse_rfc3339_relaxed(parsed: &mut Parsed, s: &Vec<char>) -> (r: Result<usize, ParseError>)
    ensures
        r matches Ok(q) ==> spec_parse_rfc3339_relaxed(*old(parsed), s@) == (*final(parsed), Ok::<int, ParseError>(q as int)) && q <= s.len(),
        r matches Err(e) ==> spec_parse_rfc3339_relaxed(*old(parsed), s@) == (*final(parsed), Err::<int, ParseError>(e)),
{
    let q1 = parse_items_at(parsed, s, 0, &date_items_exec())?;
    if q1 >= s.len() {
        return Err(ParseError::NotEnough);
    }
    let c = s[q1];
    if !(c == 'T' || c == 't' || c == ' ') {
        return Err(ParseError::Invalid);
    }
    let q2 = parse_items_at(parsed, s, q1 + 1, &time_items_exec())?;
    if q2 >= s.len() {
        return Err(ParseError::NotEnough);
    }
    let q = skip_whitespace_exec(s, q2);
    let utc = vec!['u', 't', 'c'];
    assert(utc@ =~= seq!['u', 't', 'c']);
    let (q3, off): (usize, i32) = if starts_with_ci_exec(s, q, &utc) {
        (q + 3, 0)
    } else {
        timezone_offset(s, q)?
    };
    parsed.set_offset(off as i64)?;
    Ok(q3)
}

impl DateTimeOffset {
    /// The moment that the whole of `s` writes in the relaxed RFC 3339 form, seen at the
    /// offset written there.
    pub fn from_str(s: &str) -> (r: Result<DateTimeOffset, ParseError>)
        ensures
            r matches Ok(t) ==> spec_from_str(s@) == Ok::<((int, int, int), int), ParseError>(t@),
            r matches Err(e) ==> spec_from_str(s@) == Err::<((int, int, int), int), ParseError>(e),
    {
        let chars = chars_of(s);
        let mut parsed = Parsed::new();
        let q = parse_rfc3339_relaxed(&mut parsed, &chars)?;
        if skip_whitespace_exec(&chars, q) < chars.len() {
            return Err(ParseError::TooLong);
        }
        parsed.to_datetime()
    }
}

} // verus!
