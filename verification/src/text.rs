//! Building text: decimal numbers and fixed pieces appended to a `String`.

use vstd::prelude::*;
use crate::date::{NaiveDate, is_month_day, days_from_ce};
use crate::datetime::{DateTimeUtc, is_valid_time};

verus! {

/// `String::push` (std) appends the character `ch` at the end of the string.
pub assume_specification[ String::push ](string: &mut String, ch: char)
    ensures
        final(string)@ == old(string)@.push(ch),
;

/// The character of the decimal digit `d` (0 to 9).
pub open spec fn digit_char(d: int) -> char {
    if d == 0 {
        '0'
    } else if d == 1 {
        '1'
    } else if d == 2 {
        '2'
    } else if d == 3 {
        '3'
    } else if d == 4 {
        '4'
    } else if d == 5 {
        '5'
    } else if d == 6 {
        '6'
    } else if d == 7 {
        '7'
    } else if d == 8 {
        '8'
    } else {
        '9'
    }
}

/// The decimal digits of `n`, without leading zeros.
pub open spec fn decimal(n: nat) -> Seq<char>
    decreases n,
{
    if n < 10 {
        seq![digit_char(n as int)]
    } else {
        decimal(n / 10).push(digit_char((n % 10) as int))
    }
}

/// The decimal digits of `n`, with zeros in front up to `width` characters.
pub open spec fn padded(n: nat, width: nat) -> Seq<char> {
    let digits = decimal(n);
    if digits.len() < width {
        Seq::new((width - digits.len()) as nat, |i: int| '0') + digits
    } else {
        digits
    }
}

/// The decimal text of `v`, with a minus sign when negative.
pub open spec fn signed_decimal(v: int) -> Seq<char> {
    if v < 0 {
        seq!['-'] + decimal((-v) as nat)
    } else {
        decimal(v as nat)
    }
}

fn digit_exec(d: u128) -> (c: char)
    requires
        d < 10,
    ensures
        c == digit_char(d as int),
{
    if d == 0 {
        '0'
    } else if d == 1 {
        '1'
    } else if d == 2 {
        '2'
    } else if d == 3 {
        '3'
    } else if d == 4 {
        '4'
    } else if d == 5 {
        '5'
    } else if d == 6 {
        '6'
    } else if d == 7 {
        '7'
    } else if d == 8 {
        '8'
    } else {
        '9'
    }
}

/// Appends the decimal digits of `n`.
pub fn push_decimal(s: &mut String, n: u128)
    ensures
        final(s)@ == old(s)@ + decimal(n as nat),
    decreases n,
{
    if n >= 10 {
        push_decimal(s, n / 10);
    }
    s.push(digit_exec(n % 10));
    proof {
        if n >= 10 {
            assert(old(s)@ + decimal(n as nat) =~= old(s)@ + decimal((n / 10) as nat) + seq![digit_char((n % 10) as int)]);
        } else {
            assert(old(s)@ + decimal(n as nat) =~= old(s)@.push(digit_char(n as int)));
        }
    }
}

/// The number of decimal digits of `n`.
fn decimal_len(n: u128) -> (len: u128)
    ensures
        len == decimal(n as nat).len(),
        1 <= len <= n as int + 1,
    decreases n,
{
    if n < 10 {
        1
    } else {
        decimal_len(n / 10) + 1
    }
}

/// Appends the decimal digits of `n`, with zeros in front up to `width` characters.
pub fn push_padded(s: &mut String, n: u128, width: u128)
    ensures
        final(s)@ == old(s)@ + padded(n as nat, width as nat),
{
    let len = decimal_len(n);
    let mut i = len;
    while i < width
        invariant
            len <= i,
            i <= width || i == len,
            s@ == old(s)@ + Seq::new((i - len) as nat, |k: int| '0'),
        decreases width - i,
    {
        s.push('0');
        i = i + 1;
        assert(s@ =~= old(s)@ + Seq::new((i - len) as nat, |k: int| '0'));
    }
    push_decimal(s, n);
    assert(final(s)@ =~= old(s)@ + padded(n as nat, width as nat)) by {
        if len >= width {
            assert(Seq::new((i - len) as nat, |k: int| '0') =~= Seq::<char>::empty());
        }
    }
}

/// Appends the decimal text of `v`, with a minus sign when negative.
pub fn push_signed(s: &mut String, v: i64)
    ensures
        final(s)@ == old(s)@ + signed_decimal(v as int),
{
    if v < 0 {
        s.push('-');
        let magnitude: u128 = (0i128 - v as i128) as u128;
        push_decimal(s, magnitude);
        assert(final(s)@ =~= old(s)@ + signed_decimal(v as int));
    } else {
        push_decimal(s, v as u128);
    }
}

/// The characters of `s`, one by one.
pub fn chars_of(s: &str) -> (v: Vec<char>)
    ensures
        v@ == s@,
{
    let n = s.unicode_len();
    let mut v: Vec<char> = Vec::new();
    let mut i: usize = 0;
    while i < n
        invariant
            i <= n,
            n == s@.len(),
            v@ == s@.subrange(0, i as int),
        decreases n - i,
    {
        v.push(s.get_char(i));
        i = i + 1;
        assert(v@ =~= s@.subrange(0, i as int));
    }
    assert(s@.subrange(0, n as int) =~= s@);
    v
}

/// The year as a date shows it: four digits from 0 to 9999, else a sign and at least four digits.
pub open spec fn year_text(year: int) -> Seq<char> {
    if 0 <= year <= 9999 {
        padded(year as nat, 4)
    } else if year < 0 {
        seq!['-'] + padded((-year) as nat, 4)
    } else {
        seq!['+'] + padded(year as nat, 4)
    }
}

/// A date as `YYYY-MM-DD`.
pub open spec fn date_text(year: int, month: int, day: int) -> Seq<char> {
    year_text(year) + seq!['-'] + padded(month as nat, 2) + seq!['-'] + padded(day as nat, 2)
}

/// Appends a date as `YYYY-MM-DD`.
pub fn push_date(s: &mut String, d: &NaiveDate)
    ensures
        exists|m: int, dd: int|
            is_month_day(d@.0, d@.1, m, dd) && final(s)@ == old(s)@ + date_text(d@.0, m, dd),
{
    let year = d.year();
    let (month, day) = d.month_day();
    if 0 <= year && year <= 9999 {
        push_padded(s, year as u128, 4);
    } else if year < 0 {
        s.push('-');
        push_padded(s, (0i64 - year as i64) as u128, 4);
    } else {
        s.push('+');
        push_padded(s, year as u128, 4);
    }
    let ghost after_year = s@;
    assert(after_year =~= old(s)@ + year_text(year as int));
    s.push('-');
    push_padded(s, month as u128, 2);
    s.push('-');
    push_padded(s, day as u128, 2);
    assert(s@ =~= old(s)@ + date_text(year as int, month as int, day as int));
}

/// The fraction of a second as a time shows it: nothing for zero, else a point and three,
/// six or nine digits, the fewest that hold it.
pub open spec fn fraction_text(nano: int) -> Seq<char> {
    if nano == 0 {
        Seq::empty()
    } else if nano % 1_000_000 == 0 {
        seq!['.'] + padded((nano / 1_000_000) as nat, 3)
    } else if nano % 1_000 == 0 {
        seq!['.'] + padded((nano / 1_000) as nat, 6)
    } else {
        seq!['.'] + padded(nano as nat, 9)
    }
}

/// A time of day as `HH:MM:SS` and its fraction; a leap second shows as second 60.
pub open spec fn time_text(secs: int, frac: int) -> Seq<char> {
    let sec = if frac >= 1_000_000_000 { secs % 60 + 1 } else { secs % 60 };
    let nano = if frac >= 1_000_000_000 { frac - 1_000_000_000 } else { frac };
    padded((secs / 3600) as nat, 2) + seq![':'] + padded((secs / 60 % 60) as nat, 2) + seq![':']
        + padded(sec as nat, 2) + fraction_text(nano)
}

/// Appends the fraction of a second as a time shows it.
fn push_fraction(s: &mut String, nano: u32)
    requires
        nano < 1_000_000_000,
    ensures
        final(s)@ == old(s)@ + fraction_text(nano as int),
{
    if nano == 0 {
        assert(old(s)@ + fraction_text(nano as int) =~= old(s)@);
    } else if nano % 1_000_000 == 0 {
        s.push('.');
        push_padded(s, (nano / 1_000_000) as u128, 3);
        assert(s@ =~= old(s)@ + fraction_text(nano as int));
    } else if nano % 1_000 == 0 {
        s.push('.');
        push_padded(s, (nano / 1_000) as u128, 6);
        assert(s@ =~= old(s)@ + fraction_text(nano as int));
    } else {
        s.push('.');
        push_padded(s, nano as u128, 9);
        assert(s@ =~= old(s)@ + fraction_text(nano as int));
    }
}

/// Appends a time of day as `HH:MM:SS` and its fraction.
pub fn push_time(s: &mut String, secs: u32, frac: u32)
    requires
        is_valid_time(secs as int, frac as int),
    ensures
        final(s)@ == old(s)@ + time_text(secs as int, frac as int),
{
    let (sec, nano) = if frac >= 1_000_000_000 {
        (secs % 60 + 1, frac - 1_000_000_000)
    } else {
        (secs % 60, frac)
    };
    push_padded(s, (secs / 3600) as u128, 2);
    let ghost s1 = s@;
    s.push(':');
    push_padded(s, (secs / 60 % 60) as u128, 2);
    let ghost s2 = s@;
    assert(s2 =~= s1 + seq![':'] + padded((secs / 60 % 60) as nat, 2));
    s.push(':');
    push_padded(s, sec as u128, 2);
    let ghost s3 = s@;
    assert(s3 =~= s2 + seq![':'] + padded(sec as nat, 2));
    push_fraction(s, nano);
    assert(s@ =~= old(s)@ + time_text(secs as int, frac as int));
}

/// Appends a moment in UTC as `Debug` shows it: `YYYY-MM-DDTHH:MM:SS`, the fraction, and `Z`.
pub fn push_datetime_utc(s: &mut String, t: &DateTimeUtc)
    ensures
        exists|y: int, o: int, m: int, dd: int|
            days_from_ce(y, o) == t@.0 && is_month_day(y, o, m, dd) && final(s)@ == old(s)@
                + date_text(y, m, dd) + seq!['T'] + time_text(t@.1, t@.2) + seq!['Z'],
{
    let naive = t.naive_utc();
    let date = naive.date();
    push_date(s, &date);
    let ghost after_date = s@;
    s.push('T');
    push_time(s, naive.secs_of_day(), naive.nanosecond());
    s.push('Z');
    proof {
        let (m, dd) = choose|m: int, dd: int|
            is_month_day(date@.0, date@.1, m, dd) && after_date == old(s)@ + date_text(date@.0, m, dd);
        assert(s@ =~= old(s)@ + date_text(date@.0, m, dd) + seq!['T'] + time_text(t@.1, t@.2) + seq!['Z']);
    }
}

} // verus!
