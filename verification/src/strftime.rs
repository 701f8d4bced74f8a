//! Reading a format string in the `strftime` style into the items that parsing follows.
//!
//! A `%` starts a specifier:
//! - numeric fields: `%Y` (year), `%C` (year divided by 100), `%y` (year modulo 100), `%m`
//!   (month), `%d` and `%e` (day), `%j` (day of the year), `%H` and `%k` (hour), `%I` and
//!   `%l` (hour of the half day), `%M` (minute), `%S` (second), `%f` (nanoseconds), `%u`
//!   (weekday from Monday as 1) and `%w` (weekday from Sunday as 0); each may take one of
//!   the padding modifiers `-`, `_` or `0`, which parsing ignores;
//! - names: `%A` and `%a` the weekday's full name and abbreviation, `%B` and `%b` or `%h`
//!   the month's, `%p` and `%P` the half of the day, `%Z` a time-zone name;
//! - offsets: `%z`, `%:z`, `%::z` and `%:::z`, and `%#z`, which may also be `Z` or lack
//!   its minutes;
//! - fractions: `%.f` (or `%.3f`, `%.6f`, `%.9f`), an optional fraction after a point,
//!   and `%3f`, `%6f`, `%9f`, exactly that many digits;
//! - runs of fields: `%F` `%D` `%x` `%T` `%X` `%R` `%r` `%v` `%c`;
//! - `%n` and `%t` whitespace, and `%%` a percent sign.
//!
//! Any other specifier, and a `%` at the end, is an error item. Outside specifiers, a
//! whitespace character stands for any amount of whitespace, and a run of other characters
//! for itself: one literal item per character, led by a `MinBytes` item of the run's
//! length in bytes when the run has two or more characters, so that text too short for
//! the whole run is `TooShort` and other text that does not begin with the run is
//! `Invalid`.

use vstd::prelude::*;
use crate::parse::{
    english_month_abbreviation, english_month_name, lemma_month_name_items,
    lemma_short_weekday_name_items,
    Fixed, Item, Numeric, Parsed, empty_parsed, lemma_long_weekday_name_item, spec_parse,
};
use crate::scan::{ParseError, is_whitespace, is_whitespace_exec, utf8_bytes, utf8_len_exec};
use crate::text::chars_of;
use crate::weekday::{Weekday, long_name};

verus! {

/// A character outside a specifier that stands for itself.
pub open spec fn is_literal_char(c: char) -> bool {
    c != '%' && !is_whitespace(c)
}

/// The end of the run of literal characters that starts at `i`.
pub open spec fn literal_run_end(f: Seq<char>, i: int) -> int
    decreases f.len() - i,
{
    if 0 <= i < f.len() && is_literal_char(f[i]) {
        literal_run_end(f, i + 1)
    } else {
        i
    }
}

pub proof fn lemma_literal_run_end(f: Seq<char>, i: int)
    requires
        0 <= i <= f.len(),
    ensures
        i <= literal_run_end(f, i) <= f.len(),
        i < f.len() && is_literal_char(f[i]) ==> i < literal_run_end(f, i),
        forall|k: int| i <= k < literal_run_end(f, i) ==> is_literal_char(#[trigger] f[k]),
    decreases f.len() - i,
{
    if i < f.len() && is_literal_char(f[i]) {
        lemma_literal_run_end(f, i + 1);
    }
}

/// The literal item of the character `c`.
pub open spec fn literal_item(c: char) -> Item {
    Item::Literal(c)
}

/// One literal item for each character of `run`.
pub open spec fn literal_items(run: Seq<char>) -> Seq<Item>
    decreases run.len(),
{
    if run.len() == 0 {
        Seq::empty()
    } else {
        literal_items(run.drop_last()).push(literal_item(run.last()))
    }
}

/// The items of the run of literal characters `f[i..e]`.
pub open spec fn literal_run_items(f: Seq<char>, i: int, e: int) -> Seq<Item> {
    let chars = literal_items(f.subrange(i, e));
    if e - i >= 2 {
        seq![Item::MinBytes(utf8_bytes(f.subrange(i, e)) as u128)] + chars
    } else {
        chars
    }
}

/// The numeric field that a specifier letter names, if it names one.
pub open spec fn numeric_letter(c: char) -> Option<Numeric> {
    if c == 'Y' {
        Some(Numeric::Year)
    } else if c == 'm' {
        Some(Numeric::Month)
    } else if c == 'd' {
        Some(Numeric::Day)
    } else if c == 'H' {
        Some(Numeric::Hour)
    } else if c == 'M' {
        Some(Numeric::Minute)
    } else if c == 'S' {
        Some(Numeric::Second)
    } else if c == 'e' {
        Some(Numeric::Day)
    } else if c == 'k' {
        Some(Numeric::Hour)
    } else if c == 'I' || c == 'l' {
        Some(Numeric::Hour12)
    } else if c == 'f' {
        Some(Numeric::Nanosecond)
    } else if c == 'u' {
        Some(Numeric::WeekdayFromMon)
    } else if c == 'w' {
        Some(Numeric::NumDaysFromSun)
    } else if c == 'C' {
        Some(Numeric::YearDiv100)
    } else if c == 'y' {
        Some(Numeric::YearMod100)
    } else if c == 'j' {
        Some(Numeric::Ordinal)
    } else {
        None
    }
}

/// The items that a specifier letter stands for, if it stands for any.
pub open spec fn letter_items(c: char) -> Option<Seq<Item>> {
    match numeric_letter(c) {
        Some(n) => Some(seq![Item::Numeric(n)]),
        None => if c == 'A' {
            Some(seq![Item::Fixed(Fixed::LongWeekdayName)])
        } else if c == 'a' {
            Some(seq![Item::Fixed(Fixed::ShortWeekdayName)])
        } else if c == 'n' || c == 't' {
            Some(seq![Item::Space])
        } else if c == '%' {
            Some(seq![Item::Literal('%')])
        } else if c == 'F' {
            Some(
                seq![
                    Item::Numeric(Numeric::Year),
                    Item::Literal('-'),
                    Item::Numeric(Numeric::Month),
                    Item::Literal('-'),
                    Item::Numeric(Numeric::Day),
                ],
            )
        } else if c == 'T' {
            Some(
                seq![
                    Item::Numeric(Numeric::Hour),
                    Item::Literal(':'),
                    Item::Numeric(Numeric::Minute),
                    Item::Literal(':'),
                    Item::Numeric(Numeric::Second),
                ],
            )
        } else if c == 'R' {
            Some(seq![Item::Numeric(Numeric::Hour), Item::Literal(':'), Item::Numeric(Numeric::Minute)])
        } else {
            fixed_letter_items(c)
        },
    }
}

/// The items of the specifier letters for names, and of the remaining runs of fields.
pub open spec fn fixed_letter_items(c: char) -> Option<Seq<Item>> {
    if c == 'b' || c == 'h' {
        Some(seq![Item::Fixed(Fixed::ShortMonthName)])
    } else if c == 'B' {
        Some(seq![Item::Fixed(Fixed::LongMonthName)])
    } else if c == 'p' {
        Some(seq![Item::Fixed(Fixed::UpperAmPm)])
    } else if c == 'P' {
        Some(seq![Item::Fixed(Fixed::LowerAmPm)])
    } else if c == 'Z' {
        Some(seq![Item::Fixed(Fixed::TimezoneName)])
    } else if c == 'z' {
        Some(seq![Item::Fixed(Fixed::TimezoneOffset)])
    } else if c == 'D' || c == 'x' {
        Some(
            seq![
                Item::Numeric(Numeric::Month),
                Item::Literal('/'),
                Item::Numeric(Numeric::Day),
                Item::Literal('/'),
                Item::Numeric(Numeric::YearMod100),
            ],
        )
    } else if c == 'X' {
        Some(
            seq![
                Item::Numeric(Numeric::Hour),
                Item::Literal(':'),
                Item::Numeric(Numeric::Minute),
                Item::Literal(':'),
                Item::Numeric(Numeric::Second),
            ],
        )
    } else if c == 'r' {
        Some(
            seq![
                Item::Numeric(Numeric::Hour12),
                Item::Literal(':'),
                Item::Numeric(Numeric::Minute),
                Item::Literal(':'),
                Item::Numeric(Numeric::Second),
                Item::Space,
                Item::Fixed(Fixed::UpperAmPm),
            ],
        )
    } else if c == 'v' {
        Some(
            seq![
                Item::Numeric(Numeric::Day),
                Item::Literal('-'),
                Item::Fixed(Fixed::ShortMonthName),
                Item::Literal('-'),
                Item::Numeric(Numeric::Year),
            ],
        )
    } else if c == 'c' {
        Some(
            seq![
                Item::Fixed(Fixed::ShortWeekdayName),
                Item::Space,
                Item::Fixed(Fixed::ShortMonthName),
                Item::Space,
                Item::Numeric(Numeric::Day),
                Item::Space,
                Item::Numeric(Numeric::Hour),
                Item::Literal(':'),
                Item::Numeric(Numeric::Minute),
                Item::Literal(':'),
                Item::Numeric(Numeric::Second),
                Item::Space,
                Item::Numeric(Numeric::Year),
            ],
        )
    } else {
        None
    }
}

/// A padding modifier between `%` and a numeric specifier letter.
pub open spec fn is_pad_modifier(c: char) -> bool {
    c == '-' || c == '_' || c == '0'
}

/// How many characters a specifier that starts at `i` with `%:` takes: `%:z`, `%::z` and
/// `%:::z` are offsets; any other `%:` is two characters of error.
pub open spec fn colon_width(f: Seq<char>, i: int) -> int {
    if i + 4 < f.len() && f[i + 2] == ':' && f[i + 3] == ':' && f[i + 4] == 'z' {
        5
    } else if i + 3 < f.len() && f[i + 2] == ':' && f[i + 3] == 'z' {
        4
    } else if i + 2 < f.len() && f[i + 2] == 'z' {
        3
    } else {
        2
    }
}

/// How many characters the specifier that starts at `i` (a `%`) takes, the `%` included.
pub open spec fn specifier_width(f: Seq<char>, i: int) -> int {
    if i + 1 >= f.len() {
        1
    } else if f[i + 1] == ':' {
        colon_width(f, i)
    } else if f[i + 1] == '.' {
        if i + 2 >= f.len() {
            2
        } else if is_fraction_digits(f[i + 2]) {
            if i + 3 >= f.len() {
                3
            } else {
                4
            }
        } else {
            3
        }
    } else if is_pad_modifier(f[i + 1]) || f[i + 1] == '#' || is_fraction_digits(f[i + 1]) {
        if i + 2 >= f.len() {
            2
        } else {
            3
        }
    } else {
        2
    }
}

/// The digit counts `3`, `6` and `9` that a fraction specifier may give.
pub open spec fn is_fraction_digits(c: char) -> bool {
    c == '3' || c == '6' || c == '9'
}

/// The item of a fraction of `c` digits (`3`, `6` or `9`) written without a point.
pub open spec fn no_dot_item(c: char) -> Item {
    if c == '3' {
        Item::Fixed(Fixed::Nanosecond3NoDot)
    } else if c == '6' {
        Item::Fixed(Fixed::Nanosecond6NoDot)
    } else {
        Item::Fixed(Fixed::Nanosecond9NoDot)
    }
}

/// The items of the specifier that starts at `i` (a `%`).
pub open spec fn specifier_items(f: Seq<char>, i: int) -> Seq<Item> {
    if i + 1 >= f.len() {
        seq![Item::Error]
    } else if is_pad_modifier(f[i + 1]) {
        if i + 2 >= f.len() {
            seq![Item::Error]
        } else {
            match numeric_letter(f[i + 2]) {
                Some(n) => seq![Item::Numeric(n)],
                None => seq![Item::Error],
            }
        }
    } else if f[i + 1] == '.' {
        if i + 2 < f.len() && f[i + 2] == 'f' {
            seq![Item::Fixed(Fixed::Nanosecond)]
        } else if i + 3 < f.len() && is_fraction_digits(f[i + 2]) && f[i + 3] == 'f' {
            seq![Item::Fixed(Fixed::Nanosecond)]
        } else {
            seq![Item::Error]
        }
    } else if is_fraction_digits(f[i + 1]) {
        if i + 2 < f.len() && f[i + 2] == 'f' {
            seq![no_dot_item(f[i + 1])]
        } else {
            seq![Item::Error]
        }
    } else if f[i + 1] == ':' {
        if colon_width(f, i) > 2 {
            seq![Item::Fixed(Fixed::TimezoneOffset)]
        } else {
            seq![Item::Error]
        }
    } else if f[i + 1] == '#' {
        if i + 2 < f.len() && f[i + 2] == 'z' {
            seq![Item::Fixed(Fixed::TimezoneOffsetPermissive)]
        } else {
            seq![Item::Error]
        }
    } else {
        match letter_items(f[i + 1]) {
            Some(items) => items,
            None => seq![Item::Error],
        }
    }
}

/// The items of the format `f` from position `i` on.
pub open spec fn items_from(f: Seq<char>, i: int) -> Seq<Item>
    decreases f.len() - i,
{
    if i < 0 || i >= f.len() {
        Seq::empty()
    } else if f[i] == '%' {
        specifier_items(f, i) + items_from(f, i + specifier_width(f, i))
    } else if is_whitespace(f[i]) {
        seq![Item::Space] + items_from(f, i + 1)
    } else {
        proof {
            lemma_literal_run_end(f, i);
        }
        literal_run_items(f, i, literal_run_end(f, i)) + items_from(f, literal_run_end(f, i))
    }
}

/// The items of the format `f`.
pub open spec fn spec_strftime_items(f: Seq<char>) -> Seq<Item> {
    items_from(f, 0)
}

fn numeric_letter_exec(c: char) -> (r: Option<Numeric>)
    ensures
        r == numeric_letter(c),
{
    if c == 'Y' {
        Some(Numeric::Year)
    } else if c == 'm' {
        Some(Numeric::Month)
    } else if c == 'd' {
        Some(Numeric::Day)
    } else if c == 'H' {
        Some(Numeric::Hour)
    } else if c == 'M' {
        Some(Numeric::Minute)
    } else if c == 'S' {
        Some(Numeric::Second)
    } else if c == 'e' {
        Some(Numeric::Day)
    } else if c == 'k' {
        Some(Numeric::Hour)
    } else if c == 'I' || c == 'l' {
        Some(Numeric::Hour12)
    } else if c == 'f' {
        Some(Numeric::Nanosecond)
    } else if c == 'u' {
        Some(Numeric::WeekdayFromMon)
    } else if c == 'w' {
        Some(Numeric::NumDaysFromSun)
    } else if c == 'C' {
        Some(Numeric::YearDiv100)
    } else if c == 'y' {
        Some(Numeric::YearMod100)
    } else if c == 'j' {
        Some(Numeric::Ordinal)
    } else {
        None
    }
}

fn letter_items_exec(c: char) -> (r: Option<Vec<Item>>)
    ensures
        r matches Some(v) ==> letter_items(c) == Some(v@),
        r is None ==> letter_items(c) is None,
{
    if let Some(n) = numeric_letter_exec(c) {
        let v = vec![Item::Numeric(n)];
        assert(v@ =~= seq![Item::Numeric(n)]);
        return Some(v);
    }
    if c == 'A' {
        let v = vec![Item::Fixed(Fixed::LongWeekdayName)];
        assert(v@ =~= seq![Item::Fixed(Fixed::LongWeekdayName)]);
        Some(v)
    } else if c == 'a' {
        let v = vec![Item::Fixed(Fixed::ShortWeekdayName)];
        assert(v@ =~= seq![Item::Fixed(Fixed::ShortWeekdayName)]);
        Some(v)
    } else if c == 'n' || c == 't' {
        let v = vec![Item::Space];
        assert(v@ =~= seq![Item::Space]);
        Some(v)
    } else if c == '%' {
        let v = vec![Item::Literal('%')];
        assert(v@ =~= seq![Item::Literal('%')]);
        Some(v)
    } else if c == 'F' {
        let v = vec![
            Item::Numeric(Numeric::Year),
            Item::Literal('-'),
            Item::Numeric(Numeric::Month),
            Item::Literal('-'),
            Item::Numeric(Numeric::Day),
        ];
        assert(v@ =~= seq![
            Item::Numeric(Numeric::Year),
            Item::Literal('-'),
            Item::Numeric(Numeric::Month),
            Item::Literal('-'),
            Item::Numeric(Numeric::Day),
        ]);
        Some(v)
    } else if c == 'T' {
        let v = vec![
            Item::Numeric(Numeric::Hour),
            Item::Literal(':'),
            Item::Numeric(Numeric::Minute),
            Item::Literal(':'),
            Item::Numeric(Numeric::Second),
        ];
        assert(v@ =~= seq![
            Item::Numeric(Numeric::Hour),
            Item::Literal(':'),
            Item::Numeric(Numeric::Minute),
            Item::Literal(':'),
            Item::Numeric(Numeric::Second),
        ]);
        Some(v)
    } else if c == 'R' {
        let v = vec![Item::Numeric(Numeric::Hour), Item::Literal(':'), Item::Numeric(Numeric::Minute)];
        assert(v@ =~= seq![
            Item::Numeric(Numeric::Hour),
            Item::Literal(':'),
            Item::Numeric(Numeric::Minute),
        ]);
        Some(v)
    } else {
        fixed_letter_items_exec(c)
    }
}

fn fixed_letter_items_exec(c: char) -> (r: Option<Vec<Item>>)
    ensures
        r matches Some(v) ==> fixed_letter_items(c) == Some(v@),
        r is None ==> fixed_letter_items(c) is None,
{
    let v = if c == 'b' || c == 'h' {
        vec![Item::Fixed(Fixed::ShortMonthName)]
    } else if c == 'B' {
        vec![Item::Fixed(Fixed::LongMonthName)]
    } else if c == 'p' {
        vec![Item::Fixed(Fixed::UpperAmPm)]
    } else if c == 'P' {
        vec![Item::Fixed(Fixed::LowerAmPm)]
    } else if c == 'Z' {
        vec![Item::Fixed(Fixed::TimezoneName)]
    } else if c == 'z' {
        vec![Item::Fixed(Fixed::TimezoneOffset)]
    } else if c == 'D' || c == 'x' {
        vec![
            Item::Numeric(Numeric::Month),
            Item::Literal('/'),
            Item::Numeric(Numeric::Day),
            Item::Literal('/'),
            Item::Numeric(Numeric::YearMod100),
        ]
    } else if c == 'X' {
        vec![
            Item::Numeric(Numeric::Hour),
            Item::Literal(':'),
            Item::Numeric(Numeric::Minute),
            Item::Literal(':'),
            Item::Numeric(Numeric::Second),
        ]
    } else if c == 'r' {
        vec![
            Item::Numeric(Numeric::Hour12),
            Item::Literal(':'),
            Item::Numeric(Numeric::Minute),
            Item::Literal(':'),
            Item::Numeric(Numeric::Second),
            Item::Space,
            Item::Fixed(Fixed::UpperAmPm),
        ]
    } else if c == 'v' {
        vec![
            Item::Numeric(Numeric::Day),
            Item::Literal('-'),
            Item::Fixed(Fixed::ShortMonthName),
            Item::Literal('-'),
            Item::Numeric(Numeric::Year),
        ]
    } else if c == 'c' {
        vec![
            Item::Fixed(Fixed::ShortWeekdayName),
            Item::Space,
            Item::Fixed(Fixed::ShortMonthName),
            Item::Space,
            Item::Numeric(Numeric::Day),
            Item::Space,
            Item::Numeric(Numeric::Hour),
            Item::Literal(':'),
            Item::Numeric(Numeric::Minute),
            Item::Literal(':'),
            Item::Numeric(Numeric::Second),
            Item::Space,
            Item::Numeric(Numeric::Year),
        ]
    } else {
        return None;
    };
    assert(fixed_letter_items(c) == Some(v@));
    Some(v)
}

fn error_items() -> (v: Vec<Item>)
    ensures
        v@ == seq![Item::Error],
{
    let v = vec![Item::Error];
    assert(v@ =~= seq![Item::Error]);
    v
}

/// The items of the specifier that starts at `i`, and the position after it.
fn specifier_items_exec(f: &Vec<char>, i: usize) -> (r: (Vec<Item>, usize))
    requires
        i < f.len(),
    ensures
        r.0@ == specifier_items(f@, i as int),
        r.1 == i + specifier_width(f@, i as int),
{
    if i + 1 >= f.len() {
        return (error_items(), i + 1);
    }
    let c = f[i + 1];
    if c == '-' || c == '_' || c == '0' {
        if i + 2 >= f.len() {
            return (error_items(), i + 2);
        }
        match numeric_letter_exec(f[i + 2]) {
            Some(n) => {
                let v = vec![Item::Numeric(n)];
                assert(v@ =~= seq![Item::Numeric(n)]);
                (v, i + 3)
            },
            None => (error_items(), i + 3),
        }
    } else if c == ':' {
        let left = f.len() - i;
        let w: usize = if left > 4 && f[i + 2] == ':' && f[i + 3] == ':' && f[i + 4] == 'z' {
            5
        } else if left > 3 && f[i + 2] == ':' && f[i + 3] == 'z' {
            4
        } else if left > 2 && f[i + 2] == 'z' {
            3
        } else {
            2
        };
        if w > 2 {
            let v = vec![Item::Fixed(Fixed::TimezoneOffset)];
            assert(v@ =~= seq![Item::Fixed(Fixed::TimezoneOffset)]);
            (v, i + w)
        } else {
            (error_items(), i + 2)
        }
    } else if c == '#' {
        if i + 2 >= f.len() {
            return (error_items(), i + 2);
        }
        if f[i + 2] == 'z' {
            let v = vec![Item::Fixed(Fixed::TimezoneOffsetPermissive)];
            assert(v@ =~= seq![Item::Fixed(Fixed::TimezoneOffsetPermissive)]);
            (v, i + 3)
        } else {
            (error_items(), i + 3)
        }
    } else if c == '.' {
        if i + 2 >= f.len() {
            return (error_items(), i + 2);
        }
        let d = f[i + 2];
        if d == 'f' {
            let v = vec![Item::Fixed(Fixed::Nanosecond)];
            assert(v@ =~= seq![Item::Fixed(Fixed::Nanosecond)]);
            (v, i + 3)
        } else if d == '3' || d == '6' || d == '9' {
            if f.len() - i <= 3 {
                return (error_items(), i + 3);
            }
            if f[i + 3] == 'f' {
                let v = vec![Item::Fixed(Fixed::Nanosecond)];
                assert(v@ =~= seq![Item::Fixed(Fixed::Nanosecond)]);
                (v, i + 4)
            } else {
                (error_items(), i + 4)
            }
        } else {
            (error_items(), i + 3)
        }
    } else if c == '3' || c == '6' || c == '9' {
        if i + 2 >= f.len() {
            return (error_items(), i + 2);
        }
        if f[i + 2] == 'f' {
            let item = if c == '3' {
                Item::Fixed(Fixed::Nanosecond3NoDot)
            } else if c == '6' {
                Item::Fixed(Fixed::Nanosecond6NoDot)
            } else {
                Item::Fixed(Fixed::Nanosecond9NoDot)
            };
            let v = vec![item];
            assert(v@ =~= seq![no_dot_item(c)]);
            (v, i + 3)
        } else {
            (error_items(), i + 3)
        }
    } else {
        match letter_items_exec(c) {
            Some(v) => (v, i + 2),
            None => (error_items(), i + 2),
        }
    }
}

proof fn lemma_utf8_bytes_bound(s: Seq<char>)
    ensures
        utf8_bytes(s) <= 4 * s.len(),
    decreases s.len(),
{
    if s.len() > 0 {
        lemma_utf8_bytes_bound(s.drop_last());
    }
}

/// Appends the items of the run of literal characters that starts at `i`; gives the
/// position after the run.
fn push_literal_run(out: &mut Vec<Item>, f: &Vec<char>, i: usize) -> (e: usize)
    requires
        i < f.len(),
        is_literal_char(f@[i as int]),
    ensures
        e == literal_run_end(f@, i as int),
        i < e <= f.len(),
        final(out)@ == old(out)@ + literal_run_items(f@, i as int, e as int),
{
    proof {
        lemma_literal_run_end(f@, i as int);
    }
    let mut e: usize = i;
    while e < f.len() && f[e] != '%' && !is_whitespace_exec(f[e])
        invariant
            i <= e <= f.len(),
            literal_run_end(f@, e as int) == literal_run_end(f@, i as int),
        decreases f.len() - e,
    {
        e = e + 1;
    }
    let mut bytes: u128 = 0;
    let mut k: usize = i;
    while k < e
        invariant
            i <= k <= e <= f.len(),
            bytes == utf8_bytes(f@.subrange(i as int, k as int)),
            bytes <= 4 * (k - i),
        decreases e - k,
    {
        proof {
            let next = f@.subrange(i as int, k + 1);
            assert(next.drop_last() =~= f@.subrange(i as int, k as int));
            assert(next.last() == f@[k as int]);
        }
        bytes = bytes + utf8_len_exec(f[k]);
        k = k + 1;
    }
    if e - i >= 2 {
        out.push(Item::MinBytes(bytes));
    }
    let ghost start = out@;
    assert(start =~= start + literal_items(f@.subrange(i as int, i as int)));
    let mut k: usize = i;
    while k < e
        invariant
            i <= k <= e <= f.len(),
            out@ == start + literal_items(f@.subrange(i as int, k as int)),
        decreases e - k,
    {
        let c = f[k];
        out.push(Item::Literal(c));
        proof {
            let run = f@.subrange(i as int, k + 1);
            assert(run.drop_last() =~= f@.subrange(i as int, k as int));
            assert(run.last() == c);
            assert(literal_item(c) == Item::Literal(c));
            assert(literal_items(run) == literal_items(f@.subrange(i as int, k as int)).push(Item::Literal(c)));
            assert(out@ =~= start + literal_items(f@.subrange(i as int, k + 1)));
        }
        k = k + 1;
    }
    proof {
        assert(literal_run_end(f@, e as int) == e as int);
        if e - i >= 2 {
            assert(start == old(out)@ + seq![Item::MinBytes(bytes)]);
        } else {
            assert(start == old(out)@);
        }
        assert(out@ =~= old(out)@ + literal_run_items(f@, i as int, e as int));
    }
    e
}

/// The items of the format `fmt`.
pub fn strftime_items(fmt: &str) -> (items: Vec<Item>)
    ensures
        items@ == spec_strftime_items(fmt@),
{
    let f = chars_of(fmt);
    let mut out: Vec<Item> = Vec::new();
    let mut i: usize = 0;
    while i < f.len()
        invariant
            i <= f.len(),
            f@ == fmt@,
            out@ + items_from(f@, i as int) == items_from(f@, 0),
        decreases f.len() - i,
    {
        let ghost before = out@;
        if f[i] == '%' {
            let (mut its, next) = specifier_items_exec(&f, i);
            let ghost its_v = its@;
            out.append(&mut its);
            assert(before + (its_v + items_from(f@, next as int)) =~= out@ + items_from(f@, next as int));
            i = next;
        } else if is_whitespace_exec(f[i]) {
            out.push(Item::Space);
            assert(before + (seq![Item::Space] + items_from(f@, i + 1)) =~= out@ + items_from(f@, i + 1));
            i = i + 1;
        } else {
            let e = push_literal_run(&mut out, &f, i);
            assert(before + (literal_run_items(f@, i as int, e as int) + items_from(f@, e as int))
                =~= out@ + items_from(f@, e as int));
            i = e;
        }
    }
    assert(out@ + items_from(f@, i as int) =~= out@);
    out
}

/// The format `%A` stands for one item, the full weekday name.
proof fn lemma_percent_a()
    ensures
        spec_strftime_items("%A"@) == seq![Item::Fixed(Fixed::LongWeekdayName)],
{
    reveal_strlit("%A");
    let f = "%A"@;
    assert(f.len() == 2 && f[0] == '%' && f[1] == 'A');
    assert(specifier_width(f, 0) == 2);
    assert(items_from(f, 2) == Seq::<Item>::empty());
    assert(specifier_items(f, 0) == seq![Item::Fixed(Fixed::LongWeekdayName)]);
    assert(items_from(f, 0) =~= seq![Item::Fixed(Fixed::LongWeekdayName)]);
}

/// Parsing the full English name of any weekday with the format `%A` reads the whole name
/// and records exactly that weekday.
pub proof fn law_long_weekday_names_parse(w: Weekday)
    ensures
        spec_parse(empty_parsed(), long_name(w), spec_strftime_items("%A"@)) == (
        Parsed { weekday: Some(w), ..empty_parsed() },
        Ok::<(), ParseError>(()),
        ),
{
    lemma_percent_a();
    lemma_long_weekday_name_item(w);
}


proof fn lemma_percent_lower_a()
    ensures
        spec_strftime_items("%a"@) == seq![Item::Fixed(Fixed::ShortWeekdayName)],
{
    reveal_strlit("%a");
    let f = "%a"@;
    assert(items_from(f, 2) == Seq::<Item>::empty());
    assert(specifier_width(f, 0) == 2);
    assert(items_from(f, 0) =~= seq![Item::Fixed(Fixed::ShortWeekdayName)]);
}

/// Reading the three-letter English abbreviation of any weekday (the first three letters
/// of its name: Mon, Tue, ..., Sun) with `%a` or `%A` reads the whole text and records
/// exactly that weekday.
pub proof fn law_short_weekday_names_parse(w: Weekday)
    ensures
        spec_parse(empty_parsed(), long_name(w).subrange(0, 3), spec_strftime_items("%a"@)) == (
        Parsed { weekday: Some(w), ..empty_parsed() },
        Ok::<(), ParseError>(()),
        ),
        spec_parse(empty_parsed(), long_name(w).subrange(0, 3), spec_strftime_items("%A"@)) == (
        Parsed { weekday: Some(w), ..empty_parsed() },
        Ok::<(), ParseError>(()),
        ),
{
    lemma_percent_lower_a();
    lemma_percent_a();
    lemma_short_weekday_name_items(w);
}

proof fn lemma_month_formats()
    ensures
        spec_strftime_items("%b"@) == seq![Item::Fixed(Fixed::ShortMonthName)],
        spec_strftime_items("%h"@) == seq![Item::Fixed(Fixed::ShortMonthName)],
        spec_strftime_items("%B"@) == seq![Item::Fixed(Fixed::LongMonthName)],
{
    reveal_strlit("%b");
    reveal_strlit("%h");
    reveal_strlit("%B");
    let b = "%b"@;
    let h = "%h"@;
    let l = "%B"@;
    assert(items_from(b, 2) == Seq::<Item>::empty());
    assert(items_from(h, 2) == Seq::<Item>::empty());
    assert(items_from(l, 2) == Seq::<Item>::empty());
    assert(specifier_width(b, 0) == 2 && specifier_width(h, 0) == 2 && specifier_width(l, 0) == 2);
    assert(items_from(b, 0) =~= seq![Item::Fixed(Fixed::ShortMonthName)]);
    assert(items_from(h, 0) =~= seq![Item::Fixed(Fixed::ShortMonthName)]);
    assert(items_from(l, 0) =~= seq![Item::Fixed(Fixed::LongMonthName)]);
}

/// Reading the English abbreviation of any month (Jan, Feb, ..., Dec) with `%b` or `%h`,
/// or its full name (January, ..., December) or abbreviation with `%B`, reads the whole
/// text and records exactly that month, January being 1.
pub proof fn law_month_names_parse(m: int)
    requires
        1 <= m <= 12,
    ensures
        spec_parse(empty_parsed(), english_month_abbreviation(m), spec_strftime_items("%b"@)) == (
        Parsed { month: Some(m as u32), ..empty_parsed() },
        Ok::<(), ParseError>(()),
        ),
        spec_parse(empty_parsed(), english_month_abbreviation(m), spec_strftime_items("%h"@)) == (
        Parsed { month: Some(m as u32), ..empty_parsed() },
        Ok::<(), ParseError>(()),
        ),
        spec_parse(empty_parsed(), english_month_name(m), spec_strftime_items("%B"@)) == (
        Parsed { month: Some(m as u32), ..empty_parsed() },
        Ok::<(), ParseError>(()),
        ),
        spec_parse(empty_parsed(), english_month_abbreviation(m), spec_strftime_items("%B"@)) == (
        Parsed { month: Some(m as u32), ..empty_parsed() },
        Ok::<(), ParseError>(()),
        ),
{
    lemma_month_formats();
    lemma_month_name_items(m);
}

} // verus!
