use chrono_etna::datetime::DateTimeOffset;
use chrono_etna::parse::{Fixed, Item, Numeric, Parsed, parse};
use chrono_etna::scan::ParseError;
use chrono_etna::strftime::strftime_items;
use chrono_etna::weekday::Weekday;

fn weekday_of(text: &str) -> Result<Option<Weekday>, ParseError> {
    let mut parsed = Parsed::new();
    parse(&mut parsed, text, &strftime_items("%A"))?;
    Ok(parsed.weekday)
}

#[test]
fn every_long_weekday_name_parses() {
    let names = [
        ("Monday", Weekday::Mon),
        ("Tuesday", Weekday::Tue),
        ("Wednesday", Weekday::Wed),
        ("Thursday", Weekday::Thu),
        ("Friday", Weekday::Fri),
        ("Saturday", Weekday::Sat),
        ("Sunday", Weekday::Sun),
    ];
    for (name, w) in names {
        assert_eq!(weekday_of(name), Ok(Some(w)));
    }
}

#[test]
fn weekday_names_in_any_case_and_short() {
    assert_eq!(weekday_of("SUNDAY"), Ok(Some(Weekday::Sun)));
    assert_eq!(weekday_of("sun"), Ok(Some(Weekday::Sun)));
    assert_eq!(weekday_of("wEdNeSdAy"), Ok(Some(Weekday::Wed)));
}

#[test]
fn weekday_name_errors() {
    assert_eq!(weekday_of("Sundays"), Err(ParseError::TooLong));
    assert_eq!(weekday_of("Sunda"), Err(ParseError::TooLong));
    assert_eq!(weekday_of("Su"), Err(ParseError::TooShort));
    assert_eq!(weekday_of("Xyz"), Err(ParseError::Invalid));
    assert_eq!(weekday_of("Ä"), Err(ParseError::TooShort));
    assert_eq!(weekday_of("ÄÄ"), Err(ParseError::Invalid));
}

#[test]
fn weekday_set_twice_must_agree() {
    let mut parsed = Parsed::new();
    let items = vec![Item::Fixed(Fixed::LongWeekdayName), Item::Space, Item::Fixed(Fixed::LongWeekdayName)];
    assert_eq!(parse(&mut parsed, "Mon Monday", &items), Ok(()));
    let mut other = Parsed::new();
    assert_eq!(parse(&mut other, "Mon Tue", &items), Err(ParseError::Impossible));
}

#[test]
fn numeric_items() {
    let mut parsed = Parsed::new();
    let items = vec![Item::Numeric(Numeric::Year), Item::Literal('/'), Item::Numeric(Numeric::Month)];
    assert_eq!(parse(&mut parsed, " -44/3", &items), Ok(()));
    assert_eq!(parsed.year, Some(-44));
    assert_eq!(parsed.month, Some(3));
    let mut bad = Parsed::new();
    assert_eq!(parse(&mut bad, "2024/13", &items), Err(ParseError::OutOfRange));
    let mut long = Parsed::new();
    assert_eq!(parse(&mut long, "+99999999999999999999/1", &items), Err(ParseError::OutOfRange));
}

fn utc_of(text: &str) -> Result<(i32, (u32, u32), u32, u32, i32), ParseError> {
    let t = DateTimeOffset::from_str(text)?;
    let u = t.naive_utc();
    let d = u.date();
    Ok((d.year(), d.month_day(), u.secs_of_day(), u.nanosecond(), t.offset_seconds()))
}

#[test]
fn rfc3339_accepted_forms() {
    assert_eq!(utc_of("2024-01-01T00:00:00Z"), Ok((2024, (1, 1), 0, 0, 0)));
    assert_eq!(utc_of("2024-01-01T00:00:00 UTC"), Ok((2024, (1, 1), 0, 0, 0)));
    assert_eq!(utc_of("2024-01-01t00:00:00z"), Ok((2024, (1, 1), 0, 0, 0)));
    assert_eq!(utc_of("2024-01-01 12:34:56.5+00:00"), Ok((2024, (1, 1), 45_296, 500_000_000, 0)));
    assert_eq!(utc_of("2024-01-01T00:00:00+01:30"), Ok((2023, (12, 31), 81_000, 0, 5_400)));
    assert_eq!(utc_of("2024-01-01T00:00:00\u{2212}05:00"), Ok((2024, (1, 1), 18_000, 0, -18_000)));
    assert_eq!(utc_of("2024-01-01T00:00:00.123456789123Z"), Ok((2024, (1, 1), 0, 123_456_789, 0)));
    assert_eq!(utc_of("2024-01-01T23:59:60Z"), Ok((2024, (1, 1), 86_399, 1_000_000_000, 0)));
    assert_eq!(utc_of("+10000-01-01T00:00:00Z"), Ok((10_000, (1, 1), 0, 0, 0)));
    assert_eq!(utc_of(" 2024 - 01 - 01T00 : 00 : 00Z  "), Ok((2024, (1, 1), 0, 0, 0)));
}

#[test]
fn rfc3339_errors() {
    assert_eq!(utc_of("2024-01-01T00:00:00 ÄÄ"), Err(ParseError::Invalid));
    assert_eq!(utc_of("2024-01-01"), Err(ParseError::NotEnough));
    assert_eq!(utc_of("2024-01-01T00:00:00"), Err(ParseError::NotEnough));
    assert_eq!(utc_of("2024-01-01X00:00:00Z"), Err(ParseError::Invalid));
    assert_eq!(utc_of("2024-13-01T00:00:00Z"), Err(ParseError::OutOfRange));
    assert_eq!(utc_of("2023-02-29T00:00:00Z"), Err(ParseError::OutOfRange));
    assert_eq!(utc_of("2024-01-01T00:00:00Z junk"), Err(ParseError::TooLong));
    assert_eq!(utc_of("2024-01-01T00:00:00+01:60"), Err(ParseError::OutOfRange));
    assert_eq!(utc_of("2024-01-01T00:00:00+24:00"), Err(ParseError::OutOfRange));
    assert_eq!(utc_of("2024-01-01T00:00:00+1"), Err(ParseError::TooShort));
    assert_eq!(utc_of("2024-01-01T00:00:00+01"), Err(ParseError::TooShort));
    assert_eq!(utc_of(""), Err(ParseError::TooShort));
    assert_eq!(utc_of("-262143-01-01T00:00:00+00:01"), Err(ParseError::Impossible));
}

#[test]
fn format_specifiers_become_items() {
    assert_eq!(strftime_items("%A"), vec![Item::Fixed(Fixed::LongWeekdayName)]);
    assert_eq!(strftime_items("%a"), vec![Item::Fixed(Fixed::ShortWeekdayName)]);
    assert_eq!(
        strftime_items("%Y-%m-%d"),
        vec![
            Item::Numeric(Numeric::Year),
            Item::Literal('-'),
            Item::Numeric(Numeric::Month),
            Item::Literal('-'),
            Item::Numeric(Numeric::Day),
        ]
    );
    assert_eq!(strftime_items("%F"), strftime_items("%Y-%m-%d"));
    assert_eq!(strftime_items("%T"), strftime_items("%H:%M:%S"));
    assert_eq!(strftime_items("%R"), strftime_items("%H:%M"));
    assert_eq!(strftime_items("%-d %_m %0H"), strftime_items("%d %m %H"));
    assert_eq!(strftime_items("%S%.f"), vec![Item::Numeric(Numeric::Second), Item::Fixed(Fixed::Nanosecond)]);
    assert_eq!(strftime_items("a %% \\t%n%t"), vec![
        Item::Literal('a'),
        Item::Space,
        Item::Literal('%'),
        Item::Space,
        Item::MinBytes(2),
        Item::Literal('\\'),
        Item::Literal('t'),
        Item::Space,
        Item::Space,
    ]);
    assert_eq!(strftime_items(""), vec![]);
}

#[test]
fn unreadable_specifiers_are_errors() {
    assert_eq!(strftime_items("%"), vec![Item::Error]);
    assert_eq!(strftime_items("%Q"), vec![Item::Error]);
    assert_eq!(strftime_items("%-A"), vec![Item::Error]);
    assert_eq!(strftime_items("%-"), vec![Item::Error]);
    assert_eq!(strftime_items("%.x!"), vec![Item::Error, Item::Literal('!')]);
    assert_eq!(strftime_items("x%"), vec![Item::Literal('x'), Item::Error]);
    let mut parsed = Parsed::new();
    assert_eq!(parse(&mut parsed, "anything", &strftime_items("%Q")), Err(ParseError::BadFormat));
}

#[test]
fn parse_with_a_format() {
    let mut parsed = Parsed::new();
    assert_eq!(parse(&mut parsed, "2024-03-09 07:05:30.25 Sat", &strftime_items("%F %T%.f %a")), Ok(()));
    assert_eq!(parsed.year, Some(2024));
    assert_eq!(parsed.month, Some(3));
    assert_eq!(parsed.day, Some(9));
    assert_eq!(parsed.hour_div_12, Some(0));
    assert_eq!(parsed.hour_mod_12, Some(7));
    assert_eq!(parsed.minute, Some(5));
    assert_eq!(parsed.second, Some(30));
    assert_eq!(parsed.nanosecond, Some(250_000_000));
    assert_eq!(parsed.weekday, Some(Weekday::Sat));
    let mut short = Parsed::new();
    assert_eq!(parse(&mut short, "Saturday", &strftime_items("%a")), Err(ParseError::TooLong));
}

#[test]
fn literal_runs_need_their_whole_length() {
    assert_eq!(
        strftime_items("abc"),
        vec![Item::MinBytes(3), Item::Literal('a'), Item::Literal('b'), Item::Literal('c')]
    );
    let items = strftime_items("abc");
    assert_eq!(parse(&mut Parsed::new(), "abc", &items), Ok(()));
    assert_eq!(parse(&mut Parsed::new(), "ax", &items), Err(ParseError::TooShort));
    assert_eq!(parse(&mut Parsed::new(), "abx", &items), Err(ParseError::Invalid));
    assert_eq!(parse(&mut Parsed::new(), "abcd", &items), Err(ParseError::TooLong));
    let wide = strftime_items("ÄÄ");
    assert_eq!(wide, vec![Item::MinBytes(4), Item::Literal('Ä'), Item::Literal('Ä')]);
    assert_eq!(parse(&mut Parsed::new(), "Äx", &wide), Err(ParseError::TooShort));
    assert_eq!(parse(&mut Parsed::new(), "xxxx", &wide), Err(ParseError::Invalid));
    assert_eq!(parse(&mut Parsed::new(), "ÄÄ", &wide), Ok(()));
    assert_eq!(
        strftime_items("%Hh%Mm"),
        vec![
            Item::Numeric(Numeric::Hour),
            Item::Literal('h'),
            Item::Numeric(Numeric::Minute),
            Item::Literal('m'),
        ]
    );
}

#[test]
fn more_specifiers() {
    assert_eq!(strftime_items("%e %k %I %l %f %u %w"), strftime_items("%d %H %-I %_I %f %u %w"));
    assert_eq!(strftime_items("%b"), vec![Item::Fixed(Fixed::ShortMonthName)]);
    assert_eq!(strftime_items("%h"), vec![Item::Fixed(Fixed::ShortMonthName)]);
    assert_eq!(strftime_items("%B"), vec![Item::Fixed(Fixed::LongMonthName)]);
    assert_eq!(strftime_items("%p%P"), vec![Item::Fixed(Fixed::UpperAmPm), Item::Fixed(Fixed::LowerAmPm)]);
    assert_eq!(strftime_items("%Z"), vec![Item::Fixed(Fixed::TimezoneName)]);
    assert_eq!(strftime_items("%X"), strftime_items("%H:%M:%S"));
    assert_eq!(strftime_items("%r"), strftime_items("%I:%M:%S %p"));
    assert_eq!(strftime_items("%v"), strftime_items("%e-%b-%Y"));
    assert_eq!(strftime_items("%c"), strftime_items("%a %b %e %H:%M:%S %Y"));
    assert_eq!(strftime_items("%y"), vec![Item::Numeric(Numeric::YearMod100)]);
    assert_eq!(strftime_items("%j"), vec![Item::Numeric(Numeric::Ordinal)]);
    assert_eq!(strftime_items("%U"), vec![Item::Error]);
    assert_eq!(strftime_items("%:"), vec![Item::Error]);
    assert_eq!(strftime_items("%:x"), vec![Item::Error, Item::Literal('x')]);
    assert_eq!(strftime_items("%#"), vec![Item::Error]);
    assert_eq!(strftime_items("%#y"), vec![Item::Error]);
}

#[test]
fn parse_names_and_halves_of_the_day() {
    let mut p = Parsed::new();
    assert_eq!(parse(&mut p, "sat mar  9 07:05:30 2024", &strftime_items("%c")), Ok(()));
    assert_eq!((p.year, p.month, p.day, p.weekday), (Some(2024), Some(3), Some(9), Some(Weekday::Sat)));
    let mut q = Parsed::new();
    assert_eq!(parse(&mut q, "September 12:30:00 PM", &strftime_items("%B %r")), Ok(()));
    assert_eq!((q.month, q.hour_div_12, q.hour_mod_12, q.minute), (Some(9), Some(1), Some(0), Some(30)));
    let mut r = Parsed::new();
    assert_eq!(parse(&mut r, "Sept", &strftime_items("%B")), Err(ParseError::TooLong));
    assert_eq!(parse(&mut Parsed::new(), "13", &strftime_items("%I")), Err(ParseError::OutOfRange));
    assert_eq!(parse(&mut Parsed::new(), "0", &strftime_items("%I")), Err(ParseError::OutOfRange));
    assert_eq!(parse(&mut Parsed::new(), "a", &strftime_items("%p")), Err(ParseError::TooShort));
    assert_eq!(parse(&mut Parsed::new(), "xm", &strftime_items("%p")), Err(ParseError::Invalid));
    assert_eq!(parse(&mut Parsed::new(), "Mai", &strftime_items("%b")), Err(ParseError::Invalid));
    let mut w = Parsed::new();
    assert_eq!(parse(&mut w, "7 0", &strftime_items("%u %w")), Ok(()));
    assert_eq!(w.weekday, Some(Weekday::Sun));
    assert_eq!(parse(&mut Parsed::new(), "8", &strftime_items("%u")), Err(ParseError::OutOfRange));
    assert_eq!(parse(&mut Parsed::new(), "1 0", &strftime_items("%u %w")), Err(ParseError::Impossible));
    let mut n = Parsed::new();
    assert_eq!(parse(&mut n, "123456789", &strftime_items("%f")), Ok(()));
    assert_eq!(n.nanosecond, Some(123_456_789));
    let mut z = Parsed::new();
    assert_eq!(parse(&mut z, "12:00 CEST", &strftime_items("%H:%M %Z")), Ok(()));
    assert_eq!(z.hour_mod_12, Some(0));
}

#[test]
fn offsets_in_formats() {
    let offset = vec![Item::Fixed(Fixed::TimezoneOffset)];
    assert_eq!(strftime_items("%z"), offset);
    assert_eq!(strftime_items("%:z"), offset);
    assert_eq!(strftime_items("%::z"), offset);
    assert_eq!(strftime_items("%:::z"), offset);
    assert_eq!(strftime_items("%#z"), vec![Item::Fixed(Fixed::TimezoneOffsetPermissive)]);
    let mut p = Parsed::new();
    assert_eq!(parse(&mut p, " +0530", &strftime_items("%z")), Ok(()));
    assert_eq!(p.offset, Some(19_800));
    let mut q = Parsed::new();
    assert_eq!(parse(&mut q, "-01:30", &strftime_items("%:z")), Ok(()));
    assert_eq!(q.offset, Some(-5_400));
    assert_eq!(parse(&mut Parsed::new(), "Z", &strftime_items("%z")), Err(ParseError::Invalid));
    assert_eq!(parse(&mut Parsed::new(), "+05", &strftime_items("%z")), Err(ParseError::TooShort));
    let mut r = Parsed::new();
    assert_eq!(parse(&mut r, "+05", &strftime_items("%#z")), Ok(()));
    assert_eq!(r.offset, Some(18_000));
    let mut z = Parsed::new();
    assert_eq!(parse(&mut z, "z", &strftime_items("%#z")), Ok(()));
    assert_eq!(z.offset, Some(0));
    assert_eq!(parse(&mut Parsed::new(), "+05x", &strftime_items("%#z")), Err(ParseError::TooShort));
    assert_eq!(parse(&mut Parsed::new(), "+0570", &strftime_items("%z")), Err(ParseError::OutOfRange));
}

#[test]
fn fraction_specifiers() {
    let dot = vec![Item::Fixed(Fixed::Nanosecond)];
    assert_eq!(strftime_items("%.3f"), dot);
    assert_eq!(strftime_items("%.6f"), dot);
    assert_eq!(strftime_items("%.9f"), dot);
    assert_eq!(strftime_items("%3f"), vec![Item::Fixed(Fixed::Nanosecond3NoDot)]);
    assert_eq!(strftime_items("%6f"), vec![Item::Fixed(Fixed::Nanosecond6NoDot)]);
    assert_eq!(strftime_items("%9f"), vec![Item::Fixed(Fixed::Nanosecond9NoDot)]);
    assert_eq!(strftime_items("%.3"), vec![Item::Error]);
    assert_eq!(strftime_items("%.4f"), vec![Item::Error, Item::Literal('f')]);
    assert_eq!(strftime_items("%3x"), vec![Item::Error]);
    let mut p = Parsed::new();
    assert_eq!(parse(&mut p, "30.5", &strftime_items("%S%.3f")), Ok(()));
    assert_eq!(p.nanosecond, Some(500_000_000));
    let mut q = Parsed::new();
    assert_eq!(parse(&mut q, "30123", &strftime_items("%S%3f")), Ok(()));
    assert_eq!(q.nanosecond, Some(123_000_000));
    let mut r = Parsed::new();
    assert_eq!(parse(&mut r, "000000042", &strftime_items("%9f")), Ok(()));
    assert_eq!(r.nanosecond, Some(42));
    assert_eq!(parse(&mut Parsed::new(), "12", &strftime_items("%3f")), Err(ParseError::TooShort));
    assert_eq!(parse(&mut Parsed::new(), "12x", &strftime_items("%3f")), Err(ParseError::Invalid));
    assert_eq!(parse(&mut Parsed::new(), "1234", &strftime_items("%3f")), Err(ParseError::TooLong));
}

#[test]
fn two_digit_years() {
    assert_eq!(strftime_items("%D"), strftime_items("%m/%d/%y"));
    assert_eq!(strftime_items("%x"), strftime_items("%m/%d/%y"));
    assert_eq!(strftime_items("%C"), vec![Item::Numeric(Numeric::YearDiv100)]);
    let date_of = |text: &str, fmt: &str| {
        let mut p = Parsed::new();
        parse(&mut p, text, &strftime_items(fmt))?;
        let d = p.to_naive_date()?;
        Ok::<_, ParseError>((d.year(), d.month_day()))
    };
    assert_eq!(date_of("03/09/24", "%D"), Ok((2024, (3, 9))));
    assert_eq!(date_of("03/09/70", "%D"), Ok((1970, (3, 9))));
    assert_eq!(date_of("03/09/69", "%D"), Ok((2069, (3, 9))));
    assert_eq!(date_of("19 99-12-31", "%C %y-%m-%d"), Ok((1999, (12, 31))));
    assert_eq!(date_of("2024 24-01-02", "%Y %y-%m-%d"), Ok((2024, (1, 2))));
    assert_eq!(date_of("2024 23-01-02", "%Y %y-%m-%d"), Err(ParseError::Impossible));
    assert_eq!(date_of("20 2024-01-02", "%C %Y-%m-%d"), Ok((2024, (1, 2))));
    assert_eq!(date_of("21 2024-01-02", "%C %Y-%m-%d"), Err(ParseError::Impossible));
    assert_eq!(date_of("-5 05-01-02", "%Y %y-%m-%d"), Err(ParseError::Impossible));
    assert_eq!(date_of("20-01-02", "%C-%m-%d"), Err(ParseError::NotEnough));
    assert_eq!(parse(&mut Parsed::new(), "100", &strftime_items("%y")), Err(ParseError::TooLong));
}

#[test]
fn day_of_the_year() {
    let date_of = |text: &str, fmt: &str| {
        let mut p = Parsed::new();
        parse(&mut p, text, &strftime_items(fmt))?;
        let d = p.to_naive_date()?;
        Ok::<_, ParseError>((d.year(), d.month_day()))
    };
    assert_eq!(date_of("2024-060", "%Y-%j"), Ok((2024, (2, 29))));
    assert_eq!(date_of("2023-365", "%Y-%j"), Ok((2023, (12, 31))));
    assert_eq!(date_of("2023-366", "%Y-%j"), Err(ParseError::OutOfRange));
    assert_eq!(date_of("2024-367", "%Y-%j"), Err(ParseError::OutOfRange));
    assert_eq!(date_of("2024-060 02", "%Y-%j %m"), Ok((2024, (2, 29))));
    assert_eq!(date_of("2024-060 03", "%Y-%j %m"), Err(ParseError::Impossible));
    assert_eq!(date_of("2024-060 29", "%Y-%j %d"), Ok((2024, (2, 29))));
    assert_eq!(date_of("2024-060 Thu", "%Y-%j %a"), Ok((2024, (2, 29))));
    assert_eq!(date_of("2024-060 Fri", "%Y-%j %a"), Err(ParseError::Impossible));
    assert_eq!(date_of("2024-02-29 060", "%F %j"), Ok((2024, (2, 29))));
    assert_eq!(date_of("2024-02-29 061", "%F %j"), Err(ParseError::Impossible));
    assert_eq!(date_of("060", "%j"), Err(ParseError::NotEnough));
}
