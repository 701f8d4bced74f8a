use chrono_etna::date::NaiveDate;
use chrono_etna::datetime::DateTimeUtc;
use chrono_etna::text::{push_date, push_datetime_utc, push_decimal, push_padded, push_signed};

#[test]
fn decimal_numbers() {
    let mut s = String::from("n=");
    push_decimal(&mut s, 0);
    s.push(' ');
    push_decimal(&mut s, 1_234_567_890);
    assert_eq!(s, "n=0 1234567890");
    let mut t = String::new();
    push_padded(&mut t, 7, 3);
    push_padded(&mut t, 12_345, 2);
    assert_eq!(t, "00712345");
    let mut u = String::new();
    push_signed(&mut u, -42);
    u.push(' ');
    push_signed(&mut u, i64::MIN);
    assert_eq!(u, "-42 -9223372036854775808");
}

#[test]
fn dates_as_text() {
    let mut s = String::new();
    push_date(&mut s, &NaiveDate::from_ymd_opt(2024, 3, 9).unwrap());
    s.push(' ');
    push_date(&mut s, &NaiveDate::from_ymd_opt(-1, 1, 1).unwrap());
    s.push(' ');
    push_date(&mut s, &NaiveDate::from_ymd_opt(10_000, 12, 31).unwrap());
    assert_eq!(s, "2024-03-09 -0001-01-01 +10000-12-31");
}

#[test]
fn moments_as_text() {
    let mut s = String::new();
    push_datetime_utc(&mut s, &DateTimeUtc::from_timestamp(1_700_000_000, 0).unwrap());
    assert_eq!(s, "2023-11-14T22:13:20Z");
    let mut t = String::new();
    push_datetime_utc(&mut t, &DateTimeUtc::from_timestamp(0, 500_000_000).unwrap());
    assert_eq!(t, "1970-01-01T00:00:00.500Z");
    let mut u = String::new();
    push_datetime_utc(&mut u, &DateTimeUtc::from_timestamp(86_399, 1_000_000_007).unwrap());
    assert_eq!(u, "1970-01-01T23:59:60.000000007Z");
}
