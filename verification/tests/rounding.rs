use chrono_etna::datetime::{DateTimeUtc, RoundingError, TimeDelta};

fn at(secs: i64) -> DateTimeUtc {
    DateTimeUtc::from_timestamp(secs, 0).unwrap()
}

const HOUR: i64 = 3_600_000_000_000;
const MINUTE: i64 = 60_000_000_000;

#[test]
fn from_timestamp_gives_calendar_fields() {
    let t = at(1_700_000_000).naive_utc();
    let d = t.date();
    assert_eq!((d.year(), d.month_day()), (2023, (11, 14)));
    assert_eq!(t.secs_of_day(), 22 * 3600 + 13 * 60 + 20);
    assert_eq!(t.nanosecond(), 0);
    let before = at(-1).naive_utc();
    assert_eq!((before.date().year(), before.date().month_day()), (1969, (12, 31)));
    assert_eq!(before.secs_of_day(), 86_399);
}

#[test]
fn from_timestamp_leap_second_only_at_minute_end() {
    assert!(DateTimeUtc::from_timestamp(59, 1_500_000_000).is_some());
    assert!(DateTimeUtc::from_timestamp(58, 1_500_000_000).is_none());
    assert!(DateTimeUtc::from_timestamp(0, 2_000_000_000).is_none());
    assert!(DateTimeUtc::from_timestamp(i64::MAX, 0).is_none());
    assert!(DateTimeUtc::from_timestamp(i64::MIN, 0).is_none());
}

#[test]
fn timestamps_round_trip() {
    for secs in [0, 1, -1, 59, 86_400, -86_401, 1_700_000_000, -9_000_000_000] {
        let t = at(secs);
        assert_eq!(t.timestamp(), secs);
    }
    assert_eq!(at(1_700_000_000).timestamp_nanos_opt(), Some(1_700_000_000_000_000_000));
    assert_eq!(DateTimeUtc::from_timestamp(-1, 1).unwrap().timestamp_nanos_opt(), Some(-999_999_999));
    assert_eq!(at(10_000_000_000).timestamp_nanos_opt(), None);
}

#[test]
fn time_delta_lengths() {
    assert_eq!(TimeDelta::zero().num_nanoseconds(), Some(0));
    assert_eq!(TimeDelta::nanoseconds(-1).num_nanoseconds(), Some(-1));
    assert_eq!(TimeDelta::nanoseconds(i64::MIN).num_nanoseconds(), Some(i64::MIN));
    assert_eq!(TimeDelta::nanoseconds(5).negated().num_nanoseconds(), Some(-5));
    assert_eq!(TimeDelta::nanoseconds(i64::MIN).negated().num_nanoseconds(), None);
}

#[test]
fn adding_and_subtracting() {
    let t = at(0).checked_add_signed(TimeDelta::nanoseconds(1)).unwrap();
    assert_eq!(t.timestamp(), 0);
    assert_eq!(t.naive_utc().nanosecond(), 1);
    let u = at(0).checked_sub_signed(TimeDelta::nanoseconds(1)).unwrap();
    assert_eq!(u.timestamp(), -1);
    assert_eq!(u.naive_utc().nanosecond(), 999_999_999);
}

#[test]
fn round_to_nearest_hour() {
    let r = at(1_700_000_000).duration_round(TimeDelta::nanoseconds(HOUR)).unwrap();
    assert_eq!(r.timestamp(), 1_699_999_200);
    let up = at(1_700_002_000).duration_round(TimeDelta::nanoseconds(HOUR)).unwrap();
    assert_eq!(up.timestamp(), 1_700_002_800);
}

#[test]
fn round_halfway_goes_up() {
    assert_eq!(at(90).duration_round(TimeDelta::nanoseconds(MINUTE)).unwrap().timestamp(), 120);
    assert_eq!(at(-90).duration_round(TimeDelta::nanoseconds(MINUTE)).unwrap().timestamp(), -60);
    assert_eq!(at(-100).duration_round(TimeDelta::nanoseconds(MINUTE)).unwrap().timestamp(), -120);
}

#[test]
fn round_exact_multiple_is_unchanged() {
    let t = at(3_600);
    assert_eq!(t.duration_round(TimeDelta::nanoseconds(HOUR)).unwrap(), t);
}

#[test]
fn round_errors() {
    assert_eq!(at(0).duration_round(TimeDelta::zero()), Err(RoundingError::DurationExceedsLimit));
    assert_eq!(at(1_700_000_000).duration_round(TimeDelta::zero()), Err(RoundingError::DurationExceedsLimit));
    assert_eq!(
        at(1_700_000_000).duration_round(TimeDelta::nanoseconds(-HOUR)),
        Err(RoundingError::DurationExceedsLimit)
    );
    assert_eq!(at(10).duration_round(TimeDelta::nanoseconds(HOUR)), Err(RoundingError::DurationExceedsTimestamp));
    assert_eq!(
        at(10_000_000_000).duration_round(TimeDelta::nanoseconds(HOUR)),
        Err(RoundingError::TimestampExceedsLimit)
    );
}

#[test]
fn round_from_inside_a_leap_second() {
    // Moving forward out of a leap second counts it as the second that follows.
    let leap = DateTimeUtc::from_timestamp(59, 1_500_000_000).unwrap();
    let r = leap.duration_round(TimeDelta::nanoseconds(1_000_000_000)).unwrap();
    assert_eq!(r.timestamp(), 60);
    assert_eq!(r.naive_utc().nanosecond(), 0);
}
