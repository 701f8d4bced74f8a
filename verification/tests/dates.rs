use chrono_etna::date::{MAX_YEAR, MIN_YEAR, NaiveDate};
use chrono_etna::weekday::Weekday;

#[test]
fn day_one_is_first_of_january_year_one() {
    let d = NaiveDate::from_num_days_from_ce_opt(1).unwrap();
    assert_eq!(d.year(), 1);
    assert_eq!(d.ordinal(), 1);
    assert_eq!(d.month_day(), (1, 1));
    assert_eq!(d.weekday(), Weekday::Mon);
}

#[test]
fn day_zero_is_last_day_of_year_zero() {
    let d = NaiveDate::from_num_days_from_ce_opt(0).unwrap();
    assert_eq!(d.year(), 0);
    assert_eq!(d.ordinal(), 366);
    assert_eq!(d.month_day(), (12, 31));
    assert_eq!(d.num_days_from_ce(), 0);
}

#[test]
fn unix_epoch_and_2024() {
    let epoch = NaiveDate::from_num_days_from_ce_opt(719_163).unwrap();
    assert_eq!((epoch.year(), epoch.month_day()), (1970, (1, 1)));
    assert_eq!(epoch.weekday(), Weekday::Thu);
    let d = NaiveDate::from_ymd_opt(2024, 1, 1).unwrap();
    assert_eq!(d.num_days_from_ce(), 738_886);
    assert_eq!(d.weekday(), Weekday::Mon);
}

#[test]
fn range_edges() {
    let first = NaiveDate::from_num_days_from_ce_opt(-95_746_129).unwrap();
    assert_eq!((first.year(), first.ordinal()), (MIN_YEAR, 1));
    assert!(NaiveDate::from_num_days_from_ce_opt(-95_746_130).is_none());
    let last = NaiveDate::from_num_days_from_ce_opt(95_745_399).unwrap();
    assert_eq!((last.year(), last.month_day()), (MAX_YEAR, (12, 31)));
    assert!(NaiveDate::from_num_days_from_ce_opt(95_745_400).is_none());
    assert!(NaiveDate::from_num_days_from_ce_opt(i32::MAX).is_none());
    assert!(NaiveDate::from_num_days_from_ce_opt(i32::MIN).is_none());
    assert!(NaiveDate::from_num_days_from_ce_opt(i32::MAX - 364).is_none());
}

#[test]
fn day_count_round_trips() {
    for days in [-95_746_129, -1_000_000, -366, -1, 0, 1, 59, 60, 365, 366, 719_163, 738_886, 95_745_399] {
        let d = NaiveDate::from_num_days_from_ce_opt(days).unwrap();
        assert_eq!(d.num_days_from_ce(), days);
    }
    for (y, m, dd) in [(2000, 2, 29), (1900, 3, 1), (-1, 12, 31), (-400, 2, 29), (262_142, 6, 15)] {
        let d = NaiveDate::from_ymd_opt(y, m, dd).unwrap();
        let back = NaiveDate::from_num_days_from_ce_opt(d.num_days_from_ce()).unwrap();
        assert_eq!(back, d);
        assert_eq!(back.month_day(), (m, dd));
    }
}

#[test]
fn from_ymd_rejects_missing_days() {
    assert!(NaiveDate::from_ymd_opt(2023, 2, 29).is_none());
    assert!(NaiveDate::from_ymd_opt(2024, 2, 29).is_some());
    assert!(NaiveDate::from_ymd_opt(1900, 2, 29).is_none());
    assert!(NaiveDate::from_ymd_opt(2024, 4, 31).is_none());
    assert!(NaiveDate::from_ymd_opt(2024, 13, 1).is_none());
    assert!(NaiveDate::from_ymd_opt(2024, 0, 1).is_none());
    assert!(NaiveDate::from_ymd_opt(2024, 1, 0).is_none());
    assert!(NaiveDate::from_ymd_opt(MAX_YEAR + 1, 1, 1).is_none());
    assert!(NaiveDate::from_ymd_opt(MIN_YEAR - 1, 12, 31).is_none());
}

#[test]
fn ordinal_of_march_first() {
    assert_eq!(NaiveDate::from_ymd_opt(2023, 3, 1).unwrap().ordinal(), 60);
    assert_eq!(NaiveDate::from_ymd_opt(2024, 3, 1).unwrap().ordinal(), 61);
}

#[test]
fn weekday_numbers() {
    assert_eq!(Weekday::Mon.num_days_from_monday(), 0);
    assert_eq!(Weekday::Sun.num_days_from_monday(), 6);
}
