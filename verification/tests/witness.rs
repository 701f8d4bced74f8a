use chrono_etna::{
    PropertyResult, property_duration_round_zero_no_panic, property_from_num_days_from_ce_no_panic,
    property_long_weekday_parses_full_name, property_parse_rfc3339_no_panic,
};

fn assert_pass(p: PropertyResult, ctx: &str) {
    if !matches!(p, PropertyResult::Pass) {
        panic!("witness failed [{ctx}]: {p:?}");
    }
}

#[test]
fn witness_from_num_days_from_ce_no_panic_case_i32_max() {
    assert_pass(property_from_num_days_from_ce_no_panic(i32::MAX), "i32::MAX");
}

#[test]
fn witness_from_num_days_from_ce_no_panic_case_i32_min() {
    assert_pass(property_from_num_days_from_ce_no_panic(i32::MIN), "i32::MIN");
}

#[test]
fn witness_from_num_days_from_ce_no_panic_case_zero() {
    assert_pass(property_from_num_days_from_ce_no_panic(0), "0");
}

#[test]
fn witness_parse_rfc3339_no_panic_case_multibyte_offset() {
    // Three bytes of `ÄÄ` after a valid datetime: byte 3 is the continuation byte of the
    // second `Ä`.
    assert_pass(
        property_parse_rfc3339_no_panic("2024-01-01T00:00:00 ÄÄ".to_string()),
        "AeAe",
    );
}

#[test]
fn witness_parse_rfc3339_no_panic_case_valid_utc() {
    assert_pass(
        property_parse_rfc3339_no_panic("2024-01-01T00:00:00 UTC".to_string()),
        "valid UTC",
    );
}

#[test]
fn witness_duration_round_zero_no_panic_case_simple() {
    assert_pass(property_duration_round_zero_no_panic(0), "epoch");
}

#[test]
fn witness_duration_round_zero_no_panic_case_far_future() {
    assert_pass(property_duration_round_zero_no_panic(1_700_000_000), "2023-ish");
}

#[test]
fn witness_long_weekday_parses_full_name_case_sunday() {
    assert_pass(property_long_weekday_parses_full_name(6), "sunday");
}

#[test]
fn witness_long_weekday_parses_full_name_case_monday() {
    assert_pass(property_long_weekday_parses_full_name(0), "monday");
}
