//! Calendar dates, timestamps, rounding and text parsing, together with the properties
//! that exercise them.

pub mod date;
pub mod datetime;
pub mod etna;
pub mod parse;
pub mod report;
pub mod rfc3339;
pub mod scan;
pub mod strftime;
pub mod text;
pub mod weekday;

pub use etna::{
    PropertyResult, property_duration_round_zero_no_panic, property_from_num_days_from_ce_no_panic,
    property_long_weekday_parses_full_name, property_parse_rfc3339_no_panic,
};
