use chrono_etna::report::{
    hegel_failure_text, json_str, run_end_verdict, run_report, summarize, to_err, Metrics, Property,
    RunEnd, unknown_property_message, unknown_tool_message,
};
use chrono_etna::PropertyResult;

#[test]
fn verdicts_from_results() {
    assert_eq!(to_err(PropertyResult::Pass), Ok(()));
    assert_eq!(to_err(PropertyResult::Discard), Ok(()));
    assert_eq!(to_err(PropertyResult::Fail("(3)".to_string())), Err("(3)".to_string()));
}

#[test]
fn measurements_add_up() {
    let a = Metrics { inputs: 3, elapsed_us: 40 };
    let b = Metrics { inputs: 5, elapsed_us: 2 };
    assert_eq!(a.combine(b), Metrics { inputs: 8, elapsed_us: 42 });
    assert_eq!(Metrics::default(), Metrics { inputs: 0, elapsed_us: 0 });
    assert_eq!(a.combine(Metrics::default()), a);
}

#[test]
fn summary_keeps_first_failure() {
    let outcomes = vec![
        (Ok(()), Metrics { inputs: 1, elapsed_us: 10 }),
        (Err("first".to_string()), Metrics { inputs: 2, elapsed_us: 20 }),
        (Ok(()), Metrics { inputs: 3, elapsed_us: 30 }),
        (Err("second".to_string()), Metrics { inputs: 4, elapsed_us: 40 }),
    ];
    let (status, total) = summarize(outcomes);
    assert_eq!(status, Err("first".to_string()));
    assert_eq!(total, Metrics { inputs: 10, elapsed_us: 100 });
}

#[test]
fn summary_of_passes_and_of_nothing() {
    let outcomes = vec![
        (Ok(()), Metrics { inputs: 7, elapsed_us: 1 }),
        (Ok(()), Metrics { inputs: 0, elapsed_us: 5 }),
    ];
    assert_eq!(summarize(outcomes), (Ok(()), Metrics { inputs: 7, elapsed_us: 6 }));
    assert_eq!(summarize(Vec::new()), (Ok(()), Metrics::default()));
}

#[test]
fn property_names_round_trip() {
    let all = Property::all();
    assert_eq!(all.len(), 4);
    let names: Vec<&str> = all.iter().map(|p| p.name()).collect();
    assert_eq!(
        names,
        vec![
            "FromNumDaysFromCeNoPanic",
            "ParseRfc3339NoPanic",
            "DurationRoundZeroNoPanic",
            "LongWeekdayParsesFullName",
        ]
    );
    for p in all {
        assert_eq!(Property::from_name(p.name()), Some(p));
    }
    assert_eq!(Property::from_name("All"), None);
    assert_eq!(Property::from_name("ParseRfc3339NoPanic "), None);
    assert_eq!(Property::from_name(""), None);
}

#[test]
fn witnesses_pass() {
    for p in Property::all() {
        assert_eq!(p.check_witness(), PropertyResult::Pass);
    }
}

#[test]
fn json_strings_are_escaped() {
    assert_eq!(json_str("plain"), "\"plain\"");
    assert_eq!(json_str(""), "\"\"");
    assert_eq!(json_str("a\"b\\c"), "\"a\\\"b\\\\c\"");
    assert_eq!(json_str("l1\nl2\r\tx"), "\"l1\\nl2\\r\\tx\"");
    assert_eq!(json_str("\u{1}\u{1f}"), "\"\\u0001\\u001f\"");
    assert_eq!(json_str("ÄÄ é"), "\"ÄÄ é\"");
}

#[test]
fn report_line_passed() {
    let line = run_report(
        "etna",
        "All",
        "passed",
        Metrics { inputs: 4, elapsed_us: 123 },
        None,
        None,
    );
    assert_eq!(
        line,
        "{\"status\":\"passed\",\"tests\":4,\"discards\":0,\"time\":\"123us\",\"counterexample\":null,\"error\":null,\"tool\":\"etna\",\"property\":\"All\"}"
    );
}

#[test]
fn report_line_failed() {
    let line = run_report(
        "proptest",
        "ParseRfc3339NoPanic",
        "failed",
        Metrics { inputs: 17, elapsed_us: 0 },
        Some("(\"x\")"),
        Some("boom"),
    );
    assert_eq!(
        line,
        "{\"status\":\"failed\",\"tests\":17,\"discards\":0,\"time\":\"0us\",\"counterexample\":\"(\\\"x\\\")\",\"error\":\"boom\",\"tool\":\"proptest\",\"property\":\"ParseRfc3339NoPanic\"}"
    );
}

#[test]
fn ends_of_runs() {
    assert_eq!(run_end_verdict(RunEnd::Finished), Ok(()));
    assert_eq!(run_end_verdict(RunEnd::Failed("-7 \"x\"".to_string())), Err("(-7 \"x\")".to_string()));
    assert_eq!(run_end_verdict(RunEnd::Aborted("no input".to_string())), Err("aborted: no input".to_string()));
    assert_eq!(run_end_verdict(RunEnd::TimedOut), Err("timed out".to_string()));
    assert_eq!(
        run_end_verdict(RunEnd::GaveUp { passed: 12, discarded: 1988 }),
        Err("gave up: passed=12, discarded=1988".to_string())
    );
    assert_eq!(
        run_end_verdict(RunEnd::GaveUp { passed: 0, discarded: u64::MAX }),
        Err("gave up: passed=0, discarded=18446744073709551615".to_string())
    );
}

#[test]
fn hegel_messages_lose_their_prefix() {
    assert_eq!(hegel_failure_text("Property test failed: (3)"), "(3)");
    assert_eq!(hegel_failure_text("Property test failed: "), "");
    assert_eq!(hegel_failure_text("Property test failed"), "Property test failed");
    assert_eq!(hegel_failure_text("(3)"), "(3)");
    assert_eq!(hegel_failure_text("x Property test failed: (3)"), "x Property test failed: (3)");
    assert_eq!(hegel_failure_text("Property test failed: Ä"), "Ä");
}

#[test]
fn unknown_names() {
    assert_eq!(unknown_property_message("etna", "Nope"), "Unknown property for etna: Nope");
    assert_eq!(unknown_property_message("proptest", ""), "Unknown property for proptest: ");
    assert_eq!(unknown_tool_message("pytest"), "Unknown tool: pytest");
}
