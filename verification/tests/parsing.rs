use log_analyzer::model::{Level, Timestamp};
use log_analyzer::parse::{mon_to_num, parse_level, parse_ts, DefaultLogParser, LogParser};

fn ts(year: u32, month: u32, day: u32, hour: u32, minute: u32, second: u32) -> Timestamp {
    Timestamp { year, month, day, hour, minute, second }
}

#[test]
fn space_separated_line_with_comma_fraction() {
    let mut p = DefaultLogParser::with_year(2025);
    let r = p.parse_line("2025-09-05 14:32:10,123 INFO hello").unwrap().unwrap();
    assert_eq!(r.ts, ts(2025, 9, 5, 14, 32, 10));
    assert_eq!(r.level, Level::Info);
    assert_eq!(r.message, "hello");
}

#[test]
fn iso_line_with_zulu_marker_discarded() {
    let mut p = DefaultLogParser::with_year(2025);
    let r = p.parse_line("2025-09-05T14:32:10Z [WARNING] disk low").unwrap().unwrap();
    assert_eq!(r.ts, ts(2025, 9, 5, 14, 32, 10));
    assert_eq!(r.level, Level::Warning);
    assert_eq!(r.message, "disk low");
}

#[test]
fn iso_line_with_offset_marker_discarded() {
    let mut p = DefaultLogParser::with_year(2025);
    let r = p.parse_line("2025-09-05T14:32:10+02:00 [INFO] ok").unwrap().unwrap();
    assert_eq!(r.ts, ts(2025, 9, 5, 14, 32, 10));
    assert_eq!(r.level, Level::Info);
    assert_eq!(r.message, "ok");
}

#[test]
fn syslog_line_uses_injected_year() {
    let mut p = DefaultLogParser::with_year(2025);
    let r = p.parse_line("Sep  5 14:32:10 host app[123]: [ERROR] boom").unwrap().unwrap();
    assert_eq!(r.ts, ts(2025, 9, 5, 14, 32, 10));
    assert_eq!(r.level, Level::Error);
    assert_eq!(r.message, "boom");
}

#[test]
fn syslog_line_uses_current_year_from_clock() {
    let mut p = DefaultLogParser::new();
    let year = p.year();
    let r = p.parse_line("Sep  5 14:32:10 host app[123]: [ERROR] boom").unwrap().unwrap();
    assert_eq!(r.ts.year, year);
    assert_eq!(r.level, Level::Error);
    assert_eq!(r.message, "boom");
}

#[test]
fn unmatched_line_yields_no_record() {
    let mut p = DefaultLogParser::with_year(2025);
    assert!(p.parse_line("this is not a log line").unwrap().is_none());
}

#[test]
fn shape_match_with_bad_timestamp_is_hard_failure() {
    let mut p = DefaultLogParser::with_year(2025);
    let e = p.parse_line("2025-13-45 99:99:99 INFO x").unwrap_err();
    assert_eq!(e, "Could not parse timestamp: 2025-13-45 99:99:99");
}

#[test]
fn syslog_invalid_date_is_hard_failure() {
    let mut p = DefaultLogParser::with_year(2025);
    let e = p.parse_line("Feb 30 12:00:00 host app: [ERROR] nope").unwrap_err();
    assert_eq!(e, "Failed to parse datetime: 2025-02-30 12:00:00");
}

#[test]
fn overlong_fraction_fails_to_match() {
    let mut p = DefaultLogParser::with_year(2025);
    assert!(p.parse_line("2025-09-05 14:32:10.1234567 INFO x").unwrap().is_none());
}

#[test]
fn bare_level_without_following_space_fails() {
    let mut p = DefaultLogParser::with_year(2025);
    assert!(p.parse_line("2025-09-05 14:32:10 INFO").unwrap().is_none());
}

#[test]
fn resolver_accepts_both_separators_and_fractions() {
    assert_eq!(parse_ts("2025-09-05 14:32:10"), Some(ts(2025, 9, 5, 14, 32, 10)));
    assert_eq!(parse_ts("2025-09-05T14:32:10.5Z"), Some(ts(2025, 9, 5, 14, 32, 10)));
    assert_eq!(parse_ts("2025-09-05T14:32:10-0130"), Some(ts(2025, 9, 5, 14, 32, 10)));
    assert_eq!(parse_ts("2025-09-05T14:32:10"), Some(ts(2025, 9, 5, 14, 32, 10)));
}

#[test]
fn resolver_rejects_bad_text() {
    assert_eq!(parse_ts("2025-09-05"), None);
    assert_eq!(parse_ts("2025-02-30 10:00:00"), None);
    assert_eq!(parse_ts("2025-09-05 14:32:10Q"), None);
    assert_eq!(parse_ts("2025-09-05 14:32:10."), None);
    assert_eq!(parse_ts(""), None);
}

#[test]
fn leap_year_handling_in_resolver() {
    assert_eq!(parse_ts("2024-02-29 00:00:00"), Some(ts(2024, 2, 29, 0, 0, 0)));
    assert_eq!(parse_ts("2025-02-29 00:00:00"), None);
    assert_eq!(parse_ts("2000-02-29 00:00:00"), Some(ts(2000, 2, 29, 0, 0, 0)));
    assert_eq!(parse_ts("1900-02-29 00:00:00"), None);
}

#[test]
fn level_tokens_are_case_insensitive_with_lenient_default() {
    assert_eq!(parse_level("ERROR"), Level::Error);
    assert_eq!(parse_level("error"), Level::Error);
    assert_eq!(parse_level("[WARN]"), Level::Warning);
    assert_eq!(parse_level("Warning"), Level::Warning);
    assert_eq!(parse_level("WARN"), Level::Warning);
    assert_eq!(parse_level("INFO"), Level::Info);
    assert_eq!(parse_level("notice"), Level::Info);
    assert_eq!(parse_level(""), Level::Info);
    assert_eq!(parse_level("[[ERROR]]"), Level::Error);
}

#[test]
fn month_names_map_to_numbers() {
    assert_eq!(mon_to_num("Jan"), 1);
    assert_eq!(mon_to_num("Sep"), 9);
    assert_eq!(mon_to_num("Dec"), 12);
    assert_eq!(mon_to_num("Janx"), 1);
    assert_eq!(mon_to_num("sep"), 1);
}

#[test]
fn bracketed_level_allows_zero_spacing() {
    let mut p = DefaultLogParser::with_year(2025);
    let r = p.parse_line("2025-09-05T14:32:10Z[INFO]tight").unwrap().unwrap();
    assert_eq!(r.level, Level::Info);
    assert_eq!(r.message, "tight");
}

#[test]
fn empty_message_is_kept_empty() {
    let mut p = DefaultLogParser::with_year(2025);
    let r = p.parse_line("2025-09-05 14:32:10 INFO ").unwrap().unwrap();
    assert_eq!(r.message, "");
}

#[test]
fn bare_level_shape_wins_over_bracketed_on_iso_lines() {
    let mut p = DefaultLogParser::with_year(2025);
    let r = p.parse_line("2025-09-05T14:32:10 WARN shape one").unwrap().unwrap();
    assert_eq!(r.level, Level::Warning);
    assert_eq!(r.message, "shape one");
}

#[test]
fn warn_prefix_of_longer_token_does_not_match() {
    let mut p = DefaultLogParser::with_year(2025);
    assert!(p.parse_line("2025-09-05 14:32:10 WARNINGX hello").unwrap().is_none());
}
