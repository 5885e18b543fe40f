use log_analyzer::analyze::{Filters, Granularity};
use log_analyzer::model::{Level, LogEntry, Timestamp};
use log_analyzer::ui::GuiApp;

fn ts(year: u32, month: u32, day: u32, hour: u32, minute: u32, second: u32) -> Timestamp {
    Timestamp { year, month, day, hour, minute, second }
}

fn entry(t: Timestamp, level: Level, message: &str) -> LogEntry {
    LogEntry { ts: t, level, message: message.to_string() }
}

#[test]
fn absent_criteria_always_pass() {
    let f = Filters::from_cli(None, None, None, None).unwrap();
    assert!(f.pass(&entry(ts(2025, 9, 5, 0, 0, 0), Level::Info, "anything")));
}

#[test]
fn keyword_matching_is_case_insensitive() {
    let f = Filters::from_cli(Some("DISK"), None, None, None).unwrap();
    assert!(f.pass(&entry(ts(2025, 9, 5, 0, 0, 0), Level::Warning, "disk low")));
    assert!(f.pass(&entry(ts(2025, 9, 5, 0, 0, 0), Level::Warning, "Disk Low")));
    assert!(!f.pass(&entry(ts(2025, 9, 5, 0, 0, 0), Level::Warning, "memory low")));
}

#[test]
fn level_filter_requires_equality() {
    let f = Filters::from_cli(None, None, None, Some(Level::Error)).unwrap();
    assert!(f.pass(&entry(ts(2025, 9, 5, 0, 0, 0), Level::Error, "x")));
    assert!(!f.pass(&entry(ts(2025, 9, 5, 0, 0, 0), Level::Info, "x")));
}

#[test]
fn time_bounds_are_inclusive_lower_exclusive_upper() {
    let f = Filters::from_cli(
        None,
        Some("2025-09-05 14:00:00"),
        Some("2025-09-05 15:00:00"),
        None,
    )
    .unwrap();
    assert!(f.pass(&entry(ts(2025, 9, 5, 14, 0, 0), Level::Info, "x")));
    assert!(f.pass(&entry(ts(2025, 9, 5, 14, 59, 59), Level::Info, "x")));
    assert!(!f.pass(&entry(ts(2025, 9, 5, 15, 0, 0), Level::Info, "x")));
    assert!(!f.pass(&entry(ts(2025, 9, 5, 13, 59, 59), Level::Info, "x")));
}

#[test]
fn date_only_bound_means_midnight() {
    let f = Filters::from_cli(None, Some("2025-09-05"), None, None).unwrap();
    assert_eq!(f.from, Some(ts(2025, 9, 5, 0, 0, 0)));
    assert!(f.pass(&entry(ts(2025, 9, 5, 0, 0, 0), Level::Info, "x")));
    assert!(!f.pass(&entry(ts(2025, 9, 4, 23, 59, 59), Level::Info, "x")));
}

#[test]
fn iso_separator_accepted_in_bounds() {
    let f = Filters::from_cli(None, Some("2025-09-05T14:00:00"), None, None).unwrap();
    assert_eq!(f.from, Some(ts(2025, 9, 5, 14, 0, 0)));
}

#[test]
fn unparseable_bound_is_a_hard_construction_failure() {
    let e = Filters::from_cli(None, Some("bogus"), None, None).unwrap_err();
    assert_eq!(e, "Could not parse datetime: bogus");
    let e2 = Filters::from_cli(None, Some("2025-09-05"), Some("2025-02-30"), None).unwrap_err();
    assert_eq!(e2, "Could not parse datetime: 2025-02-30");
}

#[test]
fn run_analysis_without_file_sets_message() {
    let mut app = GuiApp::new();
    app.run_analysis(&Vec::new(), 2025);
    assert_eq!(app.info_text, "Select a .log file first");
    assert!(app.summary.is_none());
}

#[test]
fn run_analysis_reports_filter_errors() {
    let mut app = GuiApp::new();
    app.file = Some("input.log".to_string());
    app.from = "nonsense".to_string();
    app.run_analysis(&Vec::new(), 2025);
    assert_eq!(app.info_text, "Filter error: Could not parse datetime: nonsense");
    assert!(app.summary.is_none());
}

#[test]
fn run_analysis_builds_a_summary() {
    let mut app = GuiApp::new();
    app.file = Some("input.log".to_string());
    app.gran = Granularity::Day;
    let input: Vec<String> = vec![
        "2025-09-05 14:32:10 INFO hello".to_string(),
        "not a log line".to_string(),
        "Sep  5 20:00:00 host app[1]: [ERROR] boom".to_string(),
    ];
    app.run_analysis(&input, 2025);
    let s = app.summary.expect("summary expected");
    assert_eq!(s.total_entries, 2);
    assert_eq!(s.malformed_lines, 1);
    assert_eq!(s.counts.error, 1);
    assert_eq!(s.timeline, vec![("2025-09-05 00:00:00".to_string(), 2)]);
    assert_eq!(s.common_errors, vec![("boom".to_string(), 1)]);
}
