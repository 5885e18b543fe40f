use log_analyzer::analyze::{Analyzer, Filters, Granularity};
use log_analyzer::parse::DefaultLogParser;
use log_analyzer::report::{build_summary, JsonSummary};

fn lines(texts: &[&str]) -> Vec<String> {
    texts.iter().map(|s| s.to_string()).collect()
}

fn no_filters() -> Filters {
    Filters::from_cli(None, None, None, None).unwrap()
}

fn analyze(texts: &[&str], g: Granularity) -> JsonSummary {
    let mut parser = DefaultLogParser::with_year(2025);
    let mut an = Analyzer::new(g);
    an.consume_lines(&mut parser, &lines(texts));
    build_summary(&an, &no_filters())
}

fn summaries_equal(a: &JsonSummary, b: &JsonSummary) -> bool {
    a.total_entries == b.total_entries && a.counts.info == b.counts.info && a.counts.warning
        == b.counts.warning && a.counts.error == b.counts.error && a.malformed_lines
        == b.malformed_lines && a.first_log == b.first_log && a.last_log == b.last_log
        && a.common_errors == b.common_errors && a.timeline == b.timeline
}

#[test]
fn empty_run_yields_degenerate_summary() {
    let s = analyze(&[], Granularity::Hour);
    assert_eq!(s.total_entries, 0);
    assert_eq!(s.counts.info, 0);
    assert_eq!(s.counts.warning, 0);
    assert_eq!(s.counts.error, 0);
    assert_eq!(s.malformed_lines, 0);
    assert!(s.first_log.is_none());
    assert!(s.last_log.is_none());
    assert!(s.common_errors.is_empty());
    assert!(s.timeline.is_empty());
}

#[test]
fn fixed_format_rendering_of_bounds_and_timeline() {
    let s = analyze(
        &["2025-09-05 14:32:10 INFO a", "2025-09-05 15:07:09 ERROR b"],
        Granularity::Hour,
    );
    assert_eq!(s.first_log.as_deref(), Some("2025-09-05 14:32:10"));
    assert_eq!(s.last_log.as_deref(), Some("2025-09-05 15:07:09"));
    assert_eq!(
        s.timeline,
        vec![
            ("2025-09-05 14:00:00".to_string(), 1),
            ("2025-09-05 15:00:00".to_string(), 1),
        ]
    );
}

#[test]
fn top_errors_sorted_by_count_then_message() {
    let s = analyze(
        &[
            "2025-09-05 14:00:00 ERROR beta",
            "2025-09-05 14:01:00 ERROR alpha",
            "2025-09-05 14:02:00 ERROR beta",
            "2025-09-05 14:03:00 ERROR gamma",
            "2025-09-05 14:04:00 ERROR gamma",
        ],
        Granularity::Hour,
    );
    assert_eq!(
        s.common_errors,
        vec![
            ("beta".to_string(), 2),
            ("gamma".to_string(), 2),
            ("alpha".to_string(), 1),
        ]
    );
}

#[test]
fn top_errors_truncated_to_ten() {
    let mut input: Vec<String> = Vec::new();
    for i in 0..12 {
        input.push(format!("2025-09-05 14:00:{:02} ERROR msg{:02}", i, i));
    }
    let mut parser = DefaultLogParser::with_year(2025);
    let mut an = Analyzer::new(Granularity::Hour);
    an.consume_lines(&mut parser, &input);
    let s = build_summary(&an, &no_filters());
    assert_eq!(s.common_errors.len(), 10);
    assert_eq!(s.common_errors[0].0, "msg00");
    assert_eq!(s.common_errors[9].0, "msg09");
}

#[test]
fn summary_is_deterministic_and_idempotent() {
    let texts = [
        "2025-09-05 14:00:00 ERROR boom",
        "2025-09-05 15:00:00 INFO ok",
        "not a log line",
    ];
    let mut parser = DefaultLogParser::with_year(2025);
    let mut an = Analyzer::new(Granularity::Hour);
    an.consume_lines(&mut parser, &lines(&texts));
    let s1 = build_summary(&an, &no_filters());
    let s2 = build_summary(&an, &no_filters());
    assert!(summaries_equal(&s1, &s2));
}

#[test]
fn merging_partial_states_matches_concatenated_run_in_either_order() {
    let part1 = [
        "2025-09-05 14:00:00 ERROR boom",
        "2025-09-05 14:10:00 INFO one",
        "garbage",
    ];
    let part2 = [
        "2025-09-05 14:20:00 ERROR boom",
        "2025-09-04 09:00:00 WARN early",
        "2025-09-06 22:00:00 ERROR late",
    ];
    let mut both: Vec<&str> = part1.to_vec();
    both.extend_from_slice(&part2);
    let mut reversed: Vec<&str> = part2.to_vec();
    reversed.extend_from_slice(&part1);

    let mut parser = DefaultLogParser::with_year(2025);
    let mut a1 = Analyzer::new(Granularity::Hour);
    a1.consume_lines(&mut parser, &lines(&part1));
    let mut a2 = Analyzer::new(Granularity::Hour);
    a2.consume_lines(&mut parser, &lines(&part2));
    a1.merge(&a2);
    let merged = build_summary(&a1, &no_filters());

    let concat = analyze(&both, Granularity::Hour);
    let concat_rev = analyze(&reversed, Granularity::Hour);

    assert!(summaries_equal(&merged, &concat));
    assert!(summaries_equal(&merged, &concat_rev));
}
