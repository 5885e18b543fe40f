use log_analyzer::analyze::{Analyzer, Granularity};
use log_analyzer::model::Timestamp;
use log_analyzer::parse::DefaultLogParser;

fn ts(year: u32, month: u32, day: u32, hour: u32, minute: u32, second: u32) -> Timestamp {
    Timestamp { year, month, day, hour, minute, second }
}

fn lines(texts: &[&str]) -> Vec<String> {
    texts.iter().map(|s| s.to_string()).collect()
}

#[test]
fn counts_plus_malformed_account_for_every_line() {
    let mut parser = DefaultLogParser::with_year(2025);
    let mut an = Analyzer::new(Granularity::Hour);
    let input = lines(&[
        "2025-09-05 14:32:10 INFO one",
        "this is not a log line",
        "2025-09-05 14:40:00 ERROR two",
        "2025-13-45 99:99:99 INFO bad ts",
        "2025-09-05 15:00:01 WARN three",
    ]);
    an.consume_lines(&mut parser, &input);
    assert_eq!(an.info + an.warning + an.error, 3);
    assert_eq!(an.malformed_lines, 2);
    assert_eq!(an.info, 1);
    assert_eq!(an.warning, 1);
    assert_eq!(an.error, 1);
    let timeline_total: u64 = an.timeline.iter().map(|(_, c)| *c).sum();
    assert_eq!(timeline_total, 3);
}

#[test]
fn unmatched_line_contributes_nothing_else() {
    let mut parser = DefaultLogParser::with_year(2025);
    let mut an = Analyzer::new(Granularity::Hour);
    an.consume_lines(&mut parser, &lines(&["this is not a log line"]));
    assert_eq!(an.malformed_lines, 1);
    assert_eq!(an.info + an.warning + an.error, 0);
    assert!(an.first.is_none());
    assert!(an.last.is_none());
    assert!(an.timeline.is_empty());
    assert!(an.error_messages.is_empty());
}

#[test]
fn bucketing_is_idempotent_on_bucket_starts() {
    for g in [Granularity::Minute, Granularity::Hour, Granularity::Day] {
        let an = Analyzer::new(g);
        let b = an.bucket(ts(2025, 9, 5, 14, 32, 10));
        assert_eq!(an.bucket(b), b);
    }
}

#[test]
fn bucketing_is_monotonic() {
    let an = Analyzer::new(Granularity::Hour);
    let t1 = ts(2025, 9, 5, 14, 59, 59);
    let t2 = ts(2025, 9, 5, 15, 0, 0);
    assert!(an.bucket(t1).key() <= an.bucket(t2).key());
    let t3 = ts(2024, 12, 31, 23, 59, 59);
    assert!(an.bucket(t3).key() <= an.bucket(t1).key());
}

#[test]
fn day_granularity_groups_a_whole_day() {
    let an = Analyzer::new(Granularity::Day);
    let b1 = an.bucket(ts(2025, 9, 5, 14, 32, 10));
    let b2 = an.bucket(ts(2025, 9, 5, 23, 59, 59));
    assert_eq!(b1, b2);
    assert_eq!(b1, ts(2025, 9, 5, 0, 0, 0));
}

#[test]
fn minute_and_hour_buckets_truncate() {
    let t = ts(2025, 9, 5, 14, 32, 10);
    assert_eq!(Analyzer::new(Granularity::Minute).bucket(t), ts(2025, 9, 5, 14, 32, 0));
    assert_eq!(Analyzer::new(Granularity::Hour).bucket(t), ts(2025, 9, 5, 14, 0, 0));
}

#[test]
fn first_and_last_track_extremes_regardless_of_order() {
    let mut parser = DefaultLogParser::with_year(2025);
    let mut an = Analyzer::new(Granularity::Hour);
    an.consume_lines(
        &mut parser,
        &lines(&[
            "2025-09-05 14:32:10 INFO mid",
            "2025-09-01 00:00:00 INFO early",
            "2025-09-07 10:00:00 INFO late",
        ]),
    );
    assert_eq!(an.first, Some(ts(2025, 9, 1, 0, 0, 0)));
    assert_eq!(an.last, Some(ts(2025, 9, 7, 10, 0, 0)));
}

#[test]
fn timeline_keys_are_ascending_and_counts_accumulate() {
    let mut parser = DefaultLogParser::with_year(2025);
    let mut an = Analyzer::new(Granularity::Hour);
    an.consume_lines(
        &mut parser,
        &lines(&[
            "2025-09-05 15:10:00 INFO a",
            "2025-09-05 14:32:10 INFO b",
            "2025-09-05 14:40:00 INFO c",
        ]),
    );
    let keys: Vec<Timestamp> = an.timeline.iter().map(|(k, _)| *k).collect();
    assert_eq!(keys, vec![ts(2025, 9, 5, 14, 0, 0), ts(2025, 9, 5, 15, 0, 0)]);
    let counts: Vec<u64> = an.timeline.iter().map(|(_, c)| *c).collect();
    assert_eq!(counts, vec![2, 1]);
}

#[test]
fn error_messages_are_aggregated_by_exact_text() {
    let mut parser = DefaultLogParser::with_year(2025);
    let mut an = Analyzer::new(Granularity::Hour);
    an.consume_lines(
        &mut parser,
        &lines(&[
            "2025-09-05 14:00:00 ERROR boom",
            "2025-09-05 14:01:00 ERROR boom",
            "2025-09-05 14:02:00 ERROR other",
            "2025-09-05 14:03:00 WARN boom",
        ]),
    );
    let mut entries: Vec<(String, u64)> = an.error_messages.clone();
    entries.sort();
    assert_eq!(entries, vec![("boom".to_string(), 2), ("other".to_string(), 1)]);
}
