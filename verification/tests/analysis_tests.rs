use log_analyzer::analysis::{analyze_at, analyze_logs};
use log_analyzer::anomalies::Metric;
use log_analyzer::entry::LogEntry;
use log_analyzer::fraction::Fraction;
use log_analyzer::instant::{Elapsed, Timestamp};
use log_analyzer::patterns::Pattern;
use log_analyzer::series::TimePoint;
use log_analyzer::stats::{LogStats, StatsStore};

const BASE: i64 = 1_705_314_600;

fn at(secs: i64) -> Timestamp {
    Timestamp::new(secs, 0).unwrap()
}

fn record(secs: i64, level: &str, message: &str) -> LogEntry {
    LogEntry {
        timestamp: at(secs),
        level: level.to_string(),
        message: message.to_string(),
        metadata: None,
    }
}

fn five_records() -> Vec<LogEntry> {
    vec![
        record(BASE, "INFO", "service started"),
        record(BASE + 60, "INFO", "listening for requests"),
        record(BASE + 120, "ERROR", "connection timeout occurred"),
        record(BASE + 180, "INFO", "request served"),
        record(BASE + 3_599, "INFO", "request served"),
    ]
}

#[test]
fn five_records_within_one_hour() {
    let mut store = StatsStore::new();
    let analysis = analyze_logs(&five_records(), &mut store);
    assert_eq!(analysis.total_entries, 5);
    assert_eq!(analysis.by_level.entries.len(), 2);
    assert_eq!(analysis.by_level.count_of(&"INFO".to_string()), 4);
    assert_eq!(analysis.by_level.count_of(&"ERROR".to_string()), 1);
    assert_eq!(analysis.error_rate, Fraction { numer: 1, denom: 5 });
    assert_eq!(analysis.error_rate.numer as f64 / analysis.error_rate.denom as f64, 0.2);
    assert_eq!(
        analysis.patterns,
        vec![Pattern {
            pattern: "timeout".to_string(),
            occurrences: 1,
            examples: vec!["connection timeout occurred".to_string()],
        }]
    );
    assert_eq!(
        analysis.time_series,
        vec![TimePoint { timestamp: at(BASE), count: 5, error_count: 1 }]
    );
    assert_eq!(analysis.anomalies, Vec::new());
}

#[test]
fn empty_batch() {
    let mut store = StatsStore::new();
    let analysis = analyze_logs(&Vec::new(), &mut store);
    assert_eq!(analysis.total_entries, 0);
    assert!(analysis.by_level.entries.is_empty());
    assert_eq!(analysis.error_rate, Fraction { numer: 0, denom: 1 });
    assert_eq!(analysis.error_rate.numer as f64 / analysis.error_rate.denom as f64, 0.0);
    assert!(analysis.patterns.is_empty());
    assert!(analysis.time_series.is_empty());
    assert!(analysis.anomalies.is_empty());
    let stats = store.read().unwrap();
    assert_eq!(stats.processed, 0);
    assert_eq!(stats.errors, 0);
}

#[test]
fn two_records_ninety_minutes_apart() {
    let mut store = StatsStore::new();
    let logs = vec![record(BASE, "INFO", "a"), record(BASE + 90 * 60, "INFO", "b")];
    let analysis = analyze_logs(&logs, &mut store);
    assert_eq!(analysis.time_series.len(), 2);
    assert_eq!(
        analysis.time_series,
        vec![
            TimePoint { timestamp: at(BASE), count: 1, error_count: 0 },
            TimePoint { timestamp: at(BASE + 3_600), count: 1, error_count: 0 },
        ]
    );
}

#[test]
fn a_run_is_recorded_in_the_store() {
    let mut store = StatsStore::new();
    let start = at(BASE + 99);
    let analysis = analyze_at(&five_records(), &mut store, start);
    assert_eq!(store.read(), Some(LogStats { processed: 5, errors: 1, start_time: start }));
    assert_eq!(analysis.processing_time, Elapsed { secs: 0, nanos: 0 });
    assert_eq!(analysis.total_entries, 5);
}

#[test]
fn timing_changes_the_processing_time_only() {
    let mut store = StatsStore::new();
    let start = Timestamp::new(BASE, 900_000_000).unwrap();
    let end = Timestamp::new(BASE + 2, 100_000_000).unwrap();
    let plain = analyze_at(&five_records(), &mut store, start);
    let timed = plain.clone().timed(start, end);
    assert_eq!(timed.processing_time, Elapsed { secs: 1, nanos: 200_000_000 });
    assert_eq!(timed.total_entries, plain.total_entries);
    assert_eq!(timed.by_level.entries, plain.by_level.entries);
    assert_eq!(timed.error_rate, plain.error_rate);
    assert_eq!(timed.patterns, plain.patterns);
    assert_eq!(timed.time_series, plain.time_series);
    assert_eq!(timed.anomalies, plain.anomalies);
    assert_eq!(store.read(), Some(LogStats { processed: 5, errors: 1, start_time: start }));
}

#[test]
fn a_later_run_overwrites_the_earlier() {
    let mut store = StatsStore::new();
    analyze_at(&five_records(), &mut store, at(1));
    let logs = vec![record(BASE, "ERROR", "x"), record(BASE, "ERROR", "y")];
    analyze_at(&logs, &mut store, at(2));
    assert_eq!(store.read(), Some(LogStats { processed: 2, errors: 2, start_time: at(2) }));
}

#[test]
fn the_clock_gives_the_start_and_the_time_taken() {
    let mut store = StatsStore::new();
    let analysis = analyze_logs(&five_records(), &mut store);
    let stats = store.read().unwrap();
    assert_eq!(stats.processed, 5);
    assert_eq!(stats.errors, 1);
    assert!(stats.start_time.secs > 1_600_000_000);
    assert!(stats.start_time.nanos < 1_000_000_000);
    let taken = analysis.processing_time;
    assert!(taken.secs >= 0 && taken.nanos >= 0);
    assert!(taken.secs < 20);
}

#[test]
fn error_rate_without_errors_is_zero_over_the_total() {
    let mut store = StatsStore::new();
    let logs =
        vec![record(BASE, "INFO", "a"), record(BASE, "WARN", "b"), record(BASE, "error", "c")];
    let analysis = analyze_logs(&logs, &mut store);
    assert_eq!(analysis.error_rate, Fraction { numer: 0, denom: 3 });
    assert_eq!(store.read().unwrap().errors, 0);
}

#[test]
fn level_counts_add_up_to_the_total() {
    let mut store = StatsStore::new();
    let logs = vec![
        record(BASE, "INFO", "a"),
        record(BASE + 1, "ERROR", "b"),
        record(BASE + 2, "DEBUG", "c"),
        record(BASE + 3, "ERROR", "d"),
        record(BASE + 4, "INFO", "e"),
        record(BASE + 5, "TRACE", "f"),
        record(BASE + 6, "ERROR", "g"),
    ];
    let analysis = analyze_logs(&logs, &mut store);
    let mut sum = 0;
    for entry in &analysis.by_level.entries {
        sum += entry.count;
    }
    assert_eq!(sum, analysis.total_entries);
    assert_eq!(analysis.error_rate, Fraction { numer: 3, denom: 7 });
}

#[test]
fn a_burst_of_errors_stands_out_twice() {
    let mut logs = Vec::new();
    for hour in 0..8 {
        logs.push(record(BASE + hour * 3_600, "INFO", "tick"));
    }
    for i in 0..40 {
        logs.push(record(BASE + 8 * 3_600 + i, "ERROR", "error code 503"));
    }
    let mut store = StatsStore::new();
    let analysis = analyze_logs(&logs, &mut store);
    assert_eq!(analysis.total_entries, 48);
    assert_eq!(analysis.time_series.len(), 9);
    assert_eq!(
        analysis.time_series[8],
        TimePoint { timestamp: at(BASE + 8 * 3_600), count: 40, error_count: 40 }
    );
    assert_eq!(analysis.anomalies.len(), 2);
    assert_eq!(analysis.anomalies[0].timestamp, at(BASE + 8 * 3_600));
    assert_eq!(analysis.anomalies[0].metric, Metric::LogVolume);
    assert_eq!(analysis.anomalies[0].value, Fraction { numer: 40, denom: 1 });
    assert_eq!(analysis.anomalies[1].timestamp, at(BASE + 8 * 3_600));
    assert_eq!(analysis.anomalies[1].metric, Metric::ErrorRate);
    assert_eq!(analysis.anomalies[1].value, Fraction { numer: 40, denom: 40 });
    assert_eq!(analysis.patterns.len(), 1);
    assert_eq!(analysis.patterns[0].pattern, r"error code \d+");
    assert_eq!(analysis.patterns[0].occurrences, 40);
    assert_eq!(analysis.patterns[0].examples.len(), 3);
    assert_eq!(analysis.error_rate, Fraction { numer: 40, denom: 48 });
}
