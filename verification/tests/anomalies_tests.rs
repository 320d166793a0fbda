use log_analyzer::anomalies::{detect_anomalies, measure_spread, Anomaly, Metric, Spread, Threshold};
use log_analyzer::fraction::Fraction;
use log_analyzer::instant::Timestamp;
use log_analyzer::series::TimePoint;
use log_analyzer::wide::Wide;

fn at(hour: i64) -> Timestamp {
    Timestamp::new(hour * 3_600, 0).unwrap()
}

fn series(counts: &[(usize, usize)]) -> Vec<TimePoint> {
    let mut points = Vec::new();
    for (i, (count, error_count)) in counts.iter().enumerate() {
        points.push(TimePoint {
            timestamp: at(i as i64),
            count: *count,
            error_count: *error_count,
        });
    }
    points
}

fn volumes(counts: &[usize]) -> Vec<TimePoint> {
    let mut points = Vec::new();
    for (i, count) in counts.iter().enumerate() {
        points.push(TimePoint { timestamp: at(i as i64), count: *count, error_count: 0 });
    }
    points
}

fn float_threshold(counts: &[usize]) -> f64 {
    let n = counts.len() as f64;
    let mean = counts.iter().map(|c| *c as f64).sum::<f64>() / n;
    let variance = counts.iter().map(|c| (*c as f64 - mean).powi(2)).sum::<f64>() / n;
    mean + 2.0 * variance.sqrt()
}

#[test]
fn empty_series_has_no_anomalies() {
    assert_eq!(detect_anomalies(&Vec::new()), Vec::new());
}

#[test]
fn uniform_series_has_no_anomalies() {
    assert_eq!(detect_anomalies(&volumes(&[7, 7, 7, 7, 7, 7])), Vec::new());
}

#[test]
fn single_window_never_stands_out_by_volume() {
    assert_eq!(detect_anomalies(&volumes(&[1_000_000])), Vec::new());
    assert_eq!(detect_anomalies(&volumes(&[0])), Vec::new());
}

#[test]
fn count_at_the_threshold_is_no_anomaly() {
    // mean 2, variance 16, standard deviation 4: the threshold is just 10
    assert_eq!(detect_anomalies(&volumes(&[0, 0, 0, 0, 10])), Vec::new());
}

#[test]
fn count_above_the_threshold_is_an_anomaly() {
    // mean 10/6, variance 125/9: the threshold is about 9.12
    let found = detect_anomalies(&volumes(&[0, 0, 0, 0, 0, 10]));
    assert_eq!(
        found,
        vec![Anomaly {
            timestamp: at(5),
            metric: Metric::LogVolume,
            value: Fraction { numer: 10, denom: 1 },
            threshold: Threshold::Deviation(Spread {
                points: 6,
                total: 10,
                squares: Wide { high: 0, mid: 0, low: 100 },
            }),
        }]
    );
}

#[test]
fn volume_rule_agrees_with_the_mean_and_deviation() {
    let cases: [&[usize]; 8] = [
        &[1, 1, 1, 1, 1, 1, 1, 1, 1, 100],
        &[5, 6, 7, 5, 6, 7, 5, 6, 30],
        &[10, 12, 11, 13, 9, 10, 12, 11],
        &[0, 0, 0, 0, 0, 0, 0, 1],
        &[3, 3, 3, 3, 3, 3, 3, 3, 3, 3, 3, 3, 3, 3, 3, 3, 3, 3, 3, 4],
        &[100, 1, 1, 1, 1, 100, 1, 1, 1, 1],
        &[2, 4, 4, 4, 5, 5, 7, 9],
        &[1, 2],
    ];
    for counts in cases {
        let threshold = float_threshold(counts);
        let found = detect_anomalies(&volumes(counts));
        let mut expected = Vec::new();
        for (i, c) in counts.iter().enumerate() {
            if *c as f64 > threshold {
                expected.push((at(i as i64), *c));
            }
        }
        let mut got = Vec::new();
        for a in &found {
            assert_eq!(a.metric, Metric::LogVolume);
            got.push((a.timestamp, a.value.numer));
            assert_eq!(a.value.denom, 1);
        }
        assert_eq!(got, expected);
    }
}

#[test]
fn volume_rule_is_exact_for_the_largest_counts() {
    let m = usize::MAX;
    // with five windows the one count lies exactly at the threshold
    assert_eq!(detect_anomalies(&volumes(&[m, 0, 0, 0, 0])), Vec::new());
    // with six it lies above
    let found = detect_anomalies(&volumes(&[m, 0, 0, 0, 0, 0]));
    assert_eq!(found.len(), 1);
    assert_eq!(found[0].timestamp, at(0));
    assert_eq!(found[0].metric, Metric::LogVolume);
    assert_eq!(found[0].value, Fraction { numer: m, denom: 1 });
    // one less in the five-window series, and the others one more: still none
    assert_eq!(detect_anomalies(&volumes(&[m - 1, 1, 0, 0, 0])), Vec::new());
    assert_eq!(detect_anomalies(&volumes(&[m, m, m, m, m, m, m])), Vec::new());
}

#[test]
fn spread_holds_the_sums() {
    let m = usize::MAX as u128;
    let spread = measure_spread(&volumes(&[usize::MAX, usize::MAX, 3]));
    let squares = Wide::product(m, m).times(2).plus(&Wide::product(3, 3));
    assert_eq!(spread, Spread { points: 3, total: 2 * m + 3, squares });
    assert_eq!(
        measure_spread(&Vec::new()),
        Spread { points: 0, total: 0, squares: Wide { high: 0, mid: 0, low: 0 } }
    );
    assert_eq!(
        measure_spread(&volumes(&[1, 2, 3])),
        Spread { points: 3, total: 6, squares: Wide { high: 0, mid: 0, low: 14 } }
    );
}

#[test]
fn spread_test_is_strict() {
    let spread = measure_spread(&volumes(&[0, 0, 0, 0, 10]));
    assert!(!spread.is_surpassed_by(10));
    assert!(spread.is_surpassed_by(11));
    assert!(!spread.is_surpassed_by(2));
    assert!(!spread.is_surpassed_by(0));
}

#[test]
fn one_fifth_of_errors_is_no_anomaly() {
    assert_eq!(detect_anomalies(&series(&[(5, 1)])), Vec::new());
    assert_eq!(detect_anomalies(&series(&[(10, 2)])), Vec::new());
    assert_eq!(detect_anomalies(&series(&[(1_000_000_000, 200_000_000)])), Vec::new());
}

#[test]
fn more_than_one_fifth_of_errors_is_an_anomaly() {
    assert_eq!(
        detect_anomalies(&series(&[(5, 2)])),
        vec![Anomaly {
            timestamp: at(0),
            metric: Metric::ErrorRate,
            value: Fraction { numer: 2, denom: 5 },
            threshold: Threshold::Fixed(Fraction { numer: 1, denom: 5 }),
        }]
    );
    let close = detect_anomalies(&series(&[(1_000_000_000, 200_000_001)]));
    assert_eq!(close.len(), 1);
    assert_eq!(close[0].value, Fraction { numer: 200_000_001, denom: 1_000_000_000 });
}

#[test]
fn empty_window_has_no_error_rate() {
    assert_eq!(detect_anomalies(&series(&[(0, 0)])), Vec::new());
    assert_eq!(detect_anomalies(&series(&[(0, 3)])), Vec::new());
}

#[test]
fn all_errors_is_an_anomaly() {
    let found = detect_anomalies(&series(&[(4, 4)]));
    assert_eq!(found.len(), 1);
    assert_eq!(found[0].metric, Metric::ErrorRate);
    assert_eq!(found[0].value, Fraction { numer: 4, denom: 4 });
}

#[test]
fn volume_comes_before_error_rate_and_windows_in_order() {
    let input = series(&[(1, 1), (0, 0), (1, 0), (1, 0), (1, 0), (1, 0), (50, 40), (1, 0)]);
    let found = detect_anomalies(&input);
    let spread = measure_spread(&input);
    assert_eq!(
        found,
        vec![
            Anomaly {
                timestamp: at(0),
                metric: Metric::ErrorRate,
                value: Fraction { numer: 1, denom: 1 },
                threshold: Threshold::Fixed(Fraction { numer: 1, denom: 5 }),
            },
            Anomaly {
                timestamp: at(6),
                metric: Metric::LogVolume,
                value: Fraction { numer: 50, denom: 1 },
                threshold: Threshold::Deviation(spread),
            },
            Anomaly {
                timestamp: at(6),
                metric: Metric::ErrorRate,
                value: Fraction { numer: 40, denom: 50 },
                threshold: Threshold::Fixed(Fraction { numer: 1, denom: 5 }),
            },
        ]
    );
}

#[test]
fn metric_names() {
    assert_eq!(Metric::LogVolume.name(), "log_volume");
    assert_eq!(Metric::ErrorRate.name(), "error_rate");
}

#[test]
fn fraction_of_counts() {
    assert_eq!(Fraction::of_counts(3, 0), Fraction { numer: 0, denom: 1 });
    assert_eq!(Fraction::of_counts(0, 0), Fraction { numer: 0, denom: 1 });
    assert_eq!(Fraction::of_counts(3, 4), Fraction { numer: 3, denom: 4 });
    assert_eq!(Fraction::of_counts(0, 9), Fraction { numer: 0, denom: 9 });
}

#[test]
fn fraction_order_is_exact() {
    let fifth = Fraction { numer: 1, denom: 5 };
    assert!(!Fraction { numer: 2, denom: 10 }.exceeds(&fifth));
    assert!(Fraction { numer: 3, denom: 10 }.exceeds(&fifth));
    assert!(!Fraction { numer: 1, denom: 10 }.exceeds(&fifth));
    let m = usize::MAX;
    let near_one = Fraction { numer: m, denom: m - 1 };
    assert!(!near_one.exceeds(&Fraction { numer: m - 1, denom: m - 2 }));
    assert!(Fraction { numer: m - 1, denom: m }.exceeds(&Fraction { numer: m - 2, denom: m - 1 }));
}
