//! Windows of the hourly series that stand out: by volume, against the mean
//! and the spread of the series itself, and by the share of errors, against a
//! fixed limit.
//!
//! Every test is decided in whole numbers. With `n` windows, `s` the sum of
//! their counts and `q` the sum of the squares of their counts, the mean is
//! `s / n` and the variance is `q / n - (s / n)^2`. A count `c` lies above the
//! mean by more than two standard deviations exactly when `n * c - s` is
//! positive and its square exceeds `4 * (n * q - s * s)`.

use crate::fraction::Fraction;
use crate::instant::Timestamp;
use crate::series::TimePoint;
use crate::wide::{limb, Wide};
use vstd::prelude::*;

verus! {

/// What an anomaly was measured in.
#[derive(Clone, Copy, Debug, PartialEq, Eq, Structural)]
pub enum Metric {
    /// The number of records in a window.
    LogVolume,
    /// The share of a window's records that are errors.
    ErrorRate,
}

/// The sums over a series from which its mean and standard deviation follow.
#[derive(Clone, Copy, Debug, PartialEq, Eq, Structural)]
pub struct Spread {
    /// How many windows the series has.
    pub points: usize,
    /// The sum of the windows' counts.
    pub total: u128,
    /// The sum of the squares of the windows' counts.
    pub squares: Wide,
}

/// The value that an anomaly exceeded.
#[derive(Clone, Copy, Debug, PartialEq, Eq, Structural)]
pub enum Threshold {
    /// The mean plus two standard deviations of a series with these sums.
    Deviation(Spread),
    /// A fixed fraction.
    Fixed(Fraction),
}

/// One window that stands out in one metric.
#[derive(Clone, Copy, Debug, PartialEq, Eq, Structural)]
pub struct Anomaly {
    /// Where the window starts.
    pub timestamp: Timestamp,
    pub metric: Metric,
    /// What was observed: a count over one, or errors over count.
    pub value: Fraction,
    /// What it exceeded.
    pub threshold: Threshold,
}

/// The sum of the counts of the first `upto` windows.
pub open spec fn count_sum(series: Seq<TimePoint>, upto: int) -> int
    decreases upto,
{
    if upto <= 0 {
        0
    } else {
        count_sum(series, upto - 1) + series[upto - 1].count
    }
}

/// The sum of the squares of the counts of the first `upto` windows.
pub open spec fn square_sum(series: Seq<TimePoint>, upto: int) -> int
    decreases upto,
{
    if upto <= 0 {
        0
    } else {
        square_sum(series, upto - 1) + series[upto - 1].count * series[upto - 1].count
    }
}

/// The sums over a whole series.
pub open spec fn spread_of(series: Seq<TimePoint>) -> Spread {
    Spread {
        points: series.len() as usize,
        total: count_sum(series, series.len() as int) as u128,
        squares: Wide::of(square_sum(series, series.len() as int)),
    }
}

/// The share of errors above which a window stands out: one fifth.
pub open spec fn rate_limit() -> Fraction {
    Fraction { numer: 1, denom: 5 }
}

/// The share of errors in a window, zero for an empty window.
pub open spec fn error_share(point: TimePoint) -> Fraction {
    Fraction::share(point.error_count, point.count)
}

/// The anomalies of one window within a series of the given sums: first by
/// volume, then by error rate.
pub open spec fn point_anomalies(spread: Spread, point: TimePoint) -> Seq<Anomaly> {
    let by_volume = if spread.surpassed_by(point.count) {
        seq![
            Anomaly {
                timestamp: point.timestamp,
                metric: Metric::LogVolume,
                value: Fraction { numer: point.count, denom: 1 },
                threshold: Threshold::Deviation(spread),
            },
        ]
    } else {
        Seq::<Anomaly>::empty()
    };
    let by_rate = if error_share(point).greater_than(rate_limit()) {
        seq![
            Anomaly {
                timestamp: point.timestamp,
                metric: Metric::ErrorRate,
                value: error_share(point),
                threshold: Threshold::Fixed(rate_limit()),
            },
        ]
    } else {
        Seq::<Anomaly>::empty()
    };
    by_volume + by_rate
}

/// The anomalies of the first `upto` windows of a series, in window order.
pub open spec fn anomalies_in(series: Seq<TimePoint>, upto: int) -> Seq<Anomaly>
    decreases upto,
{
    if upto <= 0 {
        Seq::<Anomaly>::empty()
    } else {
        anomalies_in(series, upto - 1) + window_anomalies(series, upto - 1)
    }
}

/// The anomalies of a whole series.
pub open spec fn anomalies_of(series: Seq<TimePoint>) -> Seq<Anomaly> {
    anomalies_in(series, series.len() as int)
}

/// Some anomaly among `found` is in `metric`.
pub open spec fn flags(found: Seq<Anomaly>, metric: Metric) -> bool {
    exists|j: int| 0 <= j < found.len() && (#[trigger] found[j]).metric == metric
}

/// The anomalies of the `k`-th window of a series.
pub open spec fn window_anomalies(series: Seq<TimePoint>, k: int) -> Seq<Anomaly> {
    point_anomalies(spread_of(series), series[k])
}

/// The sums over the windows of a series stay within what their number allows.
pub proof fn lemma_sum_bounds(series: Seq<TimePoint>, upto: int)
    requires
        0 <= upto <= series.len(),
    ensures
        0 <= count_sum(series, upto) <= upto * 0xFFFF_FFFF_FFFF_FFFF,
        0 <= square_sum(series, upto) <= upto * 0xFFFF_FFFF_FFFF_FFFE_0000_0000_0000_0001,
    decreases upto,
{
    if upto > 0 {
        lemma_sum_bounds(series, upto - 1);
        let count = series[upto - 1].count;
        assert(count * count <= 0xFFFF_FFFF_FFFF_FFFF * 0xFFFF_FFFF_FFFF_FFFF) by (nonlinear_arith)
            requires
                0 <= count <= 0xFFFF_FFFF_FFFF_FFFF,
        ;
    }
}

/// The sums that `spread_of` holds are the sums over the series, for a
/// series of a length that the machine can hold.
pub proof fn lemma_spread_sums(series: Seq<TimePoint>)
    requires
        series.len() <= usize::MAX,
    ensures
        spread_of(series).points == series.len(),
        spread_of(series).total == count_sum(series, series.len() as int),
        spread_of(series).squares.value() == square_sum(series, series.len() as int),
        spread_of(series).squares.high == 0,
{
    lemma_sum_bounds(series, series.len() as int);
    let q = square_sum(series, series.len() as int);
    assert(q < limb() * limb()) by {
        let square = 0xFFFF_FFFF_FFFF_FFFE_0000_0000_0000_0001int;
        assert(q <= 0xFFFF_FFFF_FFFF_FFFF * square) by (nonlinear_arith)
            requires
                q <= series.len() * square,
                square >= 0,
                0 <= series.len() <= 0xFFFF_FFFF_FFFF_FFFF,
        ;
    }
    Wide::lemma_value_of(q);
}

/// A window stands out by volume exactly when its count lies above the mean
/// of all counts by more than two standard deviations, and by error rate
/// exactly when it has records and more than a fifth of them are errors.
/// With `n` windows, `s` the sum of their counts and `q` the sum of the
/// squares, the first says that `n * count - s` is positive and its square
/// is more than `4 * (n * q - s * s)`.
pub proof fn lemma_anomaly_rule(series: Seq<TimePoint>, k: int)
    requires
        series.len() <= usize::MAX,
        0 <= k < series.len(),
    ensures
        ({
            let found = window_anomalies(series, k);
            let n = series.len() as int;
            let s = count_sum(series, n);
            let q = square_sum(series, n);
            let count = series[k].count as int;
            let errors = series[k].error_count as int;
            let excess = n * count - s;
            &&& flags(found, Metric::LogVolume) <==> (excess > 0 && excess * excess > 4 * (n * q
                - s * s))
            &&& flags(found, Metric::ErrorRate) <==> (count > 0 && 5 * errors > count)
            &&& forall|j: int|
                0 <= j < found.len() ==> (#[trigger] found[j]).timestamp == series[k].timestamp
        }),
{
    lemma_spread_sums(series);
    let spread = spread_of(series);
    let point = series[k];
    let found = point_anomalies(spread, point);
    if spread.surpassed_by(point.count) {
        assert(found[0].metric == Metric::LogVolume);
    }
    if error_share(point).greater_than(rate_limit()) {
        assert(found[found.len() - 1].metric == Metric::ErrorRate);
    }
}

/// Every anomaly of a series is an anomaly of one of its windows.
pub proof fn lemma_anomaly_origin(series: Seq<TimePoint>, upto: int, j: int)
    requires
        0 <= upto <= series.len(),
        0 <= j < anomalies_in(series, upto).len(),
    ensures
        exists|k: int|
            0 <= k < upto && (#[trigger] window_anomalies(series, k)).contains(
                anomalies_in(series, upto)[j],
            ),
    decreases upto,
{
    let all = anomalies_in(series, upto);
    let rest = anomalies_in(series, upto - 1);
    let own = window_anomalies(series, upto - 1);
    if j < rest.len() {
        lemma_anomaly_origin(series, upto - 1, j);
        let k = choose|k: int|
            0 <= k < upto - 1 && (#[trigger] window_anomalies(series, k)).contains(rest[j]);
        assert(window_anomalies(series, k).contains(all[j]));
    } else {
        assert(own[j - rest.len()] == all[j]);
        assert(window_anomalies(series, upto - 1).contains(all[j]));
    }
}

/// Every anomaly of a window is an anomaly of the series.
pub proof fn lemma_anomaly_reported(series: Seq<TimePoint>, upto: int, k: int, anomaly: Anomaly)
    requires
        0 <= k < upto <= series.len(),
        window_anomalies(series, k).contains(anomaly),
    ensures
        anomalies_in(series, upto).contains(anomaly),
    decreases upto,
{
    let rest = anomalies_in(series, upto - 1);
    let own = window_anomalies(series, upto - 1);
    if k < upto - 1 {
        lemma_anomaly_reported(series, upto - 1, k, anomaly);
        let j = choose|j: int| 0 <= j < rest.len() && rest[j] == anomaly;
        assert(anomalies_in(series, upto)[j] == anomaly);
    } else {
        let j = choose|j: int| 0 <= j < own.len() && own[j] == anomaly;
        assert(anomalies_in(series, upto)[rest.len() + j] == anomaly);
    }
}

impl Metric {
    /// The metric's name on the wire.
    pub open spec fn label(self) -> Seq<char> {
        match self {
            Metric::LogVolume => "log_volume"@,
            Metric::ErrorRate => "error_rate"@,
        }
    }

    /// The metric's name on the wire.
    pub fn name(&self) -> (r: String)
        ensures
            r@ == self.label(),
    {
        match self {
            Metric::LogVolume => "log_volume".to_owned(),
            Metric::ErrorRate => "error_rate".to_owned(),
        }
    }
}

impl Spread {
    /// `count` lies above the mean by more than two standard deviations.
    pub open spec fn surpassed_by(self, count: usize) -> bool {
        let excess = self.points * count - self.total;
        excess > 0 && excess * excess > 4 * (self.points * self.squares.value() - self.total
            * self.total)
    }

    /// The variance of the counts, taken `points * points` times.
    pub open spec fn scaled_variance(self) -> int {
        self.points * self.squares.value() - self.total * self.total
    }

    /// `count` lies above the mean by more than twice the fraction `a / b`.
    pub open spec fn above_mean_by_twice(self, count: usize, a: int, b: int) -> bool {
        b * (self.points * count - self.total) > 2 * (self.points * a)
    }

    /// A count that lies above the mean by more than two standard
    /// deviations lies above it by more than twice any fraction `a / b`
    /// whose square is at most the variance.
    pub proof fn lemma_surpassing_clears_smaller(self, count: usize, a: int, b: int)
        requires
            self.surpassed_by(count),
            a >= 0,
            b > 0,
            (a * a) * (self.points * self.points) <= self.scaled_variance() * (b * b),
        ensures
            self.above_mean_by_twice(count, a, b),
    {
        let n = self.points as int;
        let excess = n * count - self.total;
        let d = self.scaled_variance();
        let left = b * excess;
        let right = 2 * (n * a);
        assert(left * left == (b * b) * (excess * excess)) by (nonlinear_arith)
            requires
                left == b * excess,
        ;
        assert(right * right == 4 * ((a * a) * (n * n))) by (nonlinear_arith)
            requires
                right == 2 * (n * a),
        ;
        assert((b * b) * (excess * excess) > 4 * (d * (b * b))) by (nonlinear_arith)
            requires
                excess * excess > 4 * d,
                b > 0,
        ;
        assert(left > right) by (nonlinear_arith)
            requires
                left * left > right * right,
                left >= 0,
                right >= 0,
        ;
    }

    /// A count that lies above the mean by more than twice a fraction
    /// `a / b` whose square is at least the variance lies above it by more
    /// than two standard deviations.
    pub proof fn lemma_clearing_larger_surpasses(self, count: usize, a: int, b: int)
        requires
            self.above_mean_by_twice(count, a, b),
            a >= 0,
            b > 0,
            (a * a) * (self.points * self.points) >= self.scaled_variance() * (b * b),
        ensures
            self.surpassed_by(count),
    {
        let n = self.points as int;
        let excess = n * count - self.total;
        let d = self.scaled_variance();
        let left = b * excess;
        let right = 2 * (n * a);
        assert(right >= 0) by (nonlinear_arith)
            requires
                right == 2 * (n * a),
                n >= 0,
                a >= 0,
        ;
        assert(excess > 0) by (nonlinear_arith)
            requires
                b * excess > 0,
                b > 0,
        ;
        assert(left * left > right * right) by (nonlinear_arith)
            requires
                left > right,
                right >= 0,
        ;
        assert(left * left == (b * b) * (excess * excess)) by (nonlinear_arith)
            requires
                left == b * excess,
        ;
        assert(right * right == 4 * ((a * a) * (n * n))) by (nonlinear_arith)
            requires
                right == 2 * (n * a),
        ;
        assert(excess * excess > 4 * d) by (nonlinear_arith)
            requires
                (b * b) * (excess * excess) > 4 * (d * (b * b)),
                b > 0,
        ;
    }

    /// Whether `count` lies above the mean by more than two standard
    /// deviations. The sum of squares must fit two limbs, as that of every
    /// series does.
    pub fn is_surpassed_by(&self, count: usize) -> (r: bool)
        requires
            self.squares.high == 0,
        ensures
            r == self.surpassed_by(count),
    {
        proof {
            assert(self.points * count <= 0xFFFF_FFFF_FFFF_FFFF * 0xFFFF_FFFF_FFFF_FFFF)
                by (nonlinear_arith)
                requires
                    0 <= self.points <= 0xFFFF_FFFF_FFFF_FFFF,
                    0 <= count <= 0xFFFF_FFFF_FFFF_FFFF,
            ;
        }
        let scaled: u128 = (self.points as u128) * (count as u128);
        if scaled <= self.total {
            return false;
        }
        let excess: u128 = scaled - self.total;
        let square = Wide::product(self.total, self.total);
        let left = Wide::product(excess, excess).plus(&square.times(4));
        proof {
            let square = limb() * limb();
            assert(self.squares.value() * self.points <= square * 0xFFFF_FFFF_FFFF_FFFF)
                by (nonlinear_arith)
                requires
                    0 <= self.squares.value() < square,
                    0 <= self.points <= 0xFFFF_FFFF_FFFF_FFFF,
            ;
        }
        let right = self.squares.times(self.points as u128).times(4);
        left.exceeds(&right)
    }
}

/// Sums the counts and their squares over a series.
pub fn measure_spread(series: &Vec<TimePoint>) -> (r: Spread)
    ensures
        r == spread_of(series@),
        r.squares.high == 0,
{
    let n = series.len();
    let mut total: u128 = 0;
    let mut squares = Wide::zero();
    let mut i: usize = 0;
    while i < n
        invariant
            i <= n,
            n == series.len(),
            total == count_sum(series@, i as int),
            total <= i * 0xFFFF_FFFF_FFFF_FFFF,
            squares.value() == square_sum(series@, i as int),
            squares.value() <= i * 0xFFFF_FFFF_FFFF_FFFE_0000_0000_0000_0001,
        decreases n - i,
    {
        let count: u128 = series[i].count as u128;
        proof {
            assert(count * count <= 0xFFFF_FFFF_FFFF_FFFF * 0xFFFF_FFFF_FFFF_FFFF)
                by (nonlinear_arith)
                requires
                    0 <= count <= 0xFFFF_FFFF_FFFF_FFFF,
            ;
        }
        total = total + count;
        squares = squares.plus(&Wide::product(count, count));
        i = i + 1;
    }
    proof {
        squares.lemma_of_value();
    }
    Spread { points: n, total, squares }
}

/// Finds the windows of a series that stand out. A window stands out by
/// volume when its count lies above the mean of all counts by more than two
/// standard deviations, and by error rate when more than a fifth of its
/// records are errors. The anomalies come in window order, and within a
/// window the one by volume comes first.
pub fn detect_anomalies(series: &Vec<TimePoint>) -> (r: Vec<Anomaly>)
    ensures
        r@ == anomalies_of(series@),
{
    let mut anomalies: Vec<Anomaly> = Vec::new();
    let n = series.len();
    if n == 0 {
        return anomalies;
    }
    let spread = measure_spread(series);
    let limit = Fraction { numer: 1, denom: 5 };
    let mut i: usize = 0;
    while i < n
        invariant
            i <= n,
            n == series.len(),
            spread == spread_of(series@),
            spread.squares.high == 0,
            limit == rate_limit(),
            anomalies@ == anomalies_in(series@, i as int),
        decreases n - i,
    {
        let point = series[i];
        let ghost before = anomalies@;
        if spread.is_surpassed_by(point.count) {
            anomalies.push(
                Anomaly {
                    timestamp: point.timestamp,
                    metric: Metric::LogVolume,
                    value: Fraction { numer: point.count, denom: 1 },
                    threshold: Threshold::Deviation(spread),
                },
            );
        }
        let rate = Fraction::of_counts(point.error_count, point.count);
        if rate.exceeds(&limit) {
            anomalies.push(
                Anomaly {
                    timestamp: point.timestamp,
                    metric: Metric::ErrorRate,
                    value: rate,
                    threshold: Threshold::Fixed(limit),
                },
            );
        }
        proof {
            assert(anomalies@ =~= before + point_anomalies(spread, point));
        }
        i = i + 1;
    }
    anomalies
}

} // verus!
