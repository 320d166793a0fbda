//! The whole analysis of one batch.

use crate::anomalies::{anomalies_of, detect_anomalies, Anomaly};
use crate::entry::{batch_valid, LogEntry};
use crate::fraction::Fraction;
use crate::instant::{chrono_elapsed, clock_now, Elapsed, Timestamp};
use crate::levels::{error_total, lemma_occurrences_bound, tally_levels, tally_of, LevelTally};
use crate::patterns::{detect_patterns, pattern_views, patterns_of, Pattern};
use crate::series::{generate_time_series, is_series_of, TimePoint};
use crate::stats::{LogStats, StatsStore};
use vstd::prelude::*;

verus! {

/// What the analysis of one batch found.
#[derive(Clone, Debug)]
pub struct LogAnalysis {
    /// How many records the batch has.
    pub total_entries: usize,
    /// How often each level occurs.
    pub by_level: LevelTally,
    /// The share of records at the error level, zero for an empty batch.
    pub error_rate: Fraction,
    /// The known signatures that the batch shows.
    pub patterns: Vec<Pattern>,
    /// The hourly series.
    pub time_series: Vec<TimePoint>,
    /// The windows of the series that stand out.
    pub anomalies: Vec<Anomaly>,
    /// How long the analysis took.
    pub processing_time: Elapsed,
}

impl LogAnalysis {
    /// The analysis is that of `logs`, whatever time it took.
    pub open spec fn describes(self, logs: Seq<LogEntry>) -> bool {
        &&& self.total_entries == logs.len()
        &&& self.by_level.wf()
        &&& self.by_level@ == tally_of(logs)
        &&& self.by_level.total() == logs.len()
        &&& self.error_rate == Fraction::share(error_total(logs) as usize, self.total_entries)
        &&& self.error_rate.within_unit()
        &&& pattern_views(self.patterns@) == patterns_of(logs)
        &&& is_series_of(self.time_series@, logs)
        &&& forall|i: int|
            0 <= i < self.time_series.len() ==> (#[trigger] self.time_series[i]).error_count
                <= self.time_series[i].count
        &&& self.anomalies@ == anomalies_of(self.time_series@)
    }
}

impl LogAnalysis {
    /// In the analysis of a batch the level counts add up to the number of
    /// records. The error rate is zero for an empty batch and otherwise the
    /// number of errors over the number of records, which is at most one. No
    /// window of the series holds more errors than records.
    pub proof fn lemma_totals(self, logs: Seq<LogEntry>)
        requires
            self.describes(logs),
        ensures
            self.by_level.total() == self.total_entries,
            self.total_entries == 0 ==> self.error_rate.numer == 0 && self.error_rate.denom == 1,
            self.total_entries > 0 ==> self.error_rate.numer == error_total(logs)
                && self.error_rate.denom == self.total_entries,
            self.error_rate.numer <= self.error_rate.denom,
            self.by_level.count_at(crate::entry::error_level()) == error_total(logs),
            forall|i: int|
                0 <= i < self.time_series.len() ==> (#[trigger] self.time_series[i]).error_count
                    <= self.time_series[i].count,
    {
        lemma_occurrences_bound(logs, crate::entry::error_level(), logs.len() as int);
    }

    /// The same analysis with the time from `start` to `end` as its
    /// processing time; the time is negative where `end` is the earlier one.
    pub fn timed(self, start: Timestamp, end: Timestamp) -> (r: LogAnalysis)
        requires
            start.plain(),
            end.plain(),
        ensures
            r.processing_time.total_nanos() == end.epoch_nanos() - start.epoch_nanos(),
            r.processing_time.normal(),
            r == (LogAnalysis { processing_time: r.processing_time, ..self }),
    {
        LogAnalysis { processing_time: chrono_elapsed(start, end), ..self }
    }
}

/// What a run over `logs` that began at `start` leaves in the store.
pub open spec fn stats_of(logs: Seq<LogEntry>, start: Timestamp) -> LogStats {
    LogStats {
        processed: logs.len() as usize,
        errors: error_total(logs) as usize,
        start_time: start,
    }
}

/// Analyses a batch for a run that began at `start`, and records the run in
/// the store. The batch is tallied by level, its error rate is the share of
/// records at the error level, it is scanned for the known signatures, its
/// hourly series is built, and the series is searched for anomalies. The
/// processing time is left at zero.
pub fn analyze_at(logs: &Vec<LogEntry>, store: &mut StatsStore, start: Timestamp) -> (r:
    LogAnalysis)
    requires
        batch_valid(logs@),
    ensures
        r.describes(logs@),
        r.processing_time == (Elapsed { secs: 0, nanos: 0 }),
        final(store)@ == Some(stats_of(logs@, start)),
{
    let total_entries = logs.len();
    let by_level = tally_levels(logs);
    let mark = "ERROR".to_owned();
    let errors = by_level.count_of(&mark);
    proof {
        lemma_occurrences_bound(logs@, mark@, logs.len() as int);
    }
    let error_rate = Fraction::of_counts(errors, total_entries);
    let patterns = detect_patterns(logs);
    let time_series = generate_time_series(logs);
    let anomalies = detect_anomalies(&time_series);
    store.record(LogStats { processed: total_entries, errors, start_time: start });
    LogAnalysis {
        total_entries,
        by_level,
        error_rate,
        patterns,
        time_series,
        anomalies,
        processing_time: Elapsed { secs: 0, nanos: 0 },
    }
}

/// Analyses a batch and records the run in the store. The run's start is
/// read from the clock before the work, and the processing time is the time
/// from then to a second reading after it.
pub fn analyze_logs(logs: &Vec<LogEntry>, store: &mut StatsStore) -> (r: LogAnalysis)
    requires
        batch_valid(logs@),
    ensures
        r.describes(logs@),
        r.processing_time.normal(),
        exists|start: Timestamp, end: Timestamp|
            {
                &&& start.plain()
                &&& end.plain()
                &&& final(store)@ == Some(#[trigger] stats_of(logs@, start))
                &&& #[trigger] end.epoch_nanos() - start.epoch_nanos()
                    == r.processing_time.total_nanos()
            },
{
    let start = clock_now();
    let analysis = analyze_at(logs, store, start);
    let end = clock_now();
    analysis.timed(start, end)
}

} // verus!
