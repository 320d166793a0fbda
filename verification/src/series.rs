//! The hourly series: how many records, and how many errors, each one-hour
//! window of a batch holds.
//!
//! The first window starts at the earliest instant of the batch, each further
//! window starts one hour after the one before, and the last window is the
//! one that holds the latest instant. A window holds the records from its
//! start up to, but not including, the start of the next; a window without
//! records is still part of the series.

use crate::entry::{batch_valid, LogEntry};
use crate::instant::{chrono_later, Timestamp, HOUR_SECONDS};
use vstd::prelude::*;

verus! {

/// One window of the series.
#[derive(Clone, Copy, Debug, PartialEq, Eq, Structural)]
pub struct TimePoint {
    /// Where the window starts.
    pub timestamp: Timestamp,
    /// Records in the window.
    pub count: usize,
    /// Records in the window at the error level.
    pub error_count: usize,
}

/// The earliest instant among the first `upto` records of a batch that is
/// not empty.
pub open spec fn earliest_in(logs: Seq<LogEntry>, upto: int) -> Timestamp
    decreases upto,
{
    if upto <= 1 {
        logs[0].timestamp
    } else if logs[upto - 1].timestamp.before(earliest_in(logs, upto - 1)) {
        logs[upto - 1].timestamp
    } else {
        earliest_in(logs, upto - 1)
    }
}

/// The latest instant among the first `upto` records of a batch that is not
/// empty.
pub open spec fn latest_in(logs: Seq<LogEntry>, upto: int) -> Timestamp
    decreases upto,
{
    if upto <= 1 {
        logs[0].timestamp
    } else if latest_in(logs, upto - 1).before(logs[upto - 1].timestamp) {
        logs[upto - 1].timestamp
    } else {
        latest_in(logs, upto - 1)
    }
}

/// The earliest instant of a batch that is not empty.
pub open spec fn earliest(logs: Seq<LogEntry>) -> Timestamp {
    earliest_in(logs, logs.len() as int)
}

/// The latest instant of a batch that is not empty.
pub open spec fn latest(logs: Seq<LogEntry>) -> Timestamp {
    latest_in(logs, logs.len() as int)
}

/// The instant `t` falls into the window that starts at `start`.
pub open spec fn in_window(start: Timestamp, t: Timestamp) -> bool {
    start.at_or_before(t) && t.before(start.hour_later())
}

/// How many of the first `upto` records fall into the window at `start`.
pub open spec fn window_count(logs: Seq<LogEntry>, start: Timestamp, upto: int) -> nat
    decreases upto,
{
    if upto <= 0 {
        0
    } else if in_window(start, logs[upto - 1].timestamp) {
        window_count(logs, start, upto - 1) + 1
    } else {
        window_count(logs, start, upto - 1)
    }
}

/// How many of the first `upto` records fall into the window at `start` and
/// are errors.
pub open spec fn window_errors(logs: Seq<LogEntry>, start: Timestamp, upto: int) -> nat
    decreases upto,
{
    if upto <= 0 {
        0
    } else if in_window(start, logs[upto - 1].timestamp) && logs[upto - 1].is_error() {
        window_errors(logs, start, upto - 1) + 1
    } else {
        window_errors(logs, start, upto - 1)
    }
}

/// The window `point` counts the records of `logs` that fall into it.
pub open spec fn counts_window(point: TimePoint, logs: Seq<LogEntry>) -> bool {
    &&& point.count == window_count(logs, point.timestamp, logs.len() as int)
    &&& point.error_count == window_errors(logs, point.timestamp, logs.len() as int)
}

/// `series` is the hourly series of `logs`.
pub open spec fn is_series_of(series: Seq<TimePoint>, logs: Seq<LogEntry>) -> bool {
    if logs.len() == 0 {
        series.len() == 0
    } else {
        &&& series.len() > 0
        &&& series[0].timestamp == earliest(logs)
        &&& forall|i: int| 0 <= i < series.len() ==> (#[trigger] series[i]).timestamp.valid()
        &&& forall|i: int|
            0 <= i < series.len() - 1 ==> (#[trigger] series[i + 1]).timestamp
                == series[i].timestamp.hour_later()
        &&& series.last().timestamp.at_or_before(latest(logs))
        &&& latest(logs).before(series.last().timestamp.hour_later())
        &&& forall|i: int| 0 <= i < series.len() ==> counts_window(#[trigger] series[i], logs)
    }
}

/// The earliest instant of a batch belongs to one of its records and none
/// of its records is earlier.
pub proof fn lemma_earliest(logs: Seq<LogEntry>, upto: int)
    requires
        1 <= upto <= logs.len(),
    ensures
        exists|i: int| 0 <= i < upto && (#[trigger] logs[i]).timestamp == earliest_in(logs, upto),
        forall|i: int|
            0 <= i < upto ==> earliest_in(logs, upto).at_or_before((#[trigger] logs[i]).timestamp),
    decreases upto,
{
    if upto > 1 {
        lemma_earliest(logs, upto - 1);
        let i = choose|i: int|
            0 <= i < upto - 1 && (#[trigger] logs[i]).timestamp == earliest_in(logs, upto - 1);
        if logs[upto - 1].timestamp.before(earliest_in(logs, upto - 1)) {
            assert(logs[upto - 1].timestamp == earliest_in(logs, upto));
        } else {
            assert(logs[i].timestamp == earliest_in(logs, upto));
        }
    } else {
        assert(logs[0].timestamp == earliest_in(logs, upto));
    }
}

/// The latest instant of a batch belongs to one of its records and none of
/// its records is later.
pub proof fn lemma_latest(logs: Seq<LogEntry>, upto: int)
    requires
        1 <= upto <= logs.len(),
    ensures
        exists|i: int| 0 <= i < upto && (#[trigger] logs[i]).timestamp == latest_in(logs, upto),
        forall|i: int|
            0 <= i < upto ==> (#[trigger] logs[i]).timestamp.at_or_before(latest_in(logs, upto)),
    decreases upto,
{
    if upto > 1 {
        lemma_latest(logs, upto - 1);
        let i = choose|i: int|
            0 <= i < upto - 1 && (#[trigger] logs[i]).timestamp == latest_in(logs, upto - 1);
        if latest_in(logs, upto - 1).before(logs[upto - 1].timestamp) {
            assert(logs[upto - 1].timestamp == latest_in(logs, upto));
        } else {
            assert(logs[i].timestamp == latest_in(logs, upto));
        }
    } else {
        assert(logs[0].timestamp == latest_in(logs, upto));
    }
}

/// A window holds no more errors than records, and no more records than
/// were looked at.
pub proof fn lemma_window_bounds(logs: Seq<LogEntry>, start: Timestamp, upto: int)
    requires
        0 <= upto,
    ensures
        window_errors(logs, start, upto) <= window_count(logs, start, upto) <= upto,
    decreases upto,
{
    if upto > 0 {
        lemma_window_bounds(logs, start, upto - 1);
    }
}

/// Where the `k`-th window after the one at `first` starts, the one at
/// `first` being window zero.
pub open spec fn nth_start(first: Timestamp, k: int) -> Timestamp {
    if k <= 0 {
        first
    } else {
        Timestamp {
            secs: (first.secs + 3_600 * k) as i64,
            nanos: if first.nanos >= 1_000_000_000 {
                (first.nanos - 1_000_000_000) as u32
            } else {
                first.nanos
            },
        }
    }
}

/// The windows of a series start at the earliest instant of the batch and
/// then hour by hour.
pub proof fn lemma_window_starts(series: Seq<TimePoint>, logs: Seq<LogEntry>, k: int)
    requires
        is_series_of(series, logs),
        0 <= k < series.len(),
    ensures
        series[k].timestamp == nth_start(earliest(logs), k),
        series[k].timestamp.secs == earliest(logs).secs + 3_600 * k,
    decreases k,
{
    if k > 0 {
        lemma_window_starts(series, logs, k - 1);
        assert(series[k - 1 + 1].timestamp == series[k - 1].timestamp.hour_later());
        assert(series[k - 1].timestamp.valid());
        assert(series[k].timestamp.valid());
    }
}

/// A series has exactly the windows that start no later than the latest
/// instant of its batch, and it has the first window in any case.
pub proof fn lemma_series_length(series: Seq<TimePoint>, logs: Seq<LogEntry>, k: int)
    requires
        is_series_of(series, logs),
        logs.len() > 0,
        0 <= k,
    ensures
        k < series.len() <==> (k == 0 || earliest(logs).secs + 3_600 * k < latest(logs).secs || (
        earliest(logs).secs + 3_600 * k == latest(logs).secs && nth_start(earliest(logs), k).nanos
            <= latest(logs).nanos)),
{
    let last = series.len() - 1;
    lemma_window_starts(series, logs, last);
    if 0 < k < series.len() {
        lemma_window_starts(series, logs, k);
    }
}

/// A batch has one hourly series only.
pub proof fn lemma_series_unique(a: Seq<TimePoint>, b: Seq<TimePoint>, logs: Seq<LogEntry>)
    requires
        is_series_of(a, logs),
        is_series_of(b, logs),
    ensures
        a == b,
{
    if logs.len() > 0 {
        if a.len() < b.len() {
            lemma_series_length(a, logs, a.len() as int);
            lemma_series_length(b, logs, a.len() as int);
        } else if b.len() < a.len() {
            lemma_series_length(a, logs, b.len() as int);
            lemma_series_length(b, logs, b.len() as int);
        }
        assert forall|k: int| 0 <= k < a.len() implies a[k] == b[k] by {
            lemma_window_starts(a, logs, k);
            lemma_window_starts(b, logs, k);
            assert(counts_window(a[k], logs));
            assert(counts_window(b[k], logs));
        }
    }
    assert(a =~= b);
}

/// The series of a batch that is not empty is contiguous: each window
/// starts one hour after the one before it, the first window holds the
/// earliest instant of the batch, and the last window holds the latest.
pub proof fn lemma_series_span(series: Seq<TimePoint>, logs: Seq<LogEntry>)
    requires
        is_series_of(series, logs),
        logs.len() > 0,
    ensures
        forall|i: int|
            0 <= i < series.len() - 1 ==> (#[trigger] series[i + 1]).timestamp
                == series[i].timestamp.hour_later(),
        in_window(series[0].timestamp, earliest(logs)),
        in_window(series.last().timestamp, latest(logs)),
{
    assert(series[0].timestamp.valid());
}

/// No window of a series holds more errors than records.
pub proof fn lemma_series_errors(series: Seq<TimePoint>, logs: Seq<LogEntry>, k: int)
    requires
        is_series_of(series, logs),
        0 <= k < series.len(),
    ensures
        series[k].error_count <= series[k].count,
{
    assert(counts_window(series[k], logs));
    lemma_window_bounds(logs, series[k].timestamp, logs.len() as int);
}

/// Finds the earliest and the latest instant of a batch; an empty batch has
/// neither.
pub fn time_span(logs: &Vec<LogEntry>) -> (r: Option<(Timestamp, Timestamp)>)
    ensures
        r == (if logs.len() == 0 {
            None
        } else {
            Some((earliest(logs@), latest(logs@)))
        }),
{
    let n = logs.len();
    if n == 0 {
        return None;
    }
    let mut first = logs[0].timestamp;
    let mut last = logs[0].timestamp;
    let mut i: usize = 1;
    while i < n
        invariant
            1 <= i <= n,
            n == logs.len(),
            first == earliest_in(logs@, i as int),
            last == latest_in(logs@, i as int),
        decreases n - i,
    {
        let t = logs[i].timestamp;
        if t.is_before(&first) {
            first = t;
        }
        if last.is_before(&t) {
            last = t;
        }
        i = i + 1;
    }
    Some((first, last))
}

/// Counts the records, and the errors among them, in the window that starts
/// at `start` and ends at `end`; without an end, the window reaches to the
/// end of the calendar.
fn count_window(logs: &Vec<LogEntry>, start: Timestamp, end: Option<Timestamp>) -> (r: (
    usize,
    usize,
))
    requires
        batch_valid(logs@),
        start.valid(),
        end == start.hour_step(),
    ensures
        r.0 == window_count(logs@, start, logs.len() as int),
        r.1 == window_errors(logs@, start, logs.len() as int),
{
    let n = logs.len();
    let mark = "ERROR".to_owned();
    let mut count: usize = 0;
    let mut error_count: usize = 0;
    let mut i: usize = 0;
    while i < n
        invariant
            i <= n,
            n == logs.len(),
            batch_valid(logs@),
            start.valid(),
            end == start.hour_step(),
            mark@ == crate::entry::error_level(),
            count == window_count(logs@, start, i as int),
            error_count == window_errors(logs@, start, i as int),
            error_count <= count <= i,
        decreases n - i,
    {
        let t = logs[i].timestamp;
        let ends_later = match end {
            Some(e) => t.is_before(&e),
            None => true,
        };
        if start.is_at_or_before(&t) && ends_later {
            count = count + 1;
            if logs[i].has_level(&mark) {
                error_count = error_count + 1;
            }
        }
        i = i + 1;
    }
    (count, error_count)
}

/// Builds the hourly series of a batch. An empty batch has an empty series.
/// Otherwise the first window starts at the earliest instant of the batch,
/// every further window starts one hour after the one before it, and the
/// last window is the one that holds the latest instant, also where that
/// instant is the very start of the window. Each window counts the records
/// from its start up to the start of the next, and the errors among them;
/// windows without records are part of the series.
pub fn generate_time_series(logs: &Vec<LogEntry>) -> (r: Vec<TimePoint>)
    requires
        batch_valid(logs@),
    ensures
        is_series_of(r@, logs@),
        forall|i: int| 0 <= i < r.len() ==> (#[trigger] r[i]).error_count <= r[i].count,
{
    let mut series: Vec<TimePoint> = Vec::new();
    let (first, last) = match time_span(logs) {
        Some(span) => span,
        None => {
            return series;
        },
    };
    proof {
        lemma_earliest(logs@, logs.len() as int);
        lemma_latest(logs@, logs.len() as int);
    }
    let mut current = first;
    let mut more = true;
    while more
        invariant
            batch_valid(logs@),
            logs.len() > 0,
            first == earliest(logs@),
            last == latest(logs@),
            last.valid(),
            current.valid(),
            current.at_or_before(last),
            more && series.len() == 0 ==> current == first,
            more && series.len() > 0 ==> current == series@.last().timestamp.hour_later(),
            series.len() > 0 ==> series[0].timestamp == first,
            forall|i: int| 0 <= i < series.len() ==> (#[trigger] series[i]).timestamp.valid(),
            forall|i: int|
                0 <= i < series.len() - 1 ==> (#[trigger] series[i + 1]).timestamp
                    == series[i].timestamp.hour_later(),
            forall|i: int| 0 <= i < series.len() ==> counts_window(#[trigger] series[i], logs@),
            forall|i: int|
                0 <= i < series.len() ==> (#[trigger] series[i]).error_count <= series[i].count,
            !more ==> series.len() > 0 && series@.last().timestamp.at_or_before(last)
                && last.before(series@.last().timestamp.hour_later()),
        decreases last.secs - current.secs + (if more { 1int } else { 0int }),
    {
        let next = chrono_later(current, HOUR_SECONDS);
        let (count, error_count) = count_window(logs, current, next);
        proof {
            lemma_window_bounds(logs@, current, logs.len() as int);
        }
        series.push(TimePoint { timestamp: current, count, error_count });
        match next {
            Some(start) => {
                if start.is_at_or_before(&last) {
                    current = start;
                } else {
                    more = false;
                }
            },
            None => {
                more = false;
            },
        }
    }
    series
}

} // verus!
