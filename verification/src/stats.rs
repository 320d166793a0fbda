//! A record of the most recent run. The store has one slot: each run
//! overwrites what the run before left, and nothing is kept beyond that.

use crate::instant::Timestamp;
use vstd::prelude::*;

verus! {

/// What one run processed.
#[derive(Clone, Copy, Debug, PartialEq, Eq, Structural)]
pub struct LogStats {
    /// How many records the run was given.
    pub processed: usize,
    /// How many of them were errors.
    pub errors: usize,
    /// When the run began.
    pub start_time: Timestamp,
}

/// The slot that holds the most recent run, empty until the first run.
#[derive(Clone, Copy, Debug)]
pub struct StatsStore {
    slot: Option<LogStats>,
}

impl View for StatsStore {
    type V = Option<LogStats>;

    closed spec fn view(&self) -> Option<LogStats> {
        self.slot
    }
}

impl StatsStore {
    /// A store that no run has written to.
    pub fn new() -> (r: StatsStore)
        ensures
            r@ is None,
    {
        StatsStore { slot: None }
    }

    /// Overwrites the slot with `stats`.
    pub fn record(&mut self, stats: LogStats)
        ensures
            final(self)@ == Some(stats),
    {
        self.slot = Some(stats);
    }

    /// The most recent run, or nothing where there has been none.
    pub fn read(&self) -> (r: Option<LogStats>)
        ensures
            r == self@,
    {
        self.slot
    }
}

} // verus!
