//! Statistical analysis of a batch of structured log entries.
//!
//! One call analyses one batch that is already in memory. It tallies the
//! records by level, takes the share of errors, scans the messages for a
//! fixed list of problem signatures, builds a series of one-hour windows
//! and finds the windows that stand out by volume or by error rate. Every
//! count and every comparison is exact: fractions are kept as two counts, and
//! the test against the mean and the standard deviation is decided in whole
//! numbers.
//!
//! - [`entry`]: one record.
//! - [`instant`]: instants and lengths of time.
//! - [`levels`]: the tally by level.
//! - [`patterns`]: the known signatures and their matches.
//! - [`series`]: the hourly series.
//! - [`anomalies`]: the windows that stand out.
//! - [`analysis`]: the whole analysis, and the record of the last run.
//! - [`stats`]: the store for that record.
//! - [`insight`]: the request to an outside text generator.
//! - [`fraction`], [`wide`]: exact fractions and wide integers.

pub mod analysis;
pub mod anomalies;
pub mod entry;
pub mod fraction;
pub mod insight;
pub mod instant;
pub mod levels;
pub mod patterns;
pub mod series;
pub mod stats;
pub mod wide;
