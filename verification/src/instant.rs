//! Instants on the UTC time line, held as plain integers.
//!
//! An instant is a count of whole seconds since 1970-01-01T00:00:00Z and a
//! count of nanoseconds within that second. During a leap second the
//! nanosecond count runs from one to two thousand million, so that instants
//! are ordered first by second and then by nanosecond.

use chrono::{DateTime, TimeDelta, Utc};
use vstd::prelude::*;

verus! {

/// The second of the earliest instant the calendar reaches.
pub const MIN_SECONDS: i64 = -8_334_601_228_800;

/// The second of the latest instant the calendar reaches.
pub const MAX_SECONDS: i64 = 8_210_266_876_799;

/// Nanoseconds in a second.
pub const SECOND_NANOS: u32 = 1_000_000_000;

/// Seconds in an hour, the length of one window of the hourly series.
pub const HOUR_SECONDS: i64 = 3_600;

/// A point on the UTC time line.
#[derive(Clone, Copy, Debug, PartialEq, Eq, Structural)]
pub struct Timestamp {
    /// Whole seconds since the epoch; negative before it.
    pub secs: i64,
    /// Nanoseconds into that second; at least `SECOND_NANOS` inside a leap second.
    pub nanos: u32,
}

/// A signed length of time: `secs` whole seconds and `nanos` further
/// nanoseconds, both of one sign.
#[derive(Clone, Copy, Debug, PartialEq, Eq, Structural)]
pub struct Elapsed {
    pub secs: i64,
    pub nanos: i32,
}

impl Elapsed {
    /// The length in nanoseconds.
    pub open spec fn total_nanos(self) -> int {
        self.secs * 1_000_000_000 + self.nanos
    }

    /// Seconds and nanoseconds agree in sign and the nanoseconds stay below a second.
    pub open spec fn normal(self) -> bool {
        &&& -1_000_000_000 < self.nanos < 1_000_000_000
        &&& (self.secs > 0 ==> self.nanos >= 0)
        &&& (self.secs < 0 ==> self.nanos <= 0)
    }
}

impl Timestamp {
    /// The instant exists on the calendar: its second is in range, and its
    /// nanoseconds exceed one second only in the last second of a minute.
    pub open spec fn valid(self) -> bool {
        &&& MIN_SECONDS <= self.secs <= MAX_SECONDS
        &&& self.nanos < 2_000_000_000
        &&& (self.nanos >= 1_000_000_000 ==> self.secs % 60 == 59)
    }

    /// The instant is valid and not inside a leap second.
    pub open spec fn plain(self) -> bool {
        self.valid() && self.nanos < 1_000_000_000
    }

    /// `self` is strictly earlier than `other`.
    pub open spec fn before(self, other: Timestamp) -> bool {
        self.secs < other.secs || (self.secs == other.secs && self.nanos < other.nanos)
    }

    /// `self` is `other` or earlier.
    pub open spec fn at_or_before(self, other: Timestamp) -> bool {
        self.secs < other.secs || (self.secs == other.secs && self.nanos <= other.nanos)
    }

    /// The instant `seconds` whole seconds after `self`, for `seconds` above
    /// zero. A span that starts inside a leap second ends at the same
    /// fraction of an ordinary second.
    pub open spec fn later(self, seconds: int) -> Timestamp {
        Timestamp {
            secs: (self.secs + seconds) as i64,
            nanos: if self.nanos >= 1_000_000_000 {
                (self.nanos - 1_000_000_000) as u32
            } else {
                self.nanos
            },
        }
    }

    /// `seconds` whole seconds after `self`, where the calendar reaches
    /// that far.
    pub open spec fn step(self, seconds: int) -> Option<Timestamp> {
        if self.secs + seconds <= MAX_SECONDS {
            Some(self.later(seconds))
        } else {
            None
        }
    }

    /// The instant one hour after `self`.
    pub open spec fn hour_later(self) -> Timestamp {
        self.later(HOUR_SECONDS as int)
    }

    /// One hour after `self`, where the calendar reaches that far.
    pub open spec fn hour_step(self) -> Option<Timestamp> {
        self.step(HOUR_SECONDS as int)
    }

    /// Nanoseconds since the epoch, for an instant outside a leap second.
    pub open spec fn epoch_nanos(self) -> int {
        self.secs * 1_000_000_000 + self.nanos
    }

    /// Builds the instant `secs` seconds and `nanos` nanoseconds after the
    /// epoch, or nothing when the calendar has no such instant.
    pub fn new(secs: i64, nanos: u32) -> (r: Option<Timestamp>)
        ensures
            r == (if (Timestamp { secs, nanos }).valid() {
                Some(Timestamp { secs, nanos })
            } else {
                None::<Timestamp>
            }),
    {
        if secs < MIN_SECONDS || secs > MAX_SECONDS || nanos >= 2_000_000_000 {
            return None;
        }
        if nanos >= SECOND_NANOS {
            let offset: i64 = secs - MIN_SECONDS;
            if offset % 60 != 59 {
                return None;
            }
        }
        Some(Timestamp { secs, nanos })
    }

    /// Whether `self` is strictly earlier than `other`.
    pub fn is_before(&self, other: &Timestamp) -> (r: bool)
        ensures
            r == self.before(*other),
    {
        self.secs < other.secs || (self.secs == other.secs && self.nanos < other.nanos)
    }

    /// Whether `self` is `other` or earlier.
    pub fn is_at_or_before(&self, other: &Timestamp) -> (r: bool)
        ensures
            r == self.at_or_before(*other),
    {
        self.secs < other.secs || (self.secs == other.secs && self.nanos <= other.nanos)
    }
}

/// The text that `chrono` writes for the instant `secs` seconds and `nanos`
/// nanoseconds after the epoch, as `DateTime<Utc>` displays it.
pub uninterp spec fn utc_display(secs: int, nanos: int) -> Seq<char>;

/// Writes an instant with the `Display` of `chrono::DateTime<Utc>`. The text
/// depends on the instant alone.
#[verifier::external_body]
pub(crate) fn chrono_text(t: Timestamp) -> (r: String)
    requires
        t.valid(),
    ensures
        r@ == utc_display(t.secs as int, t.nanos as int),
{
    match DateTime::from_timestamp(t.secs, t.nanos) {
        Some(at) => at.to_string(),
        None => String::new(),
    }
}

/// Reads the system clock through `chrono::Utc::now`. The clock never reports
/// a leap second, and what it reports lies on the calendar; which instant
/// comes back is not stated. On a machine whose clock stands before 1970 or
/// past the end of the calendar `chrono` stops the program.
#[verifier::external_body]
pub(crate) fn clock_now() -> (t: Timestamp)
    ensures
        t.plain(),
{
    let now = Utc::now();
    Timestamp { secs: now.timestamp(), nanos: now.timestamp_subsec_nanos() }
}

/// Adds whole seconds, more than none, with
/// `chrono::DateTime::checked_add_signed`. The sum lies that many seconds
/// on, with the extra second of a leap second dropped from its nanoseconds,
/// and it is missing exactly when it would lie past the end of the calendar.
#[verifier::external_body]
pub(crate) fn chrono_later(t: Timestamp, seconds: i64) -> (r: Option<Timestamp>)
    requires
        t.valid(),
        seconds > 0,
    ensures
        r == t.step(seconds as int),
{
    let start = DateTime::from_timestamp(t.secs, t.nanos)?;
    let end = start.checked_add_signed(TimeDelta::try_seconds(seconds)?)?;
    Some(Timestamp { secs: end.timestamp(), nanos: end.timestamp_subsec_nanos() })
}

/// Measures from `start` to `end` with
/// `chrono::DateTime::signed_duration_since`. Between two instants outside
/// leap seconds the length is the difference of their nanoseconds since the
/// epoch; it is handed out as whole seconds and a rest of the same sign.
#[verifier::external_body]
pub(crate) fn chrono_elapsed(start: Timestamp, end: Timestamp) -> (r: Elapsed)
    requires
        start.plain(),
        end.plain(),
    ensures
        r.total_nanos() == end.epoch_nanos() - start.epoch_nanos(),
        r.normal(),
{
    let from = DateTime::from_timestamp(start.secs, start.nanos);
    let to = DateTime::from_timestamp(end.secs, end.nanos);
    match (from, to) {
        (Some(from), Some(to)) => {
            let length = to.signed_duration_since(from);
            Elapsed { secs: length.num_seconds(), nanos: length.subsec_nanos() }
        },
        _ => Elapsed { secs: 0, nanos: 0 },
    }
}

} // verus!
