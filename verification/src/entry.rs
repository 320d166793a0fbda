//! One log record, and what a batch of them holds.

use crate::instant::Timestamp;
use vstd::prelude::*;

verus! {

/// `serde_json::Value`, any JSON value. Nothing of its inside is known here.
#[verifier::external_type_specification]
#[verifier::external_body]
pub struct ExJsonValue(serde_json::Value);

/// One record of a batch.
#[derive(Clone, Debug)]
pub struct LogEntry {
    /// When the record was written.
    pub timestamp: Timestamp,
    /// Its severity, such as `"INFO"` or `"ERROR"`.
    pub level: String,
    /// Its text.
    pub message: String,
    /// Free-form data attached to it, carried along unread.
    pub metadata: Option<serde_json::Value>,
}

/// The level that marks a record as an error.
pub open spec fn error_level() -> Seq<char> {
    "ERROR"@
}

/// Every record of the batch carries an instant that the calendar has.
pub open spec fn batch_valid(logs: Seq<LogEntry>) -> bool {
    forall|i: int| 0 <= i < logs.len() ==> (#[trigger] logs[i]).timestamp.valid()
}

impl LogEntry {
    /// The record is at the error level.
    pub open spec fn is_error(self) -> bool {
        self.level@ == error_level()
    }

    /// Whether the record's level is `level`, letter for letter.
    pub fn has_level(&self, level: &String) -> (r: bool)
        ensures
            r == (self.level@ == level@),
    {
        self.level == *level
    }

    /// Whether the record is at the error level.
    pub fn at_error_level(&self) -> (r: bool)
        ensures
            r == self.is_error(),
    {
        let mark = "ERROR".to_owned();
        self.has_level(&mark)
    }
}

} // verus!
