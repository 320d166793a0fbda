//! The request to an outside text generator for a reading of a batch, and
//! what to report of its reply. Sending the request is not done here.

use crate::entry::{batch_valid, LogEntry};
use crate::instant::{chrono_text, utc_display};
use vstd::prelude::*;
use vstd::string::StringExecFns;

verus! {

/// What came of sending the request.
#[derive(Clone, Debug, PartialEq, Eq)]
pub enum InsightReply {
    /// The generator could not be reached.
    Unreachable,
    /// The generator answered with something that could not be read.
    Unreadable,
    /// The generator answered with something readable; the text of its first
    /// candidate, or nothing where the answer holds no text in that place.
    Received(Option<String>),
}

/// What to report to the caller.
#[derive(Clone, Debug, PartialEq, Eq)]
pub enum InsightReport {
    /// The generator's reading of the batch.
    Analysis(String),
    /// Why there is no reading.
    Failure(String),
}

/// The instructions that precede the records in the request.
pub const PROMPT_HEAD: &'static str =
    "Analyze these logs and provide insights about:\n1. Error patterns\n2. System health\n\
3. Recommendations\n\nLogs:\n ";

/// The instructions that precede the records in the request.
pub open spec fn prompt_head() -> Seq<char> {
    PROMPT_HEAD@
}

/// A line made of an instant's text, a level in square brackets and a
/// message.
pub open spec fn line(instant: Seq<char>, level: Seq<char>, message: Seq<char>) -> Seq<char> {
    instant + " ["@ + level + "] "@ + message
}

/// The line that stands for one record.
pub open spec fn line_of(entry: LogEntry) -> Seq<char> {
    line(
        utc_display(entry.timestamp.secs as int, entry.timestamp.nanos as int),
        entry.level@,
        entry.message@,
    )
}

/// The lines of the first `upto` records, one line feed between each two.
pub open spec fn lines_upto(logs: Seq<LogEntry>, upto: int) -> Seq<char>
    decreases upto,
{
    if upto <= 0 {
        Seq::<char>::empty()
    } else if upto == 1 {
        line_of(logs[0])
    } else {
        lines_upto(logs, upto - 1) + "\n"@ + line_of(logs[upto - 1])
    }
}

/// The whole request text for a batch.
pub open spec fn prompt_of(logs: Seq<LogEntry>) -> Seq<char> {
    prompt_head() + lines_upto(logs, logs.len() as int)
}

/// The reply carries the generator's text.
pub open spec fn carries_text(reply: InsightReply) -> bool {
    reply matches InsightReply::Received(Some(_))
}

/// The text to report of a reply: the generator's text where the reply
/// carries one, and otherwise what went wrong.
pub open spec fn report_text(reply: InsightReply) -> Seq<char> {
    match reply {
        InsightReply::Unreachable => "Failed to reach Gemini API"@,
        InsightReply::Unreadable => "Failed to parse response"@,
        InsightReply::Received(Some(text)) => text@,
        InsightReply::Received(None) => "Analysis failed"@,
    }
}

/// Writes a line from an instant's text, a level and a message.
pub fn format_line(instant: String, level: &str, message: &str) -> (r: String)
    ensures
        r@ == line(instant@, level@, message@),
{
    let mut text = instant;
    text.append(" [");
    text.append(level);
    text.append("] ");
    text.append(message);
    text
}

/// Writes the line that stands for one record.
pub fn render_entry(entry: &LogEntry) -> (r: String)
    requires
        entry.timestamp.valid(),
    ensures
        r@ == line_of(*entry),
{
    format_line(chrono_text(entry.timestamp), entry.level.as_str(), entry.message.as_str())
}

/// Writes a batch as lines, one per record in batch order, with a line feed
/// between each two.
pub fn render_logs(logs: &Vec<LogEntry>) -> (r: String)
    requires
        batch_valid(logs@),
    ensures
        r@ == lines_upto(logs@, logs.len() as int),
{
    let mut text = String::new();
    let n = logs.len();
    let mut i: usize = 0;
    while i < n
        invariant
            i <= n,
            n == logs.len(),
            batch_valid(logs@),
            text@ == lines_upto(logs@, i as int),
        decreases n - i,
    {
        if i > 0 {
            text.append("\n");
        }
        let line = render_entry(&logs[i]);
        text.append(line.as_str());
        proof {
            assert(text@ =~= lines_upto(logs@, i + 1));
        }
        i = i + 1;
    }
    text
}

/// Writes the request for a batch: the instructions, then the batch as lines.
pub fn insight_prompt(logs: &Vec<LogEntry>) -> (r: String)
    requires
        batch_valid(logs@),
    ensures
        r@ == prompt_of(logs@),
{
    let mut prompt = PROMPT_HEAD.to_owned();
    let lines = render_logs(logs);
    prompt.append(lines.as_str());
    prompt
}

/// Decides what to report of a reply. A reply that carries the generator's
/// text is reported as the reading of the batch. Every other reply is a
/// failure with its own message: the generator was not reached, its answer
/// could not be read, or its answer holds no text where one is expected.
pub fn insight_report(reply: InsightReply) -> (r: InsightReport)
    ensures
        match r {
            InsightReport::Analysis(text) => carries_text(reply) && text@ == report_text(reply),
            InsightReport::Failure(text) => !carries_text(reply) && text@ == report_text(reply),
        },
{
    match reply {
        InsightReply::Unreachable => {
            InsightReport::Failure("Failed to reach Gemini API".to_owned())
        },
        InsightReply::Unreadable => InsightReport::Failure("Failed to parse response".to_owned()),
        InsightReply::Received(Some(text)) => InsightReport::Analysis(text),
        InsightReply::Received(None) => InsightReport::Failure("Analysis failed".to_owned()),
    }
}

} // verus!
