//! Log entries.

use vstd::prelude::*;
use crate::datetime::DateTime;
use crate::level::LogLevel;

verus! {

/// One parsed log record.
#[derive(Debug)]
pub struct LogEntry {
    /// The timestamp as it stood in the line.
    pub timestamp: String,
    /// The timestamp as a point in time, for comparisons.
    pub datetime: DateTime,
    pub level: LogLevel,
    /// The rest of the line, verbatim.
    pub message: String,
}

/// The mathematical value of a `LogEntry`.
pub struct EntryView {
    pub timestamp: Seq<char>,
    pub datetime: DateTime,
    pub level: LogLevel,
    pub message: Seq<char>,
}

impl View for LogEntry {
    type V = EntryView;

    open spec fn view(&self) -> EntryView {
        EntryView {
            timestamp: self.timestamp@,
            datetime: self.datetime,
            level: self.level,
            message: self.message@,
        }
    }
}

impl Clone for LogEntry {
    fn clone(&self) -> (r: LogEntry)
        ensures
            r@ == self@,
    {
        LogEntry {
            timestamp: self.timestamp.clone(),
            datetime: self.datetime,
            level: self.level,
            message: self.message.clone(),
        }
    }
}

/// The values of a sequence of entries, in order.
pub open spec fn views(entries: Seq<LogEntry>) -> Seq<EntryView> {
    entries.map_values(|e: LogEntry| e@)
}

} // verus!
