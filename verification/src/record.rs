//! The unit of data that flows through the pipeline.

use vstd::prelude::*;
use crate::timestamp::Timestamp;

verus! {

/// One logged event. Built once, fully, and never changed afterwards.
pub struct LogRecord {
    /// The foreground colour, as an ANSI escape code.
    pub color: &'static str,
    /// The label of the level.
    pub heading: &'static str,
    /// The text of the event.
    pub msg: String,
    /// When the event was emitted.
    pub timestamp: Timestamp,
    /// The severity: higher is more important.
    pub lvl: i32,
}

/// What a record holds, as mathematical values.
pub struct RecordView {
    pub color: Seq<char>,
    pub heading: Seq<char>,
    pub msg: Seq<char>,
    pub timestamp: Timestamp,
    pub lvl: int,
}

impl View for LogRecord {
    type V = RecordView;

    open spec fn view(&self) -> RecordView {
        RecordView {
            color: self.color@,
            heading: self.heading@,
            msg: self.msg@,
            timestamp: self.timestamp,
            lvl: self.lvl as int,
        }
    }
}

} // verus!
