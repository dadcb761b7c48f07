//! An asynchronous logging pipeline: producers build records and hand them to
//! a channel; one consumer fans each record out to an ordered list of sinks.

use vstd::prelude::*;

pub mod dispatch;
pub mod logger;
pub mod record;
pub mod style;
pub mod text;
pub mod timestamp;

pub use dispatch::{console_line, dispatch, flush_all, format_log_record_time, Call, Sink};
pub use logger::{
    init_logger, init_logger_with_handlers, internal_send_log, is_my_level, Consumer, LogLevel,
    LogOutcome, Logger, SendReport,
};
pub use record::{LogRecord, RecordView};
pub use style::{ansi_to_colored, ansi_to_style, StyledText, TermColor};
pub use timestamp::{format_timestamp, Timestamp};

verus! {

/// A named level: a colour, a heading and a severity.
pub trait LogLevelTrait {
    /// The foreground colour, as an ANSI escape code.
    fn color(&self) -> &'static str;

    /// The heading shown with each record of this level.
    fn name(&self) -> &'static str;

    /// The severity: higher is more important.
    fn level(&self) -> i32;
}

/// An output sink. The consumer hands every record to `handle`, once and in
/// the order of arrival, and calls `flush` once when the channel has closed.
pub trait LogHandler: Send + 'static {
    /// Takes one record.
    fn handle(&mut self, record: &LogRecord);

    /// Persists what is buffered. Does nothing unless overridden.
    fn flush(&mut self) {
    }
}

} // verus!
