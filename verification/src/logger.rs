//! The producer's side: the once-initialised logger state, the severity
//! floor, and the channel that carries records to the consumer.

use vstd::prelude::*;
use std::sync::mpsc::{Receiver, Sender};
use crate::dispatch::{dispatch, flush_all, round, Call, Sink};
use crate::record::{LogRecord, RecordView};
use crate::timestamp::{civil_from_unix, unix_now, utc_civil, Timestamp};
use crate::LogLevelTrait;

verus! {

/// The sending end of a standard channel. Opaque here.
#[verifier::external_type_specification]
#[verifier::external_body]
#[verifier::reject_recursive_types(T)]
pub struct ExSender<T>(Sender<T>);

/// The receiving end of a standard channel. Opaque here.
#[verifier::external_type_specification]
#[verifier::external_body]
#[verifier::reject_recursive_types(T)]
pub struct ExReceiver<T>(Receiver<T>);

/// `std::sync::mpsc::channel`: a fresh unbounded channel. Nothing is claimed
/// of the two ends.
#[verifier::external_body]
pub(crate) fn open_channel() -> (ends: (Sender<LogRecord>, Receiver<LogRecord>)) {
    std::sync::mpsc::channel()
}

/// `Sender::send`: true where the record was queued, false where the
/// receiving end is gone. Which of the two depends on the other end.
#[verifier::external_body]
pub(crate) fn send_record(sender: &Sender<LogRecord>, record: LogRecord) -> (queued: bool) {
    sender.send(record).is_ok()
}

/// `Receiver::recv`: waits for the next record; `None` once every sender is
/// gone and the queue is empty. What arrives depends on the senders.
#[verifier::external_body]
pub(crate) fn receive(receiver: &Receiver<LogRecord>) -> (event: Option<LogRecord>) {
    receiver.recv().ok()
}

/// The logger's state: the channel's sending end and the severity floor,
/// both set together, once; and the account of the records that were handed
/// to the channel through this logger, oldest first.
pub struct Logger {
    link: Option<Link>,
    handed: Ghost<Seq<RecordView>>,
}

/// What an initialised logger holds.
struct Link {
    sender: Sender<LogRecord>,
    min_level: i32,
}

/// The consumer's state: the receiving end, the sinks in the order in which
/// each record reaches them, and whether the consumer is still running. It
/// starts running, stops at the end of the channel and never starts again.
pub struct Consumer {
    pub receiver: Receiver<LogRecord>,
    pub handlers: Vec<Sink>,
    pub running: bool,
    pub calls: Ghost<Seq<Call>>,
}

/// What a submission did.
pub struct SendReport {
    /// The consumer of a pipeline that this submission had to set up; the
    /// caller runs it.
    pub started: Option<Consumer>,
    /// False where the consumer was gone and the record is lost.
    pub delivered: bool,
}

impl Logger {
    /// Whether the one initialisation has happened.
    pub closed spec fn is_initialized(&self) -> bool {
        self.link is Some
    }

    /// The severity floor: the configured one, and 0 before any was set.
    pub closed spec fn threshold(&self) -> int {
        match self.link {
            Some(link) => link.min_level as int,
            None => 0,
        }
    }

    /// The records handed to the channel through this logger, oldest first.
    pub closed spec fn handed(&self) -> Seq<RecordView> {
        self.handed@
    }

    /// Whether this logger has the sending end and the floor of `other`.
    pub closed spec fn same_pipeline(&self, other: Logger) -> bool {
        self.link == other.link
    }

    /// Whether the logger may be initialised: only one that never was.
    pub open spec fn may_initialize(&self) -> bool {
        !self.is_initialized()
    }

    /// A logger that has not been initialised and has handed on nothing.
    pub fn new() -> (logger: Logger)
        ensures
            !logger.is_initialized(),
            logger.threshold() == 0,
            logger.handed() == Seq::<RecordView>::empty(),
    {
        Logger { link: None, handed: Ghost(Seq::empty()) }
    }

    /// Whether the one initialisation has happened.
    pub fn initialized(&self) -> (b: bool)
        ensures
            b == self.is_initialized(),
    {
        self.link.is_some()
    }

    /// The severity floor.
    pub fn min_level(&self) -> (m: i32)
        ensures
            m == self.threshold(),
    {
        match &self.link {
            Some(link) => link.min_level,
            None => 0,
        }
    }
}

/// The sink list of a pipeline: the console first, then the caller's sinks
/// in the order given.
pub fn handler_list(console: Sink, custom_handlers: Vec<Sink>) -> (all: Vec<Sink>)
    ensures
        all@ == seq![console] + custom_handlers@,
{
    let mut rest = custom_handlers;
    let mut all: Vec<Sink> = Vec::new();
    all.push(console);
    all.append(&mut rest);
    assert(all@ =~= seq![console] + custom_handlers@);
    all
}

/// Initialises the logger with the console as its only sink, and returns
/// the consumer for the caller to run. A logger is initialised once: a
/// second initialisation is a programming error.
pub fn init_logger(logger: &mut Logger, console: Sink, min_level: i32) -> (consumer: Consumer)
    requires
        old(logger).may_initialize(),
    ensures
        final(logger).is_initialized(),
        final(logger).threshold() == min_level,
        final(logger).handed() == old(logger).handed(),
        consumer.handlers@ == seq![console],
        consumer.running,
        consumer.calls() == Seq::<Call>::empty(),
{
    let none: Vec<Sink> = Vec::new();
    let consumer = init_logger_with_handlers(logger, console, none, min_level);
    assert(consumer.handlers@ =~= seq![console]);
    consumer
}

/// Initialises the logger with the console as first sink and the caller's
/// sinks after it, in the order given, and returns the consumer for the
/// caller to run. A logger is initialised once: a second initialisation is
/// a programming error.
pub fn init_logger_with_handlers(
    logger: &mut Logger,
    console: Sink,
    custom_handlers: Vec<Sink>,
    min_level: i32,
) -> (consumer: Consumer)
    requires
        old(logger).may_initialize(),
    ensures
        final(logger).is_initialized(),
        final(logger).threshold() == min_level,
        final(logger).handed() == old(logger).handed(),
        consumer.handlers@ == seq![console] + custom_handlers@,
        consumer.running,
        consumer.calls() == Seq::<Call>::empty(),
{
    let (sender, receiver) = open_channel();
    let handlers = handler_list(console, custom_handlers);
    logger.link = Some(Link { sender, min_level });
    Consumer { receiver, handlers, running: true, calls: Ghost(Seq::empty()) }
}

/// Whether a record of severity `lvl` is to be emitted: the floor is
/// inclusive.
pub fn is_my_level(logger: &Logger, lvl: i32) -> (passes: bool)
    ensures
        passes == (lvl >= logger.threshold()),
{
    lvl >= logger.min_level()
}

/// The logger after a submission against the logger before it. The record
/// was handed to the channel, after all that were handed to it before. A
/// logger that was initialised keeps its sending end and its floor, and no
/// consumer is started. One that was not is initialised with floor 0, and
/// the report holds the consumer of the new pipeline, running, with the
/// console as its only sink and no call made yet.
pub open spec fn sent(
    before: Logger,
    after: Logger,
    console: Sink,
    record: RecordView,
    report: SendReport,
) -> bool {
    &&& after.is_initialized()
    &&& after.threshold() == before.threshold()
    &&& after.handed() == before.handed().push(record)
    &&& before.is_initialized() ==> after.same_pipeline(before) && report.started is None
    &&& !before.is_initialized() ==> {
        &&& after.threshold() == 0
        &&& report.started is Some
        &&& report.started->0.handlers@ == seq![console]
        &&& report.started->0.running
        &&& report.started->0.calls() == Seq::<Call>::empty()
    }
}

/// Submits a record: hands it to the channel. A logger that was never
/// initialised is first initialised with severity floor 0 and the console as
/// its only sink; the report then holds the new consumer. An initialised
/// logger keeps its channel and floor and `console` is not used. The record
/// is lost, and the report says so, where the consumer is gone.
pub fn internal_send_log(logger: &mut Logger, console: Sink, data: LogRecord) -> (report: SendReport)
    ensures
        sent(*old(logger), *final(logger), console, data@, report),
{
    let started = if logger.initialized() {
        None
    } else {
        Some(init_logger(logger, console, 0))
    };
    let ghost record = data@;
    let delivered = match &logger.link {
        Some(link) => send_record(&link.sender, data),
        None => false,
    };
    logger.handed = Ghost(logger.handed@.push(record));
    SendReport { started, delivered }
}

/// The event with its record, if any, as mathematical values.
pub open spec fn view_of(event: Option<LogRecord>) -> Option<RecordView> {
    match event {
        Some(record) => Some(record@),
        None => None,
    }
}

/// One sink after an event against the same sink before it: it was handed
/// the event's record and not flushed, or, at the channel's end, flushed
/// once and handed nothing.
pub open spec fn served(before: Sink, after: Sink, event: Option<RecordView>) -> bool {
    match event {
        Some(record) => after.seen() == before.seen().push(record) && after.flushes()
            == before.flushes(),
        None => after.seen() == before.seen() && after.flushes() == before.flushes() + 1,
    }
}

/// The sinks after an event against the sinks before it: as many, and each
/// one served.
pub open spec fn fanned_out(before: Seq<Sink>, after: Seq<Sink>, event: Option<RecordView>) -> bool {
    &&& after.len() == before.len()
    &&& forall|i: int| 0 <= i < before.len() ==> served(before[i], #[trigger] after[i], event)
}

/// The consumer after an event against the consumer before it: every sink
/// was served, and the calls were one round over the sinks, first to last.
pub open spec fn acted(before: Consumer, after: Consumer, event: Option<RecordView>) -> bool {
    &&& fanned_out(before.handlers@, after.handlers@, event)
    &&& after.calls() == before.calls() + round(before.handlers.len() as int, event)
}

impl Consumer {
    /// The calls that this consumer has made on its sinks, oldest first.
    pub open spec fn calls(&self) -> Seq<Call> {
        self.calls@
    }

    /// What the consumer does with one event of the channel. While it runs,
    /// a record goes to every sink, first to last, and the consumer runs on;
    /// the end of the channel flushes every sink, first to last, and stops
    /// the consumer. A stopped consumer does nothing.
    pub fn on_event(&mut self, event: Option<LogRecord>) -> (running: bool)
        ensures
            running == (old(self).running && event is Some),
            final(self).running == running,
            final(self).receiver == old(self).receiver,
            old(self).running ==> acted(*old(self), *final(self), view_of(event)),
            !old(self).running ==> final(self).handlers@ == old(self).handlers@ && final(self).calls() == old(self).calls(),
    {
        if !self.running {
            return false;
        }
        match event {
            Some(record) => {
                let made = dispatch(&mut self.handlers, &record);
                self.calls = Ghost(self.calls@ + made@);
            },
            None => {
                let made = flush_all(&mut self.handlers);
                self.calls = Ghost(self.calls@ + made@);
                self.running = false;
            },
        }
        self.running
    }

    /// Waits for the next event of the channel and acts on it. Returns
    /// whether the consumer is to go on: it is, exactly when a record came.
    /// A stopped consumer does not wait and does nothing.
    pub fn step(&mut self) -> (running: bool)
        ensures
            final(self).running == running,
            final(self).receiver == old(self).receiver,
            !old(self).running ==> !running && final(self).handlers@ == old(self).handlers@
                && final(self).calls() == old(self).calls(),
            old(self).running ==> exists|event: Option<RecordView>|
                running == (event is Some) && #[trigger] acted(*old(self), *final(self), event),
    {
        if !self.running {
            return false;
        }
        let event = receive(&self.receiver);
        let ghost shown = view_of(event);
        let running = self.on_event(event);
        assert(running == (shown is Some) && acted(*old(self), *self, shown));
        running
    }
}

/// A level as a value: what a call site is bound to.
#[derive(Clone, Copy, Debug)]
pub struct LogLevel {
    pub color: &'static str,
    pub heading: &'static str,
    pub level: i32,
}

impl LogLevelTrait for LogLevel {
    fn color(&self) -> (c: &'static str)
        ensures
            c == self.color,
    {
        self.color
    }

    fn name(&self) -> (n: &'static str)
        ensures
            n == self.heading,
    {
        self.heading
    }

    fn level(&self) -> (l: i32)
        ensures
            l == self.level,
    {
        self.level
    }
}

/// What a call to log did.
pub enum LogOutcome {
    /// The level is below the floor: nothing was done.
    Filtered,
    /// There was no time to stamp the record with: nothing was done.
    NoClock,
    /// The record was submitted.
    Submitted(SendReport),
}

/// The instant that a reading of the clock stands for: its UTC calendar
/// fields, where the clock gave a count of seconds that the calendar has.
pub open spec fn clock_instant(clock: Option<u64>) -> Option<Timestamp> {
    match clock {
        Some(secs) => if secs <= i64::MAX {
            utc_civil(secs as int)
        } else {
            None
        },
        None => None,
    }
}

/// What logging `msg` at `level` does, given the instant of the clock. Below
/// the floor the outcome is `Filtered`; at or above it, `NoClock` where
/// there is no instant; otherwise the level's record with that message and
/// instant is submitted, as [`sent`] says. Only a submission touches the
/// logger.
pub open spec fn logged(
    level: LogLevel,
    before: Logger,
    after: Logger,
    console: Sink,
    msg: Seq<char>,
    instant: Option<Timestamp>,
    outcome: LogOutcome,
) -> bool {
    match outcome {
        LogOutcome::Filtered => level.level < before.threshold() && after == before,
        LogOutcome::NoClock => level.level >= before.threshold() && instant is None && after
            == before,
        LogOutcome::Submitted(report) => {
            &&& level.level >= before.threshold()
            &&& instant is Some
            &&& sent(before, after, console, level.record_view(msg, instant->0), report)
        },
    }
}

impl LogLevel {
    /// What the record of this level with the given message and time holds.
    pub open spec fn record_view(&self, msg: Seq<char>, timestamp: Timestamp) -> RecordView {
        RecordView {
            color: self.color@,
            heading: self.heading@,
            msg,
            timestamp,
            lvl: self.level as int,
        }
    }

    /// The record of this level with the given message and time.
    pub fn record_at(&self, msg: String, timestamp: Timestamp) -> (record: LogRecord)
        ensures
            record.color == self.color,
            record.heading == self.heading,
            record.msg == msg,
            record.timestamp == timestamp,
            record.lvl == self.level,
            record@ == self.record_view(msg@, timestamp),
    {
        LogRecord { color: self.color, heading: self.heading, msg, timestamp, lvl: self.level }
    }

    /// Logs a message at this level with the time read from the system
    /// clock, as [`LogLevel::log_with_clock`] does it for that reading.
    /// Below the logger's floor no clock is read.
    pub fn log(&self, logger: &mut Logger, console: Sink, msg: String) -> (outcome: LogOutcome)
        ensures
            outcome is Filtered == (self.level < old(logger).threshold()),
            exists|clock: Option<u64>| #[trigger]
                logged(
                    *self,
                    *old(logger),
                    *final(logger),
                    console,
                    msg@,
                    clock_instant(clock),
                    outcome,
                ),
    {
        if !is_my_level(logger, self.level) {
            assert(logged(*self, *old(logger), *logger, console, msg@, clock_instant(None), LogOutcome::Filtered));
            return LogOutcome::Filtered;
        }
        let clock = unix_now();
        self.log_with_clock(logger, console, msg, clock)
    }

    /// Logs a message at this level, given a reading of the clock: the
    /// whole seconds since the start of 1970, or none. The outcome is as
    /// [`logged`] says for the instant of that reading.
    pub fn log_with_clock(
        &self,
        logger: &mut Logger,
        console: Sink,
        msg: String,
        clock: Option<u64>,
    ) -> (outcome: LogOutcome)
        ensures
            logged(*self, *old(logger), *final(logger), console, msg@, clock_instant(clock), outcome),
    {
        if !is_my_level(logger, self.level) {
            return LogOutcome::Filtered;
        }
        match clock {
            Some(secs) => {
                if secs <= 0x7fff_ffff_ffff_ffff {
                    self.log_at(logger, console, msg, secs as i64)
                } else {
                    LogOutcome::NoClock
                }
            },
            None => LogOutcome::NoClock,
        }
    }

    /// Logs a message at this level as of `secs` seconds after the start of
    /// 1970. The outcome is as [`logged`] says for that instant's UTC
    /// calendar fields.
    pub fn log_at(&self, logger: &mut Logger, console: Sink, msg: String, secs: i64) -> (outcome:
        LogOutcome)
        ensures
            logged(*self, *old(logger), *final(logger), console, msg@, utc_civil(secs as int), outcome),
    {
        if !is_my_level(logger, self.level) {
            return LogOutcome::Filtered;
        }
        match civil_from_unix(secs) {
            Some(timestamp) => {
                let record = self.record_at(msg, timestamp);
                LogOutcome::Submitted(internal_send_log(logger, console, record))
            },
            None => LogOutcome::NoClock,
        }
    }
}

/// A logger that was initialised admits no initialisation: neither after
/// one of the two initialising calls nor after a submission.
pub proof fn lemma_initialised_once(logger: Logger)
    requires
        logger.is_initialized(),
    ensures
        !logger.may_initialize(),
{
}

/// Before any initialisation the floor is 0.
pub proof fn lemma_default_floor(logger: Logger)
    requires
        !logger.is_initialized(),
    ensures
        logger.threshold() == 0,
{
}

/// Two records served one after the other reach every sink in that order,
/// and no sink is flushed on the way.
pub proof fn lemma_served_in_order(
    s0: Seq<Sink>,
    s1: Seq<Sink>,
    s2: Seq<Sink>,
    first: RecordView,
    second: RecordView,
)
    requires
        fanned_out(s0, s1, Some(first)),
        fanned_out(s1, s2, Some(second)),
    ensures
        s2.len() == s0.len(),
        forall|i: int|
            0 <= i < s0.len() ==> {
                &&& (#[trigger] s2[i]).seen() == s0[i].seen().push(first).push(second)
                &&& s2[i].flushes() == s0[i].flushes()
            },
{
    assert forall|i: int| 0 <= i < s0.len() implies {
        &&& (#[trigger] s2[i]).seen() == s0[i].seen().push(first).push(second)
        &&& s2[i].flushes() == s0[i].flushes()
    } by {
        assert(served(s0[i], s1[i], Some(first)));
        assert(served(s1[i], s2[i], Some(second)));
    }
}

/// The calls of a run of records over a list of `n` sinks: for each record
/// in turn one round, first sink to last.
pub open spec fn rounds(n: int, records: Seq<RecordView>) -> Seq<Call>
    decreases records.len(),
{
    if records.len() == 0 {
        Seq::<Call>::empty()
    } else {
        rounds(n, records.drop_last()) + round(n, Some(records.last()))
    }
}

/// In a run of consumer states, the state behind place `i` is the state at
/// `i` after the record at `i` was served.
pub open spec fn acted_at(states: Seq<Consumer>, records: Seq<RecordView>, i: int) -> bool {
    acted(states[i], states[i + 1], Some(records[i]))
}

/// Any number of records, served in the order in which they came, reach
/// every sink in that order, each once, and no sink is flushed on the way.
/// The calls made are one round per record, in the order of the records and
/// within a round in the order of the sinks.
pub proof fn lemma_records_in_order(states: Seq<Consumer>, records: Seq<RecordView>)
    requires
        states.len() == records.len() + 1,
        forall|i: int| 0 <= i < records.len() ==> #[trigger] acted_at(states, records, i),
    ensures
        states.last().handlers.len() == states[0].handlers.len(),
        forall|k: int|
            0 <= k < states[0].handlers.len() ==> {
                &&& (#[trigger] states.last().handlers[k]).seen() == states[0].handlers[k].seen()
                    + records
                &&& states.last().handlers[k].flushes() == states[0].handlers[k].flushes()
            },
        states.last().calls() == states[0].calls() + rounds(
            states[0].handlers.len() as int,
            records,
        ),
    decreases records.len(),
{
    let first = states[0];
    let width = first.handlers.len() as int;
    if records.len() == 0 {
        assert forall|k: int| 0 <= k < width implies (#[trigger] states.last().handlers[k]).seen()
            == first.handlers[k].seen() + records by {
            assert(first.handlers[k].seen() + records =~= first.handlers[k].seen());
        }
        assert(first.calls() + rounds(width, records) =~= first.calls());
    } else {
        let n = records.len() as int;
        let earlier_states = states.drop_last();
        let earlier = records.drop_last();
        assert forall|i: int| 0 <= i < earlier.len() implies #[trigger] acted_at(
            earlier_states,
            earlier,
            i,
        ) by {
            assert(acted_at(states, records, i));
        }
        lemma_records_in_order(earlier_states, earlier);
        let before = states[n - 1];
        let after = states[n];
        assert(earlier_states.last() == before);
        assert(states.last() == after);
        assert(acted_at(states, records, n - 1));
        assert forall|k: int| 0 <= k < width implies {
            &&& (#[trigger] after.handlers[k]).seen() == first.handlers[k].seen() + records
            &&& after.handlers[k].flushes() == first.handlers[k].flushes()
        } by {
            assert(served(before.handlers@[k], after.handlers@[k], Some(records[n - 1])));
            assert((first.handlers[k].seen() + earlier).push(records[n - 1])
                =~= first.handlers[k].seen() + records);
        }
        assert((first.calls() + rounds(width, earlier)) + round(width, Some(records.last()))
            =~= first.calls() + rounds(width, records));
    }
}

/// A whole run: the records in turn and then the end of the channel. Every
/// sink was handed exactly the records, in their order, and then flushed
/// once; the calls are the rounds of the records and then one round of
/// flushes, first sink to last, and no other call.
pub proof fn lemma_run_to_end(states: Seq<Consumer>, records: Seq<RecordView>, end: Consumer)
    requires
        states.len() == records.len() + 1,
        forall|i: int| 0 <= i < records.len() ==> #[trigger] acted_at(states, records, i),
        acted(states.last(), end, None),
    ensures
        end.handlers.len() == states[0].handlers.len(),
        forall|k: int|
            0 <= k < states[0].handlers.len() ==> {
                &&& (#[trigger] end.handlers[k]).seen() == states[0].handlers[k].seen() + records
                &&& end.handlers[k].flushes() == states[0].handlers[k].flushes() + 1
            },
        end.calls() == states[0].calls() + rounds(states[0].handlers.len() as int, records)
            + round(states[0].handlers.len() as int, None),
{
    lemma_records_in_order(states, records);
    let last = states.last();
    assert forall|k: int| 0 <= k < states[0].handlers.len() implies {
        &&& (#[trigger] end.handlers[k]).seen() == states[0].handlers[k].seen() + records
        &&& end.handlers[k].flushes() == states[0].handlers[k].flushes() + 1
    } by {
        assert(served(last.handlers@[k], end.handlers@[k], None));
    }
}

/// The end of the channel flushes every sink exactly once and hands no sink
/// a record.
pub proof fn lemma_closed_flushes_once(s0: Seq<Sink>, s1: Seq<Sink>)
    requires
        fanned_out(s0, s1, None),
    ensures
        s1.len() == s0.len(),
        forall|i: int|
            0 <= i < s0.len() ==> {
                &&& (#[trigger] s1[i]).seen() == s0[i].seen()
                &&& s1[i].flushes() == s0[i].flushes() + 1
            },
{
    assert forall|i: int| 0 <= i < s0.len() implies {
        &&& (#[trigger] s1[i]).seen() == s0[i].seen()
        &&& s1[i].flushes() == s0[i].flushes() + 1
    } by {
        assert(served(s0[i], s1[i], None));
    }
}

} // verus!
