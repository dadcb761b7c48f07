//! The consumer's side: what one record becomes on the console, and how a
//! record reaches every sink.

use vstd::prelude::*;
use crate::record::{LogRecord, RecordView};
use crate::style::{ansi_to_colored, rendered, style_of};
use crate::text::{
    digit, lemma_no_occurrence, occurs_at, lemma_pad2_digits, lemma_replace_none, lemma_replace_one,
    lemma_replace_two, pad2, pad4, replace_all,
};
use crate::timestamp::{
    format_timestamp, formatted, token_day, token_full_year, token_hour, token_minute,
    token_second, token_short_year, with_date, with_year, year_in_century, Timestamp,
};
use crate::LogHandler;

verus! {

/// The rendering of the record's timestamp under `pattern`.
pub fn format_log_record_time(record: &LogRecord, pattern: &str) -> (out: String)
    ensures
        out@ == formatted(record.timestamp, pattern@),
{
    format_timestamp(&record.timestamp, pattern)
}

/// The pattern of the console's timestamps.
pub open spec fn console_pattern() -> Seq<char> {
    seq![
        'Y', 'Y', '-', 'M', 'M', '-', 'D', 'D', ' ', 'H', 'H', ':', 'M', 'M', ':', 'S', 'S',
    ]
}

/// The console's rendering of an instant: year in century, minute, day,
/// then hour, minute, second, each as two digits. The pattern's "MM" is the
/// minute in both places.
pub open spec fn console_time(ts: Timestamp) -> Seq<char> {
    pad2(year_in_century(ts.year as int)) + seq!['-'] + pad2(ts.minute as int) + seq!['-'] + pad2(
        ts.day as int,
    ) + seq![' '] + pad2(ts.hour as int) + seq![':'] + pad2(ts.minute as int) + seq![':'] + pad2(
        ts.second as int,
    )
}

/// Under the console's pattern a well-formed instant of a year that is not
/// negative renders as [`console_time`] says.
pub proof fn lemma_console_time(ts: Timestamp)
    requires
        ts.wf(),
        ts.year >= 0,
    ensures
        formatted(ts, console_pattern()) == console_time(ts),
{
    let yy = year_in_century(ts.year as int);
    lemma_pad2_digits(yy);
    lemma_pad2_digits(ts.day as int);
    lemma_pad2_digits(ts.hour as int);
    lemma_pad2_digits(ts.minute as int);
    lemma_pad2_digits(ts.second as int);
    let y1 = digit(yy / 10);
    let y2 = digit(yy % 10);
    let d1 = digit(ts.day as int / 10);
    let d2 = digit(ts.day as int % 10);
    let h1 = digit(ts.hour as int / 10);
    let h2 = digit(ts.hour as int % 10);
    let m1 = digit(ts.minute as int / 10);
    let m2 = digit(ts.minute as int % 10);
    let s1 = digit(ts.second as int / 10);
    let s2 = digit(ts.second as int % 10);

    let t0 = console_pattern();
    let full = token_full_year();
    assert forall|j: int| 0 <= j < t0.len() implies !occurs_at(t0, j, full) by {
        if j == 0 {
            lemma_no_occurrence(t0, j, full, 2);
        } else if j == 1 {
            lemma_no_occurrence(t0, j, full, 1);
        } else {
            lemma_no_occurrence(t0, j, full, 0);
        }
    }
    lemma_replace_none(t0, full, pad4(ts.year as int));

    let t2 = seq![
        y1, y2, '-', 'M', 'M', '-', 'D', 'D', ' ', 'H', 'H', ':', 'M', 'M', ':', 'S', 'S',
    ];
    lemma_single(t0, 0, token_short_year(), pad2(yy), t2);
    assert(with_year(ts, t0) == t2);

    let t3 = seq![y1, y2, '-', 'M', 'M', '-', d1, d2, ' ', 'H', 'H', ':', 'M', 'M', ':', 'S', 'S'];
    lemma_single(t2, 6, token_day(), pad2(ts.day as int), t3);
    assert(with_date(ts, t0) == t3);

    let t4 = seq![y1, y2, '-', 'M', 'M', '-', d1, d2, ' ', h1, h2, ':', 'M', 'M', ':', 'S', 'S'];
    lemma_single(t3, 9, token_hour(), pad2(ts.hour as int), t4);

    let t5 = seq![y1, y2, '-', m1, m2, '-', d1, d2, ' ', h1, h2, ':', m1, m2, ':', 'S', 'S'];
    let mm = token_minute();
    assert(t4.subrange(3, 5) =~= mm);
    assert(t4.subrange(12, 14) =~= mm);
    assert forall|j: int| 0 <= j < t4.len() && j != 3 && j != 12 implies !occurs_at(
        t4,
        j,
        mm,
    ) by {
        if t4[j] != 'M' {
            lemma_no_occurrence(t4, j, mm, 0);
        } else {
            lemma_no_occurrence(t4, j, mm, 1);
        }
    }
    lemma_replace_two(t4, 3, 12, mm, pad2(ts.minute as int));
    assert(replace_all(t4, mm, pad2(ts.minute as int)) =~= t5);

    let t6 = seq![y1, y2, '-', m1, m2, '-', d1, d2, ' ', h1, h2, ':', m1, m2, ':', s1, s2];
    lemma_single(t5, 15, token_second(), pad2(ts.second as int), t6);
    assert(t6 =~= console_time(ts));
}

/// A two-character token that stands once in a text, at `p`, and whose
/// first character stands nowhere else but right behind it: replacing the
/// token gives `expected` if that is the text with the replacement at `p`.
proof fn lemma_single(s: Seq<char>, p: int, token: Seq<char>, with: Seq<char>, expected: Seq<char>)
    requires
        token.len() == 2,
        token[0] == token[1],
        with.len() == 2,
        0 <= p,
        p + 2 <= s.len(),
        s[p] == token[0],
        s[p + 1] == token[0],
        forall|j: int| 0 <= j < s.len() && j != p && j != p + 1 ==> s[j] != token[0],
        expected.len() == s.len(),
        forall|j: int| 0 <= j < s.len() && j != p && j != p + 1 ==> expected[j] == s[j],
        expected[p] == with[0],
        expected[p + 1] == with[1],
    ensures
        replace_all(s, token, with) == expected,
{
    assert(s.subrange(p, p + 2) =~= token);
    assert forall|j: int| 0 <= j < s.len() && j != p implies !occurs_at(s, j, token) by {
        if j == p + 1 {
            lemma_no_occurrence(s, j, token, 1);
        } else {
            lemma_no_occurrence(s, j, token, 0);
        }
    }
    lemma_replace_one(s, p, token, with);
    assert(s.subrange(0, p) + with + s.subrange(p + 2, s.len() as int) =~= expected);
}

/// A console line: the heading in square brackets, " : ", the timestamp,
/// " -> ", the message.
pub open spec fn console_line_of(heading: Seq<char>, time: Seq<char>, msg: Seq<char>) -> Seq<
    char,
> {
    seq!['['] + heading + seq![']', ' ', ':', ' '] + time + seq![' ', '-', '>', ' '] + msg
}

/// Puts a console line together from its three parts.
pub fn compose_console_line(heading: &str, time: &str, msg: &str) -> (line: String)
    ensures
        line@ == console_line_of(heading@, time@, msg@),
{
    proof {
        reveal_strlit("[");
        reveal_strlit("] : ");
        reveal_strlit(" -> ");
    }
    let mut line = String::from_str("[");
    line.append(heading);
    line.append("] : ");
    line.append(time);
    line.append(" -> ");
    line.append(msg);
    assert("["@ =~= seq!['[']);
    assert("] : "@ =~= seq![']', ' ', ':', ' ']);
    assert(" -> "@ =~= seq![' ', '-', '>', ' ']);
    line
}

/// The line that the console shows for a record. The heading is the
/// record's heading, bold and in the colour of the record's code, in one of
/// the forms that the terminal library may give it; the rest of the line is
/// fixed by the record.
pub fn console_line(record: &LogRecord) -> (line: String)
    ensures
        exists|heading: Seq<char>|
            #[trigger] rendered(heading, style_of(record.color@), true, record.heading@) && line@
                == console_line_of(
                heading,
                formatted(record.timestamp, console_pattern()),
                record.msg@,
            ),
{
    proof {
        reveal_strlit("YY-MM-DD HH:MM:SS");
    }
    assert("YY-MM-DD HH:MM:SS"@ =~= console_pattern());
    let ts = format_log_record_time(record, "YY-MM-DD HH:MM:SS");
    let heading = ansi_to_colored(record.color, record.heading).bold().render();
    let line = compose_console_line(heading.as_str(), ts.as_str(), record.msg.as_str());
    assert(rendered(heading@, style_of(record.color@), true, record.heading@) && line@
        == console_line_of(
        heading@,
        formatted(record.timestamp, console_pattern()),
        record.msg@,
    ));
    line
}

/// A sink in a pipeline, with the account of what the pipeline has done
/// with it: the records it was handed, oldest first, and how often it was
/// flushed.
pub struct Sink {
    handler: Box<dyn LogHandler>,
    seen: Ghost<Seq<RecordView>>,
    flushes: Ghost<nat>,
}

impl Sink {
    /// The records handed to this sink so far, oldest first.
    pub closed spec fn seen(&self) -> Seq<RecordView> {
        self.seen@
    }

    /// How often this sink was flushed.
    pub closed spec fn flushes(&self) -> nat {
        self.flushes@
    }

    /// A sink that has been handed nothing yet.
    pub fn new(handler: Box<dyn LogHandler>) -> (sink: Sink)
        ensures
            sink.seen() == Seq::<RecordView>::empty(),
            sink.flushes() == 0,
    {
        Sink { handler, seen: Ghost(Seq::empty()), flushes: Ghost(0) }
    }

    /// Hands one record to the sink.
    pub fn handle(&mut self, record: &LogRecord)
        ensures
            final(self).seen() == old(self).seen().push(record@),
            final(self).flushes() == old(self).flushes(),
    {
        self.handler.handle(record);
        self.seen = Ghost(self.seen@.push(record@));
    }

    /// Flushes the sink.
    pub fn flush(&mut self)
        ensures
            final(self).seen() == old(self).seen(),
            final(self).flushes() == old(self).flushes() + 1,
    {
        self.handler.flush();
        self.flushes = Ghost(self.flushes@ + 1);
    }
}

/// One call on a sink of a list: the sink's place in the list, and the
/// record handed to it, or none for a flush.
pub struct Call {
    pub sink: int,
    pub record: Option<RecordView>,
}

/// One round over a list of `n` sinks: a call on each, first to last, all
/// with the same record, or all flushes.
pub open spec fn round(n: int, event: Option<RecordView>) -> Seq<Call> {
    Seq::new(n as nat, |j: int| Call { sink: j, record: event })
}

/// Hands the record to every sink, first to last. Returns the calls made,
/// in the order in which they were made.
pub fn dispatch(handlers: &mut Vec<Sink>, record: &LogRecord) -> (calls: Ghost<Seq<Call>>)
    ensures
        final(handlers).len() == old(handlers).len(),
        forall|i: int|
            0 <= i < old(handlers).len() ==> {
                &&& (#[trigger] final(handlers)[i]).seen() == old(handlers)[i].seen().push(record@)
                &&& final(handlers)[i].flushes() == old(handlers)[i].flushes()
            },
        calls@ == round(old(handlers).len() as int, Some(record@)),
{
    let n: usize = handlers.len();
    let mut i: usize = 0;
    let mut calls: Ghost<Seq<Call>> = Ghost(Seq::empty());
    assert(calls@ =~= round(0, Some(record@)));
    while i < n
        invariant
            i <= n,
            handlers.len() == n,
            n == old(handlers).len(),
            forall|j: int|
                0 <= j < i ==> {
                    &&& (#[trigger] handlers[j]).seen() == old(handlers)[j].seen().push(record@)
                    &&& handlers[j].flushes() == old(handlers)[j].flushes()
                },
            forall|j: int| i <= j < n ==> handlers[j] == old(handlers)[j],
            calls@ == round(i as int, Some(record@)),
        decreases n - i,
    {
        handlers[i].handle(record);
        proof {
            calls@ = calls@.push(Call { sink: i as int, record: Some(record@) });
            assert(calls@ =~= round(i + 1, Some(record@)));
        }
        i += 1;
    }
    calls
}

/// Flushes every sink once, first to last. No sink is handed a record.
/// Returns the calls made, in the order in which they were made.
pub fn flush_all(handlers: &mut Vec<Sink>) -> (calls: Ghost<Seq<Call>>)
    ensures
        final(handlers).len() == old(handlers).len(),
        forall|i: int|
            0 <= i < old(handlers).len() ==> {
                &&& (#[trigger] final(handlers)[i]).seen() == old(handlers)[i].seen()
                &&& final(handlers)[i].flushes() == old(handlers)[i].flushes() + 1
            },
        calls@ == round(old(handlers).len() as int, None),
{
    let n: usize = handlers.len();
    let mut i: usize = 0;
    let mut calls: Ghost<Seq<Call>> = Ghost(Seq::empty());
    assert(calls@ =~= round(0, None));
    while i < n
        invariant
            i <= n,
            handlers.len() == n,
            n == old(handlers).len(),
            forall|j: int|
                0 <= j < i ==> {
                    &&& (#[trigger] handlers[j]).seen() == old(handlers)[j].seen()
                    &&& handlers[j].flushes() == old(handlers)[j].flushes() + 1
                },
            forall|j: int| i <= j < n ==> handlers[j] == old(handlers)[j],
            calls@ == round(i as int, None),
        decreases n - i,
    {
        handlers[i].flush();
        proof {
            calls@ = calls@.push(Call { sink: i as int, record: None });
            assert(calls@ =~= round(i + 1, None));
        }
        i += 1;
    }
    calls
}

} // verus!
