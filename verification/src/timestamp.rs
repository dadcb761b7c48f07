//! Calendar instants and the pattern language that renders them.

use vstd::prelude::*;
use crate::text::{
    chars_of, lemma_pad2_len, lemma_pad4_len, lemma_replace_from_len, pad2, pad4, push_pad2,
    push_pad4, replace, replace_all, string_of,
};

verus! {

/// A UTC instant by its calendar fields, to the second.
#[derive(Clone, Copy, Debug, PartialEq, Eq)]
pub struct Timestamp {
    pub year: i32,
    pub month: u32,
    pub day: u32,
    pub hour: u32,
    pub minute: u32,
    pub second: u32,
}

impl Timestamp {
    /// The fields name a month, a day of the month and a time of day.
    pub open spec fn wf(&self) -> bool {
        &&& 1 <= self.month <= 12
        &&& 1 <= self.day <= 31
        &&& self.hour < 24
        &&& self.minute < 60
        &&& self.second < 60
    }
}

/// The seconds since the last midnight at `secs` seconds after the start of
/// 1970, in UTC without leap seconds.
pub open spec fn second_of_day(secs: int) -> int {
    secs % 86400
}

/// The calendar fields, in UTC, of the instant `secs` seconds after the
/// start of 1970, as `chrono::DateTime::from_timestamp` gives them; `None`
/// where chrono has no such instant.
pub uninterp spec fn utc_civil(secs: int) -> Option<Timestamp>;

/// `chrono::DateTime::from_timestamp` with no nanoseconds, its calendar
/// fields read with `Datelike` and `Timelike`. The result is a function of
/// `secs` alone and goes by the name [`utc_civil`]. Claimed besides: the
/// ranges that chrono documents for month, day, hour, minute and second, and
/// the time of day, which chrono takes from the seconds since midnight.
#[verifier::external_body]
pub(crate) fn civil_from_unix(secs: i64) -> (ts: Option<Timestamp>)
    ensures
        ts == utc_civil(secs as int),
        ts matches Some(t) ==> {
            &&& t.wf()
            &&& t.hour == second_of_day(secs as int) / 3600
            &&& t.minute == (second_of_day(secs as int) / 60) % 60
            &&& t.second == second_of_day(secs as int) % 60
        },
{
    match chrono::DateTime::from_timestamp(secs, 0) {
        Some(at) => Some(
            Timestamp {
                year: chrono::Datelike::year(&at),
                month: chrono::Datelike::month(&at),
                day: chrono::Datelike::day(&at),
                hour: chrono::Timelike::hour(&at),
                minute: chrono::Timelike::minute(&at),
                second: chrono::Timelike::second(&at),
            },
        ),
        None => None,
    }
}

/// A reading of the system clock. Opaque here.
#[verifier::external_type_specification]
#[verifier::external_body]
pub struct ExSystemTime(std::time::SystemTime);

/// `std::time::SystemTime::now`: the reading is whatever the system clock
/// says, so nothing is claimed of it.
#[verifier::external_body]
pub(crate) fn clock_now() -> (now: std::time::SystemTime) {
    std::time::SystemTime::now()
}

/// `std::time::SystemTime::duration_since` from the start of 1970: `None`
/// for a reading that lies before it. Nothing is claimed of the duration.
#[verifier::external_body]
pub(crate) fn since_epoch(now: &std::time::SystemTime) -> (since: Option<core::time::Duration>) {
    now.duration_since(std::time::UNIX_EPOCH).ok()
}

/// `core::time::Duration::as_secs`: the whole seconds of a duration.
/// Nothing is claimed of the number.
#[verifier::external_body]
pub(crate) fn whole_seconds(since: &core::time::Duration) -> (secs: u64) {
    since.as_secs()
}

/// Reads the system clock: the whole seconds since the start of 1970, or
/// none for a clock set before that.
pub(crate) fn unix_now() -> (secs: Option<u64>) {
    let now = clock_now();
    match since_epoch(&now) {
        Some(since) => Some(whole_seconds(&since)),
        None => None,
    }
}

/// The last two digits of a year, carrying the year's sign.
pub open spec fn year_in_century(year: int) -> int {
    if year >= 0 {
        year % 100
    } else {
        -((-year) % 100)
    }
}

/// The token that stands for the full year.
pub open spec fn token_full_year() -> Seq<char> {
    seq!['Y', 'Y', 'Y', 'Y']
}

/// The token that stands for the year within its century.
pub open spec fn token_short_year() -> Seq<char> {
    seq!['Y', 'Y']
}

/// The token that stands for the day of the month.
pub open spec fn token_day() -> Seq<char> {
    seq!['D', 'D']
}

/// The token that stands for the hour.
pub open spec fn token_hour() -> Seq<char> {
    seq!['H', 'H']
}

/// The token that stands for the minute.
pub open spec fn token_minute() -> Seq<char> {
    seq!['M', 'M']
}

/// The token that stands for the second.
pub open spec fn token_second() -> Seq<char> {
    seq!['S', 'S']
}

/// The pattern after the two year tokens have been replaced, the longer one
/// first.
pub open spec fn with_year(ts: Timestamp, pattern: Seq<char>) -> Seq<char> {
    replace_all(
        replace_all(pattern, token_full_year(), pad4(ts.year as int)),
        token_short_year(),
        pad2(year_in_century(ts.year as int)),
    )
}

/// The pattern after the year and day tokens have been replaced.
pub open spec fn with_date(ts: Timestamp, pattern: Seq<char>) -> Seq<char> {
    replace_all(with_year(ts, pattern), token_day(), pad2(ts.day as int))
}

/// The rendering of `ts` under `pattern`: each token is replaced in turn over
/// the whole text, in the order full year, short year, day, hour, minute,
/// second; every other character stays.
pub open spec fn formatted(ts: Timestamp, pattern: Seq<char>) -> Seq<char> {
    replace_all(
        replace_all(
            replace_all(with_date(ts, pattern), token_hour(), pad2(ts.hour as int)),
            token_minute(),
            pad2(ts.minute as int),
        ),
        token_second(),
        pad2(ts.second as int),
    )
}

fn render_pad4(n: i64) -> (out: Vec<char>)
    ensures
        out@ == pad4(n as int),
{
    let mut out: Vec<char> = Vec::new();
    push_pad4(&mut out, n);
    assert(out@ =~= pad4(n as int));
    out
}

fn render_pad2(n: i64) -> (out: Vec<char>)
    ensures
        out@ == pad2(n as int),
{
    let mut out: Vec<char> = Vec::new();
    push_pad2(&mut out, n);
    assert(out@ =~= pad2(n as int));
    out
}

fn short_year(year: i32) -> (r: i64)
    ensures
        r == year_in_century(year as int),
        -100 < r < 100,
{
    let y: i64 = year as i64;
    if y >= 0 {
        y % 100
    } else {
        let m: i64 = (-y) % 100;
        -m
    }
}

/// Renders `ts` under `pattern`.
pub fn format_timestamp(ts: &Timestamp, pattern: &str) -> (out: String)
    ensures
        out@ == formatted(*ts, pattern@),
{
    let text = chars_of(pattern);
    let after_full = replace(&text, &vec!['Y', 'Y', 'Y', 'Y'], &render_pad4(ts.year as i64));
    let after_short = replace(&after_full, &vec!['Y', 'Y'], &render_pad2(short_year(ts.year)));
    let after_day = replace(&after_short, &vec!['D', 'D'], &render_pad2(ts.day as i64));
    let after_hour = replace(&after_day, &vec!['H', 'H'], &render_pad2(ts.hour as i64));
    let after_minute = replace(&after_hour, &vec!['M', 'M'], &render_pad2(ts.minute as i64));
    let after_second = replace(&after_minute, &vec!['S', 'S'], &render_pad2(ts.second as i64));
    string_of(&after_second)
}

/// Rendering is a function of the instant and the pattern alone: equal
/// inputs give equal text.
pub proof fn lemma_format_deterministic(a: Timestamp, b: Timestamp, p: Seq<char>, q: Seq<char>)
    requires
        a == b,
        p == q,
    ensures
        formatted(a, p) == formatted(b, q),
{
}

/// For a year from 0 to 9999 and well-formed fields every token is replaced
/// by text of its own width, so the rendering is as long as the pattern.
pub proof fn lemma_format_keeps_length(ts: Timestamp, pattern: Seq<char>)
    requires
        ts.wf(),
        0 <= ts.year <= 9999,
    ensures
        formatted(ts, pattern).len() == pattern.len(),
{
    let y = ts.year as int;
    lemma_pad4_len(y);
    lemma_pad2_len(year_in_century(y));
    lemma_pad2_len(ts.day as int);
    lemma_pad2_len(ts.hour as int);
    lemma_pad2_len(ts.minute as int);
    lemma_pad2_len(ts.second as int);
    let after_full = replace_all(pattern, token_full_year(), pad4(y));
    lemma_replace_from_len(pattern, 0, token_full_year(), pad4(y));
    let after_short = with_year(ts, pattern);
    lemma_replace_from_len(after_full, 0, token_short_year(), pad2(year_in_century(y)));
    let after_day = with_date(ts, pattern);
    lemma_replace_from_len(after_short, 0, token_day(), pad2(ts.day as int));
    let after_hour = replace_all(after_day, token_hour(), pad2(ts.hour as int));
    lemma_replace_from_len(after_day, 0, token_hour(), pad2(ts.hour as int));
    let after_minute = replace_all(after_hour, token_minute(), pad2(ts.minute as int));
    lemma_replace_from_len(after_hour, 0, token_minute(), pad2(ts.minute as int));
    lemma_replace_from_len(after_minute, 0, token_second(), pad2(ts.second as int));
}

} // verus!
