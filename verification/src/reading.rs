//! Normalizing raw reading rows into typed readings.

use vstd::prelude::*;
use crate::error::Error;
use crate::error::ErrorKind;
use crate::period::ReadingPeriod;

verus! {

/// The earliest representable reading instant, in seconds since the Unix
/// epoch.
pub const MIN_READING_TIMESTAMP: i64 = -377705116800;

/// The latest representable reading instant, in seconds since the Unix
/// epoch.
pub const MAX_READING_TIMESTAMP: i64 = 253402300799;

/// A meter reading: the start of its window as seconds since the Unix
/// epoch, the window's period, and the total usage as the bits of an IEEE
/// double-precision number.
#[derive(Debug, Clone, Copy, PartialEq, Eq, Structural)]
pub struct Reading {
    /// The start of the period, as seconds since the Unix epoch.
    pub start: i64,
    /// The length of the period.
    pub period: ReadingPeriod,
    /// The total usage, as the bits of a double-precision number.
    pub value: u64,
}

/// Whether a raw timestamp lies in the representable instant range.
pub open spec fn spec_timestamp_in_range(t: i64) -> bool {
    MIN_READING_TIMESTAMP <= t <= MAX_READING_TIMESTAMP
}

/// The readings a sequence of raw response rows denotes, in the order they
/// were delivered.
pub open spec fn spec_normalized(data: Seq<(i64, u64)>, period: ReadingPeriod) -> Seq<Reading> {
    data.map_values(|p: (i64, u64)| Reading { start: p.0, period, value: p.1 })
}

/// Converts raw (timestamp, value-bits) rows into readings tagged with
/// their period, preserving order. A timestamp outside the representable
/// instant range is a malformed response and fails the whole request.
pub fn normalize_readings(data: &Vec<(i64, u64)>, period: ReadingPeriod) -> (r: Result<
    Vec<Reading>,
    Error,
>)
    ensures
        r is Ok <==> (forall|i: int|
            0 <= i < data@.len() ==> spec_timestamp_in_range(#[trigger] data@[i].0)),
        r matches Ok(v) ==> v@ == spec_normalized(data@, period),
        r matches Err(e) ==> e.kind == ErrorKind::Response && e.message@
            == "reading timestamp out of representable range"@,
{
    let mut out: Vec<Reading> = Vec::new();
    let n = data.len();
    let mut i: usize = 0;
    while i < n
        invariant
            i <= n,
            n == data@.len(),
            out@ == spec_normalized(data@.take(i as int), period),
            forall|k: int| 0 <= k < i ==> spec_timestamp_in_range(#[trigger] data@[k].0),
        decreases n - i,
    {
        let (start, value) = data[i];
        if start < MIN_READING_TIMESTAMP || start > MAX_READING_TIMESTAMP {
            return Err(
                Error {
                    kind: ErrorKind::Response,
                    message: "reading timestamp out of representable range".to_owned(),
                },
            );
        }
        out.push(Reading { start, period, value });
        proof {
            assert(out@ =~= spec_normalized(data@.take(i + 1), period));
        }
        i = i + 1;
    }
    proof {
        assert(data@.take(n as int) =~= data@);
    }
    Ok(out)
}

/// The length of a fixed-duration period in seconds; months and years vary
/// with the calendar and have none.
pub open spec fn spec_period_seconds(period: ReadingPeriod) -> Option<int> {
    match period {
        ReadingPeriod::HalfHour => Some((30 * 60) as int),
        ReadingPeriod::Hour => Some((60 * 60) as int),
        ReadingPeriod::Day => Some((24 * 60 * 60) as int),
        ReadingPeriod::Week => Some((7 * 24 * 60 * 60) as int),
        ReadingPeriod::Month => None,
        ReadingPeriod::Year => None,
    }
}

/// The instant one period after a reading's start, for the fixed-duration
/// periods; a month's or year's length varies with the calendar, so those
/// periods derive no end.
pub fn reading_end(reading: &Reading) -> (r: Option<i64>)
    requires
        spec_timestamp_in_range(reading.start),
    ensures
        match spec_period_seconds(reading.period) {
            Some(s) => r matches Some(e) && e == reading.start + s,
            None => r is None,
        },
{
    match reading.period {
        ReadingPeriod::HalfHour => Some(reading.start + 30 * 60),
        ReadingPeriod::Hour => Some(reading.start + 60 * 60),
        ReadingPeriod::Day => Some(reading.start + 24 * 60 * 60),
        ReadingPeriod::Week => Some(reading.start + 7 * 24 * 60 * 60),
        ReadingPeriod::Month => None,
        ReadingPeriod::Year => None,
    }
}

/// The query-string argument naming a period.
pub open spec fn spec_period_query_arg(period: ReadingPeriod) -> Seq<char> {
    match period {
        ReadingPeriod::HalfHour => "PT30M"@,
        ReadingPeriod::Hour => "PT1H"@,
        ReadingPeriod::Day => "P1D"@,
        ReadingPeriod::Week => "P1W"@,
        ReadingPeriod::Month => "P1M"@,
        ReadingPeriod::Year => "P1Y"@,
    }
}

/// Renders a period as the API's query-string argument.
pub fn period_query_arg(period: ReadingPeriod) -> (r: String)
    ensures
        r@ == spec_period_query_arg(period),
{
    match period {
        ReadingPeriod::HalfHour => "PT30M".to_owned(),
        ReadingPeriod::Hour => "PT1H".to_owned(),
        ReadingPeriod::Day => "P1D".to_owned(),
        ReadingPeriod::Week => "P1W".to_owned(),
        ReadingPeriod::Month => "P1M".to_owned(),
        ReadingPeriod::Year => "P1Y".to_owned(),
    }
}

} // verus!
