//! Alignment of instants to the start of their reading-period window.

use vstd::prelude::*;
use crate::datetime::DateTime;
use crate::datetime::spec_valid;
use crate::period::ReadingPeriod;

verus! {

/// The start of the period-aligned window containing an instant. Only
/// half-hour and hour windows have an alignment; for every other period the
/// instant is left as it is (and the executable alignment refuses it).
pub open spec fn spec_align_to_period(date: DateTime, period: ReadingPeriod) -> DateTime {
    match period {
        ReadingPeriod::HalfHour => if date.minute >= 30 {
            DateTime { minute: 30, second: 0, nanosecond: 0, ..date }
        } else {
            DateTime { minute: 0, second: 0, nanosecond: 0, ..date }
        },
        ReadingPeriod::Hour => DateTime { minute: 0, second: 0, nanosecond: 0, ..date },
        _ => date,
    }
}

/// Aligns an instant to the start of its reading-period window. Aligning to
/// anything other than half-hour and hour periods is unsupported and is
/// refused by the precondition, as callers must not ask for it.
pub fn align_to_period(date: DateTime, period: ReadingPeriod) -> (r: DateTime)
    requires
        spec_valid(date),
        period is HalfHour || period is Hour,
    ensures
        r == spec_align_to_period(date, period),
        spec_valid(r),
{
    match period {
        ReadingPeriod::HalfHour => {
            if date.minute >= 30 {
                DateTime { minute: 30, second: 0, nanosecond: 0, ..date }
            } else {
                DateTime { minute: 0, second: 0, nanosecond: 0, ..date }
            }
        },
        _ => DateTime { minute: 0, second: 0, nanosecond: 0, ..date },
    }
}

/// Alignment is idempotent: aligning an already aligned instant changes
/// nothing.
pub proof fn lemma_align_idempotent(date: DateTime, period: ReadingPeriod)
    requires
        period is HalfHour || period is Hour,
    ensures
        spec_align_to_period(spec_align_to_period(date, period), period) == spec_align_to_period(
            date,
            period,
        ),
{
}

} // verus!
