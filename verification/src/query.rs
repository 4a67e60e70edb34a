//! Resolving requested query instants against the current time: a
//! relative query counts minutes back from now, an absolute one must not
//! lie in the future, and either is aligned to the reading period.

use vstd::prelude::*;
use crate::align::align_to_period;
use crate::align::spec_align_to_period;
use crate::datetime::DateTime;
use crate::datetime::datetime_lt;
use crate::datetime::spec_le;
use crate::datetime::spec_lt;
use crate::datetime::spec_sub_minutes;
use crate::datetime::spec_valid;
use crate::datetime::sub_minutes;
use crate::period::ReadingPeriod;

verus! {

/// The aligned instant a relative query names: the given number of minutes
/// before now, aligned to the start of its period window.
pub fn resolve_relative_date(now: DateTime, minutes_ago: i64, period: ReadingPeriod) -> (r:
    DateTime)
    requires
        spec_valid(now),
        0 <= minutes_ago,
        now.year - minutes_ago / 1440 - 1 > i32::MIN,
        period is HalfHour || period is Hour,
    ensures
        r == spec_align_to_period(spec_sub_minutes(now, minutes_ago as nat), period),
        spec_valid(r),
{
    align_to_period(sub_minutes(now, minutes_ago), period)
}

/// The aligned instant an absolute query names; a date in the future is
/// refused.
pub fn resolve_absolute_date(date: DateTime, now: DateTime, period: ReadingPeriod) -> (r: Result<
    DateTime,
    String,
>)
    requires
        spec_valid(date),
        spec_valid(now),
        period is HalfHour || period is Hour,
    ensures
        match r {
            Ok(d) => spec_le(date, now) && d == spec_align_to_period(date, period) && spec_valid(
                d,
            ),
            Err(m) => spec_lt(now, date) && m@ == "Cannot use a date that is in the future."@,
        },
{
    if datetime_lt(&now, &date) {
        Err("Cannot use a date that is in the future.".to_owned())
    } else {
        Ok(align_to_period(date, period))
    }
}

} // verus!
