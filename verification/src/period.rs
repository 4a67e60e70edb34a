//! Reading periods and their fixed properties.

use vstd::prelude::*;

verus! {

/// The time window covered by a single meter reading.
#[derive(Debug, Clone, Copy, PartialEq, Eq, Structural)]
pub enum ReadingPeriod {
    /// 30 minutes.
    HalfHour,
    /// 1 hour.
    Hour,
    /// 1 day.
    Day,
    /// 1 week.
    Week,
    /// 1 calendar month.
    Month,
    /// 1 calendar year.
    Year,
}

/// The maximum span in days that a single readings request may cover.
pub open spec fn spec_max_days_for_period(period: ReadingPeriod) -> int {
    match period {
        ReadingPeriod::HalfHour => 10,
        ReadingPeriod::Hour => 31,
        ReadingPeriod::Day => 31,
        ReadingPeriod::Week => 42,
        ReadingPeriod::Month => 366,
        ReadingPeriod::Year => 366,
    }
}

/// The maximum span in days that a single readings request may cover.
pub fn max_days_for_period(period: ReadingPeriod) -> (days: i64)
    ensures
        days == spec_max_days_for_period(period),
        1 <= days <= 366,
{
    match period {
        ReadingPeriod::HalfHour => 10,
        ReadingPeriod::Hour => 31,
        ReadingPeriod::Day => 31,
        ReadingPeriod::Week => 6 * 7,
        ReadingPeriod::Month => 366,
        ReadingPeriod::Year => 366,
    }
}

} // verus!
