//! A civil (calendar) date-time in UTC, with the calendar arithmetic the
//! library needs: ordering, day stepping, and period increments.

use vstd::prelude::*;
use crate::period::ReadingPeriod;

verus! {

/// An instant in civil form, always in UTC.
#[derive(Debug, Clone, Copy, PartialEq, Eq, Structural)]
pub struct DateTime {
    /// Calendar year.
    pub year: i32,
    /// Calendar month, 1 through 12.
    pub month: u8,
    /// Day of month, 1 through the month's length.
    pub day: u8,
    /// Hour of day, 0 through 23.
    pub hour: u8,
    /// Minute, 0 through 59.
    pub minute: u8,
    /// Second, 0 through 59.
    pub second: u8,
    /// Nanoseconds within the second, below 1_000_000_000.
    pub nanosecond: u32,
}

/// Whether a year is a leap year in the proleptic Gregorian calendar.
pub open spec fn spec_is_leap_year(year: int) -> bool {
    (year % 4 == 0 && year % 100 != 0) || year % 400 == 0
}

/// The number of days in a month of a given year.
pub open spec fn spec_days_in_month(year: int, month: int) -> int {
    if month == 2 {
        if spec_is_leap_year(year) {
            29
        } else {
            28
        }
    } else if month == 4 || month == 6 || month == 9 || month == 11 {
        30
    } else {
        31
    }
}

/// Field-wise well-formedness of a civil date-time.
pub open spec fn spec_valid(d: DateTime) -> bool {
    &&& 1 <= d.month <= 12
    &&& 1 <= d.day <= spec_days_in_month(d.year as int, d.month as int)
    &&& d.hour < 24
    &&& d.minute < 60
    &&& d.second < 60
    &&& d.nanosecond < 1_000_000_000
}

/// Strict chronological order: field-lexicographic from year down to
/// nanosecond.
pub open spec fn spec_lt(a: DateTime, b: DateTime) -> bool {
    if a.year != b.year {
        a.year < b.year
    } else if a.month != b.month {
        a.month < b.month
    } else if a.day != b.day {
        a.day < b.day
    } else if a.hour != b.hour {
        a.hour < b.hour
    } else if a.minute != b.minute {
        a.minute < b.minute
    } else if a.second != b.second {
        a.second < b.second
    } else {
        a.nanosecond < b.nanosecond
    }
}

/// Chronological order, allowing equality.
pub open spec fn spec_le(a: DateTime, b: DateTime) -> bool {
    spec_lt(a, b) || a == b
}

/// A packing of the fields into one integer that preserves chronological
/// order for well-formed values; used to reason about progress.
pub open spec fn spec_key(d: DateTime) -> int {
    (((((d.year * 13 + d.month) * 32 + d.day) * 24 + d.hour) * 60 + d.minute) * 60 + d.second)
        * 1_000_000_000 + d.nanosecond
}

/// For well-formed values the packed key orders exactly as the calendar does.
pub proof fn lemma_key_orders(a: DateTime, b: DateTime)
    requires
        spec_valid(a),
        spec_valid(b),
    ensures
        spec_lt(a, b) <==> spec_key(a) < spec_key(b),
        a == b <==> spec_key(a) == spec_key(b),
{
}

/// Whether a leap year contains a given date; executable twin of
/// `spec_is_leap_year`.
pub fn is_leap_year(year: i32) -> (r: bool)
    ensures
        r == spec_is_leap_year(year as int),
{
    let m4 = match year.checked_rem_euclid(4) {
        Some(v) => v,
        None => 0,
    };
    let m100 = match year.checked_rem_euclid(100) {
        Some(v) => v,
        None => 0,
    };
    let m400 = match year.checked_rem_euclid(400) {
        Some(v) => v,
        None => 0,
    };
    (m4 == 0 && m100 != 0) || m400 == 0
}

/// The number of days in a month; executable twin of `spec_days_in_month`.
pub fn days_in_month(year: i32, month: u8) -> (r: u8)
    ensures
        r == spec_days_in_month(year as int, month as int),
        28 <= r <= 31,
{
    if month == 2 {
        if is_leap_year(year) {
            29
        } else {
            28
        }
    } else if month == 4 || month == 6 || month == 9 || month == 11 {
        30
    } else {
        31
    }
}

/// Executable chronological comparison.
pub fn datetime_lt(a: &DateTime, b: &DateTime) -> (r: bool)
    ensures
        r == spec_lt(*a, *b),
{
    if a.year != b.year {
        a.year < b.year
    } else if a.month != b.month {
        a.month < b.month
    } else if a.day != b.day {
        a.day < b.day
    } else if a.hour != b.hour {
        a.hour < b.hour
    } else if a.minute != b.minute {
        a.minute < b.minute
    } else if a.second != b.second {
        a.second < b.second
    } else {
        a.nanosecond < b.nanosecond
    }
}

/// Executable chronological comparison, allowing equality.
pub fn datetime_le(a: &DateTime, b: &DateTime) -> (r: bool)
    ensures
        r == spec_le(*a, *b),
{
    !datetime_lt(b, a)
}

/// The next calendar day, keeping the time of day.
pub open spec fn spec_next_day(d: DateTime) -> DateTime {
    if d.day < spec_days_in_month(d.year as int, d.month as int) {
        DateTime { day: (d.day + 1) as u8, ..d }
    } else if d.month < 12 {
        DateTime { month: (d.month + 1) as u8, day: 1, ..d }
    } else {
        DateTime { year: (d.year + 1) as i32, month: 1, day: 1, ..d }
    }
}

/// Stepping one day preserves well-formedness, strictly moves the instant
/// forward by a bounded amount, keeps the time of day, and raises the year
/// by at most one.
pub proof fn lemma_next_day_props(d: DateTime)
    requires
        spec_valid(d),
        d.year < i32::MAX,
    ensures
        spec_valid(spec_next_day(d)),
        spec_key(d) < spec_key(spec_next_day(d)),
        spec_key(spec_next_day(d)) <= spec_key(d) + 2_937_600_000_000_000,
        d.year <= spec_next_day(d).year <= d.year + 1,
        spec_next_day(d).hour == d.hour,
        spec_next_day(d).minute == d.minute,
        spec_next_day(d).second == d.second,
        spec_next_day(d).nanosecond == d.nanosecond,
{
}

/// The instant a given number of calendar days later, keeping the time of
/// day.
pub open spec fn spec_add_days(d: DateTime, n: nat) -> DateTime
    decreases n,
{
    if n == 0 {
        d
    } else {
        spec_add_days(spec_next_day(d), (n - 1) as nat)
    }
}

/// Adding days preserves well-formedness, moves the instant forward by at
/// least one key step per day, keeps the time of day, and raises the year
/// by at most the number of days.
pub proof fn lemma_add_days_props(d: DateTime, n: nat)
    requires
        spec_valid(d),
        d.year + n <= i32::MAX,
    ensures
        spec_valid(spec_add_days(d, n)),
        spec_key(d) + n <= spec_key(spec_add_days(d, n)),
        d.year <= spec_add_days(d, n).year <= d.year + n,
        spec_add_days(d, n).hour == d.hour,
        spec_add_days(d, n).minute == d.minute,
        spec_add_days(d, n).second == d.second,
        spec_add_days(d, n).nanosecond == d.nanosecond,
    decreases n,
{
    if n > 0 {
        lemma_next_day_props(d);
        lemma_add_days_props(spec_next_day(d), (n - 1) as nat);
    }
}

/// The instant a given number of minutes later, for at most one hour's
/// worth of minutes, carrying into the hour and the day as needed.
pub open spec fn spec_add_minutes(d: DateTime, m: int) -> DateTime {
    let t = d.minute + m;
    if t < 60 {
        DateTime { minute: t as u8, ..d }
    } else if d.hour < 23 {
        DateTime { hour: (d.hour + 1) as u8, minute: (t - 60) as u8, ..d }
    } else {
        spec_next_day(DateTime { hour: 0, minute: (t - 60) as u8, ..d })
    }
}

/// Adding up to an hour of minutes preserves well-formedness and moves the
/// instant forward by a bounded amount.
pub proof fn lemma_add_minutes_props(d: DateTime, m: int)
    requires
        spec_valid(d),
        0 <= m <= 60,
        d.year < i32::MAX,
    ensures
        spec_valid(spec_add_minutes(d, m)),
        spec_key(d) <= spec_key(spec_add_minutes(d, m)),
        spec_key(spec_add_minutes(d, m)) <= spec_key(d) + 3_024_000_000_000_000,
        d.year <= spec_add_minutes(d, m).year <= d.year + 1,
{
    let t = d.minute + m;
    if t >= 60 && d.hour >= 23 {
        lemma_next_day_props(DateTime { hour: 0, minute: (t - 60) as u8, ..d });
    }
}

/// The day of month clamped to the length of a month.
pub open spec fn spec_clamped_day(day: int, year: int, month: int) -> int {
    let dim = spec_days_in_month(year, month);
    if day <= dim {
        day
    } else {
        dim
    }
}

/// The instant one calendar month later, keeping the day of month where the
/// next month has it and clamping to the month's last day otherwise.
pub open spec fn spec_add_month(d: DateTime) -> DateTime {
    if d.month == 12 {
        DateTime {
            year: (d.year + 1) as i32,
            month: 1,
            day: spec_clamped_day(d.day as int, d.year + 1, 1) as u8,
            ..d
        }
    } else {
        DateTime {
            month: (d.month + 1) as u8,
            day: spec_clamped_day(d.day as int, d.year as int, d.month + 1) as u8,
            ..d
        }
    }
}

/// The instant one calendar year later, clamping the day of month where the
/// next year's month is shorter.
pub open spec fn spec_add_year(d: DateTime) -> DateTime {
    DateTime {
        year: (d.year + 1) as i32,
        day: spec_clamped_day(d.day as int, d.year + 1, d.month as int) as u8,
        ..d
    }
}

/// The instant one period later; fixed durations for sub-monthly periods,
/// calendar-aware steps for months and years.
pub open spec fn spec_increase_by_period(d: DateTime, period: ReadingPeriod) -> DateTime {
    match period {
        ReadingPeriod::HalfHour => spec_add_minutes(d, 30),
        ReadingPeriod::Hour => spec_add_minutes(d, 60),
        ReadingPeriod::Day => spec_next_day(d),
        ReadingPeriod::Week => spec_add_days(d, 7),
        ReadingPeriod::Month => spec_add_month(d),
        ReadingPeriod::Year => spec_add_year(d),
    }
}

/// The largest forward movement, in packed-key terms, that one period
/// increment can make.
pub open spec fn spec_increase_slack() -> int {
    36_028_800_000_000_000 as int
}

/// A period increment preserves well-formedness, never moves the instant
/// backwards, moves it forward by at most the slack, and raises the year by
/// at most one.
pub proof fn lemma_increase_props(d: DateTime, period: ReadingPeriod)
    requires
        spec_valid(d),
        d.year + 7 < i32::MAX,
    ensures
        spec_valid(spec_increase_by_period(d, period)),
        spec_key(d) <= spec_key(spec_increase_by_period(d, period)),
        spec_key(spec_increase_by_period(d, period)) <= spec_key(d) + spec_increase_slack(),
        d.year <= spec_increase_by_period(d, period).year <= d.year + 7,
{
    match period {
        ReadingPeriod::HalfHour => lemma_add_minutes_props(d, 30),
        ReadingPeriod::Hour => lemma_add_minutes_props(d, 60),
        ReadingPeriod::Day => lemma_next_day_props(d),
        ReadingPeriod::Week => {
            lemma_add_days_props(d, 7);
            lemma_add_days_key_upper(d, 7);
        },
        ReadingPeriod::Month => {},
        ReadingPeriod::Year => {},
    }
}

/// Adding days moves the instant forward by at most a bounded number of key
/// steps per day.
pub proof fn lemma_add_days_key_upper(d: DateTime, n: nat)
    requires
        spec_valid(d),
        d.year + n <= i32::MAX,
    ensures
        spec_key(spec_add_days(d, n)) <= spec_key(d) + n * 2_937_600_000_000_000,
    decreases n,
{
    if n > 0 {
        lemma_next_day_props(d);
        lemma_add_days_key_upper(spec_next_day(d), (n - 1) as nat);
    }
}

/// Steps to the next calendar day, keeping the time of day.
pub fn next_day(date: DateTime) -> (r: DateTime)
    requires
        spec_valid(date),
        date.year < i32::MAX,
    ensures
        r == spec_next_day(date),
{
    if date.day < days_in_month(date.year, date.month) {
        DateTime { day: date.day + 1, ..date }
    } else if date.month < 12 {
        DateTime { month: date.month + 1, day: 1, ..date }
    } else {
        DateTime { year: date.year + 1, month: 1, day: 1, ..date }
    }
}

/// Adds a number of calendar days, keeping the time of day.
pub fn add_days(date: DateTime, n: i64) -> (r: DateTime)
    requires
        spec_valid(date),
        0 <= n <= 366,
        date.year + n < i32::MAX,
    ensures
        r == spec_add_days(date, n as nat),
        spec_valid(r),
{
    proof {
        lemma_add_days_props(date, n as nat);
    }
    let mut cur = date;
    let mut i: i64 = 0;
    while i < n
        invariant
            0 <= i <= n,
            spec_valid(cur),
            date.year <= cur.year <= date.year + i,
            date.year + n < i32::MAX,
            n <= 366,
            spec_add_days(cur, (n - i) as nat) == spec_add_days(date, n as nat),
        decreases n - i,
    {
        proof {
            lemma_next_day_props(cur);
        }
        cur = next_day(cur);
        i = i + 1;
    }
    cur
}

/// Advances an instant by one reading period: a fixed duration for
/// sub-monthly periods, one calendar month or year otherwise (clamping the
/// day of month where the target month is shorter).
pub fn increase_by_period(date: DateTime, period: ReadingPeriod) -> (r: DateTime)
    requires
        spec_valid(date),
        date.year + 7 < i32::MAX,
    ensures
        r == spec_increase_by_period(date, period),
        spec_valid(r),
{
    proof {
        lemma_increase_props(date, period);
    }
    match period {
        ReadingPeriod::HalfHour => add_minutes_small(date, 30),
        ReadingPeriod::Hour => add_minutes_small(date, 60),
        ReadingPeriod::Day => next_day(date),
        ReadingPeriod::Week => add_days(date, 7),
        ReadingPeriod::Month => {
            if date.month == 12 {
                let dim = days_in_month(date.year + 1, 1);
                let day = if date.day <= dim {
                    date.day
                } else {
                    dim
                };
                DateTime { year: date.year + 1, month: 1, day, ..date }
            } else {
                let dim = days_in_month(date.year, date.month + 1);
                let day = if date.day <= dim {
                    date.day
                } else {
                    dim
                };
                DateTime { month: date.month + 1, day, ..date }
            }
        },
        ReadingPeriod::Year => {
            let dim = days_in_month(date.year + 1, date.month);
            let day = if date.day <= dim {
                date.day
            } else {
                dim
            };
            DateTime { year: date.year + 1, day, ..date }
        },
    }
}

/// Adds at most an hour's worth of minutes, carrying into the hour and the
/// day.
fn add_minutes_small(date: DateTime, m: u8) -> (r: DateTime)
    requires
        spec_valid(date),
        m <= 60,
        date.year < i32::MAX,
    ensures
        r == spec_add_minutes(date, m as int),
{
    let t = date.minute + m;
    if t < 60 {
        DateTime { minute: t, ..date }
    } else if date.hour < 23 {
        DateTime { hour: date.hour + 1, minute: t - 60, ..date }
    } else {
        next_day(DateTime { hour: 0, minute: t - 60, ..date })
    }
}

/// The previous calendar day, keeping the time of day.
pub open spec fn spec_prev_day(d: DateTime) -> DateTime {
    if d.day > 1 {
        DateTime { day: (d.day - 1) as u8, ..d }
    } else if d.month > 1 {
        DateTime {
            month: (d.month - 1) as u8,
            day: spec_days_in_month(d.year as int, d.month - 1) as u8,
            ..d
        }
    } else {
        DateTime { year: (d.year - 1) as i32, month: 12, day: 31, ..d }
    }
}

/// Stepping one day back preserves well-formedness and lowers the year by
/// at most one.
pub proof fn lemma_prev_day_props(d: DateTime)
    requires
        spec_valid(d),
        d.year > i32::MIN,
    ensures
        spec_valid(spec_prev_day(d)),
        d.year - 1 <= spec_prev_day(d).year <= d.year,
        spec_prev_day(d).hour == d.hour,
        spec_prev_day(d).minute == d.minute,
        spec_prev_day(d).second == d.second,
        spec_prev_day(d).nanosecond == d.nanosecond,
{
}

/// The instant a given number of calendar days earlier, keeping the time
/// of day.
pub open spec fn spec_sub_days(d: DateTime, n: nat) -> DateTime
    decreases n,
{
    if n == 0 {
        d
    } else {
        spec_sub_days(spec_prev_day(d), (n - 1) as nat)
    }
}

/// Subtracting days preserves well-formedness, keeps the time of day, and
/// lowers the year by at most the number of days.
pub proof fn lemma_sub_days_props(d: DateTime, n: nat)
    requires
        spec_valid(d),
        d.year - n >= i32::MIN,
    ensures
        spec_valid(spec_sub_days(d, n)),
        d.year - n <= spec_sub_days(d, n).year <= d.year,
        spec_sub_days(d, n).hour == d.hour,
        spec_sub_days(d, n).minute == d.minute,
        spec_sub_days(d, n).second == d.second,
        spec_sub_days(d, n).nanosecond == d.nanosecond,
    decreases n,
{
    if n > 0 {
        lemma_prev_day_props(d);
        lemma_sub_days_props(spec_prev_day(d), (n - 1) as nat);
    }
}

/// The instant under a day's worth of minutes earlier, borrowing from the
/// previous day where the time of day is too small.
pub open spec fn spec_sub_minutes_small(d: DateTime, m: int) -> DateTime {
    let total = d.hour * 60 + d.minute;
    if total >= m {
        DateTime { hour: ((total - m) / 60) as u8, minute: ((total - m) % 60) as u8, ..d }
    } else {
        spec_prev_day(
            DateTime {
                hour: ((total + 1440 - m) / 60) as u8,
                minute: ((total + 1440 - m) % 60) as u8,
                ..d
            },
        )
    }
}

/// The instant a given number of minutes earlier: whole days first, then
/// the remaining minutes.
pub open spec fn spec_sub_minutes(d: DateTime, m: nat) -> DateTime {
    spec_sub_minutes_small(spec_sub_days(d, m / 1440), (m % 1440) as int)
}

/// Steps one calendar day back, keeping the time of day.
pub fn prev_day(date: DateTime) -> (r: DateTime)
    requires
        spec_valid(date),
        date.year > i32::MIN,
    ensures
        r == spec_prev_day(date),
        spec_valid(r),
{
    proof {
        lemma_prev_day_props(date);
    }
    if date.day > 1 {
        DateTime { day: date.day - 1, ..date }
    } else if date.month > 1 {
        DateTime { month: date.month - 1, day: days_in_month(date.year, date.month - 1), ..date }
    } else {
        DateTime { year: date.year - 1, month: 12, day: 31, ..date }
    }
}

/// Subtracts a number of minutes from an instant, walking the calendar
/// backwards.
pub fn sub_minutes(date: DateTime, minutes: i64) -> (r: DateTime)
    requires
        spec_valid(date),
        0 <= minutes,
        date.year - minutes / 1440 - 1 > i32::MIN,
    ensures
        r == spec_sub_minutes(date, minutes as nat),
        spec_valid(r),
{
    let days = minutes / 1440;
    let rem = minutes % 1440;
    proof {
        assert(days == minutes as nat / 1440);
        assert(rem == minutes as nat % 1440);
        lemma_sub_days_props(date, days as nat);
    }
    let mut cur = date;
    let mut i: i64 = 0;
    while i < days
        invariant
            0 <= i <= days,
            spec_valid(cur),
            date.year - i <= cur.year <= date.year,
            date.year - days - 1 > i32::MIN,
            spec_sub_days(cur, (days - i) as nat) == spec_sub_days(date, days as nat),
        decreases days - i,
    {
        proof {
            lemma_prev_day_props(cur);
        }
        cur = prev_day(cur);
        i = i + 1;
    }
    let total = (cur.hour as u16) * 60 + (cur.minute as u16);
    if total >= rem as u16 {
        let left = total - rem as u16;
        DateTime { hour: (left / 60) as u8, minute: (left % 60) as u8, ..cur }
    } else {
        let left = total + 1440 - rem as u16;
        proof {
            lemma_prev_day_props(
                DateTime { hour: ((left / 60) as u8), minute: ((left % 60) as u8), ..cur },
            );
        }
        prev_day(DateTime { hour: (left / 60) as u8, minute: (left % 60) as u8, ..cur })
    }
}

/// The text of a year: four digits zero-padded, a minus sign leading where
/// negative.
pub open spec fn spec_year_text(y: int) -> Seq<char> {
    if y < 0 {
        seq!['-'] + crate::text::spec_padded_digits((-y) as nat, 3)
    } else {
        crate::text::spec_padded_digits(y as nat, 4)
    }
}

/// The timestamp format the endpoint expects: date and time joined by a
/// letter, each component zero-padded, without a zone designator.
pub open spec fn spec_iso(d: DateTime) -> Seq<char> {
    spec_year_text(d.year as int) + seq!['-'] + crate::text::spec_padded_digits(d.month as nat, 2)
        + seq!['-'] + crate::text::spec_padded_digits(d.day as nat, 2) + seq!['T']
        + crate::text::spec_padded_digits(d.hour as nat, 2) + seq![':']
        + crate::text::spec_padded_digits(d.minute as nat, 2) + seq![':']
        + crate::text::spec_padded_digits(d.second as nat, 2)
}

/// Renders an instant in the timestamp format the endpoint expects.
pub fn iso(dt: DateTime) -> (r: String)
    requires
        dt.year > i32::MIN,
    ensures
        r@ == spec_iso(dt),
{
    let mut out: Vec<char> = Vec::new();
    if dt.year < 0 {
        out.push('-');
        let mut part = crate::text::padded_digits_u32((-dt.year) as u32, 3);
        out.append(&mut part);
    } else {
        let mut part = crate::text::padded_digits_u32(dt.year as u32, 4);
        out.append(&mut part);
    }
    out.push('-');
    let mut part = crate::text::padded_digits_u32(dt.month as u32, 2);
    out.append(&mut part);
    out.push('-');
    let mut part = crate::text::padded_digits_u32(dt.day as u32, 2);
    out.append(&mut part);
    out.push('T');
    let mut part = crate::text::padded_digits_u32(dt.hour as u32, 2);
    out.append(&mut part);
    out.push(':');
    let mut part = crate::text::padded_digits_u32(dt.minute as u32, 2);
    out.append(&mut part);
    out.push(':');
    let mut part = crate::text::padded_digits_u32(dt.second as u32, 2);
    out.append(&mut part);
    proof {
        assert(out@ =~= spec_iso(dt));
    }
    crate::text::string_from_chars(&out)
}

/// The same instant with the second and all sub-second components zeroed.
pub open spec fn spec_clear_seconds(d: DateTime) -> DateTime {
    DateTime { second: 0, nanosecond: 0, ..d }
}

/// Zeroes the second and all sub-second components of an instant.
pub fn clear_seconds(date: DateTime) -> (r: DateTime)
    ensures
        r == spec_clear_seconds(date),
        spec_valid(date) ==> spec_valid(r),
{
    DateTime { second: 0, nanosecond: 0, ..date }
}

} // verus!
