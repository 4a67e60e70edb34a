use glowmarkt::align::align_to_period;
use glowmarkt::datetime::DateTime;
use glowmarkt::datetime::datetime_le;
use glowmarkt::datetime::datetime_lt;
use glowmarkt::datetime::days_in_month;
use glowmarkt::datetime::increase_by_period;
use glowmarkt::datetime::is_leap_year;
use glowmarkt::datetime::iso;
use glowmarkt::datetime::next_day;
use glowmarkt::datetime::sub_minutes;
use glowmarkt::period::ReadingPeriod;
use glowmarkt::period::max_days_for_period;
use glowmarkt::query::resolve_absolute_date;
use glowmarkt::query::resolve_relative_date;
use glowmarkt::split::split_periods;

fn dt(year: i32, month: u8, day: u8, hour: u8, minute: u8, second: u8) -> DateTime {
    DateTime { year, month, day, hour, minute, second, nanosecond: 0 }
}

#[test]
fn align_half_hour_rounds_down_to_half() {
    let d = DateTime { nanosecond: 500, ..dt(2022, 8, 21, 9, 45, 30) };
    assert_eq!(align_to_period(d, ReadingPeriod::HalfHour), dt(2022, 8, 21, 9, 30, 0));
}

#[test]
fn align_half_hour_rounds_down_to_hour() {
    assert_eq!(
        align_to_period(dt(2022, 8, 21, 9, 15, 59), ReadingPeriod::HalfHour),
        dt(2022, 8, 21, 9, 0, 0)
    );
}

#[test]
fn align_hour_zeroes_minutes_and_seconds() {
    assert_eq!(
        align_to_period(dt(2022, 8, 21, 9, 45, 30), ReadingPeriod::Hour),
        dt(2022, 8, 21, 9, 0, 0)
    );
}

#[test]
fn align_is_idempotent_on_samples() {
    for minute in [0u8, 1, 29, 30, 31, 59] {
        let d = dt(2023, 6, 15, 12, minute, 7);
        let once = align_to_period(d, ReadingPeriod::HalfHour);
        assert_eq!(align_to_period(once, ReadingPeriod::HalfHour), once);
        let once = align_to_period(d, ReadingPeriod::Hour);
        assert_eq!(align_to_period(once, ReadingPeriod::Hour), once);
    }
}

#[test]
fn max_days_per_period() {
    assert_eq!(max_days_for_period(ReadingPeriod::HalfHour), 10);
    assert_eq!(max_days_for_period(ReadingPeriod::Hour), 31);
    assert_eq!(max_days_for_period(ReadingPeriod::Day), 31);
    assert_eq!(max_days_for_period(ReadingPeriod::Week), 42);
    assert_eq!(max_days_for_period(ReadingPeriod::Month), 366);
    assert_eq!(max_days_for_period(ReadingPeriod::Year), 366);
}

#[test]
fn leap_years_and_month_lengths() {
    assert!(is_leap_year(2000));
    assert!(is_leap_year(2024));
    assert!(!is_leap_year(1900));
    assert!(!is_leap_year(2023));
    assert_eq!(days_in_month(2024, 2), 29);
    assert_eq!(days_in_month(2023, 2), 28);
    assert_eq!(days_in_month(2023, 4), 30);
    assert_eq!(days_in_month(2023, 12), 31);
}

#[test]
fn next_day_rolls_over_month_and_year() {
    assert_eq!(next_day(dt(2023, 1, 30, 5, 0, 0)), dt(2023, 1, 31, 5, 0, 0));
    assert_eq!(next_day(dt(2023, 1, 31, 5, 0, 0)), dt(2023, 2, 1, 5, 0, 0));
    assert_eq!(next_day(dt(2023, 12, 31, 5, 0, 0)), dt(2024, 1, 1, 5, 0, 0));
}

#[test]
fn increase_half_hour_carries_into_next_day() {
    assert_eq!(
        increase_by_period(dt(2023, 3, 1, 23, 45, 0), ReadingPeriod::HalfHour),
        dt(2023, 3, 2, 0, 15, 0)
    );
    assert_eq!(
        increase_by_period(dt(2023, 3, 1, 10, 0, 0), ReadingPeriod::HalfHour),
        dt(2023, 3, 1, 10, 30, 0)
    );
}

#[test]
fn increase_month_clamps_short_months() {
    assert_eq!(
        increase_by_period(dt(2023, 1, 31, 0, 0, 0), ReadingPeriod::Month),
        dt(2023, 2, 28, 0, 0, 0)
    );
    assert_eq!(
        increase_by_period(dt(2023, 12, 15, 0, 0, 0), ReadingPeriod::Month),
        dt(2024, 1, 15, 0, 0, 0)
    );
}

#[test]
fn increase_month_thirty_day_clamp() {
    assert_eq!(
        increase_by_period(dt(2023, 3, 31, 0, 0, 0), ReadingPeriod::Month),
        dt(2023, 4, 30, 0, 0, 0)
    );
}

#[test]
fn split_week_period_advances_a_week_past_each_window() {
    let start = dt(2023, 1, 2, 0, 0, 0);
    let end = dt(2023, 3, 31, 0, 0, 0);
    let ranges = split_periods(start, end, ReadingPeriod::Week);
    assert_eq!(ranges[0], (dt(2023, 1, 2, 0, 0, 0), dt(2023, 2, 13, 0, 0, 0)));
    assert_eq!(ranges[1].0, dt(2023, 2, 20, 0, 0, 0));
    assert_eq!(ranges[ranges.len() - 1].1, end);
}

#[test]
fn increase_year_clamps_leap_day() {
    assert_eq!(
        increase_by_period(dt(2024, 2, 29, 0, 0, 0), ReadingPeriod::Year),
        dt(2025, 2, 28, 0, 0, 0)
    );
}

#[test]
fn comparisons_follow_the_calendar() {
    assert!(datetime_lt(&dt(2023, 1, 1, 0, 0, 0), &dt(2023, 1, 1, 0, 0, 1)));
    assert!(datetime_lt(&dt(2022, 12, 31, 23, 59, 59), &dt(2023, 1, 1, 0, 0, 0)));
    assert!(datetime_le(&dt(2023, 1, 1, 0, 0, 0), &dt(2023, 1, 1, 0, 0, 0)));
    assert!(!datetime_lt(&dt(2023, 2, 1, 0, 0, 0), &dt(2023, 1, 31, 0, 0, 0)));
}

#[test]
fn split_nineteen_days_of_half_hours_makes_two_ranges() {
    let start = dt(2023, 1, 1, 0, 0, 0);
    let end = dt(2023, 1, 20, 0, 0, 0);
    let ranges = split_periods(start, end, ReadingPeriod::HalfHour);
    assert_eq!(ranges.len(), 2);
    assert_eq!(ranges[0], (dt(2023, 1, 1, 0, 0, 0), dt(2023, 1, 11, 0, 0, 0)));
    assert_eq!(ranges[1], (dt(2023, 1, 11, 0, 30, 0), dt(2023, 1, 20, 0, 0, 0)));
}

#[test]
fn split_short_range_is_one_range() {
    let start = dt(2023, 1, 1, 0, 0, 0);
    let end = dt(2023, 1, 5, 12, 0, 0);
    let ranges = split_periods(start, end, ReadingPeriod::HalfHour);
    assert_eq!(ranges, vec![(start, end)]);
}

#[test]
fn split_empty_range_is_one_zero_length_range() {
    let start = dt(2023, 1, 1, 0, 0, 0);
    let ranges = split_periods(start, start, ReadingPeriod::Day);
    assert_eq!(ranges, vec![(start, start)]);
}

#[test]
fn split_ranges_cover_and_increase() {
    let start = dt(2022, 11, 5, 3, 30, 0);
    let end = dt(2023, 4, 2, 0, 0, 0);
    let ranges = split_periods(start, end, ReadingPeriod::Hour);
    assert_eq!(ranges[0].0, start);
    assert_eq!(ranges[ranges.len() - 1].1, end);
    for i in 0..ranges.len() {
        assert!(datetime_le(&ranges[i].0, &ranges[i].1));
        if i + 1 < ranges.len() {
            assert!(datetime_lt(&ranges[i].0, &ranges[i + 1].0));
            assert_eq!(ranges[i + 1].0, increase_by_period(ranges[i].1, ReadingPeriod::Hour));
        }
    }
}

#[test]
fn iso_renders_zero_padded() {
    assert_eq!(iso(dt(2023, 1, 5, 7, 8, 9)), "2023-01-05T07:08:09");
    assert_eq!(iso(dt(2022, 12, 31, 23, 59, 0)), "2022-12-31T23:59:00");
    assert_eq!(iso(dt(-5, 3, 4, 0, 0, 0)), "-005-03-04T00:00:00");
}

#[test]
fn sub_minutes_walks_back_across_days() {
    assert_eq!(sub_minutes(dt(2023, 1, 1, 0, 10, 0), 30), dt(2022, 12, 31, 23, 40, 0));
    assert_eq!(sub_minutes(dt(2023, 6, 15, 12, 0, 0), 1440), dt(2023, 6, 14, 12, 0, 0));
    assert_eq!(sub_minutes(dt(2023, 6, 15, 12, 34, 0), 0), dt(2023, 6, 15, 12, 34, 0));
}

#[test]
fn relative_date_subtracts_and_aligns() {
    let now = dt(2023, 11, 1, 10, 17, 0);
    assert_eq!(
        resolve_relative_date(now, 1440, ReadingPeriod::HalfHour),
        dt(2023, 10, 31, 10, 0, 0)
    );
}

#[test]
fn absolute_date_in_future_is_refused() {
    let now = dt(2023, 11, 1, 10, 17, 0);
    let future = dt(2023, 11, 1, 10, 18, 0);
    assert!(resolve_absolute_date(future, now, ReadingPeriod::HalfHour).is_err());
    assert_eq!(
        resolve_absolute_date(dt(2023, 11, 1, 9, 44, 0), now, ReadingPeriod::HalfHour),
        Ok(dt(2023, 11, 1, 9, 30, 0))
    );
}
