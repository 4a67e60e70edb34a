//! Splitting a long requested time range into sub-ranges that each stay
//! within the period's maximum span.

use vstd::prelude::*;
use crate::datetime::DateTime;
use crate::datetime::add_days;
use crate::datetime::datetime_le;
use crate::datetime::increase_by_period;
use crate::datetime::lemma_add_days_props;
use crate::datetime::lemma_increase_props;
use crate::datetime::lemma_key_orders;
use crate::datetime::spec_add_days;
use crate::datetime::spec_increase_by_period;
use crate::datetime::spec_increase_slack;
use crate::datetime::spec_key;
use crate::datetime::spec_le;
use crate::datetime::spec_lt;
use crate::datetime::spec_valid;
use crate::period::ReadingPeriod;
use crate::period::max_days_for_period;
use crate::period::spec_max_days_for_period;

verus! {

/// The conditions under which the split is defined: both bounds are
/// well-formed and the years leave room for the calendar arithmetic.
pub open spec fn spec_split_wf(cur: DateTime, end: DateTime) -> bool {
    &&& spec_valid(cur)
    &&& spec_valid(end)
    &&& cur.year <= end.year + 7
    &&& end.year + 400 <= i32::MAX
}

/// The sub-ranges the splitter emits: a window of the period's maximum span
/// at a time, the last window closing exactly at the requested end. After
/// each full window the cursor advances one further period so that the next
/// window does not re-request the boundary instant just covered.
pub open spec fn spec_split_periods(
    cur: DateTime,
    end: DateTime,
    period: ReadingPeriod,
) -> Seq<(DateTime, DateTime)>
    decreases spec_key(end) + spec_increase_slack() + 1 - spec_key(cur)
        when spec_split_wf(cur, end)
        via spec_split_periods_decreases
{
    let next_end = spec_add_days(cur, spec_max_days_for_period(period) as nat);
    if spec_le(end, next_end) {
        seq![(cur, end)]
    } else {
        seq![(cur, next_end)] + spec_split_periods(
            spec_increase_by_period(next_end, period),
            end,
            period,
        )
    }
}

#[via_fn]
proof fn spec_split_periods_decreases(cur: DateTime, end: DateTime, period: ReadingPeriod) {
    let maxd = spec_max_days_for_period(period);
    let next_end = spec_add_days(cur, maxd as nat);
    lemma_add_days_props(cur, maxd as nat);
    if !spec_le(end, next_end) {
        lemma_key_orders(next_end, end);
        lemma_key_orders(end, next_end);
        lemma_increase_props(next_end, period);
    }
}

/// Strict chronological order is transitive.
pub proof fn lemma_lt_trans(a: DateTime, b: DateTime, c: DateTime)
    requires
        spec_lt(a, b),
        spec_lt(b, c),
    ensures
        spec_lt(a, c),
{
}

/// The facts that hold of every emitted sub-range, proved once by induction
/// over the splitter's recursion.
proof fn lemma_split_props(cur: DateTime, end: DateTime, period: ReadingPeriod)
    requires
        spec_split_wf(cur, end),
    ensures
        ({
            let s = spec_split_periods(cur, end, period);
            let maxd = spec_max_days_for_period(period);
            &&& s.len() >= 1
            &&& s[0].0 == cur
            &&& s[s.len() - 1].1 == end
            &&& forall|i: int|
                0 <= i < s.len() ==> spec_valid(#[trigger] s[i].0) && spec_valid(s[i].1)
            &&& forall|i: int|
                0 <= i < s.len() ==> spec_le(#[trigger] s[i].1, spec_add_days(s[i].0, maxd as nat))
            &&& forall|i: int| 0 <= i < s.len() ==> spec_le(#[trigger] s[i].1, end)
            &&& forall|i: int|
                0 <= i < s.len() - 1 ==> #[trigger] s[i].1 == spec_add_days(s[i].0, maxd as nat)
                    && spec_lt(s[i].0, s[i].1)
            &&& forall|i: int|
                0 <= i < s.len() - 1 ==> #[trigger] s[i + 1].0 == spec_increase_by_period(
                    s[i].1,
                    period,
                ) && spec_lt(s[i].0, s[i + 1].0)
        }),
    decreases spec_key(end) + spec_increase_slack() + 1 - spec_key(cur),
{
    let s = spec_split_periods(cur, end, period);
    let maxd = spec_max_days_for_period(period);
    let next_end = spec_add_days(cur, maxd as nat);
    lemma_add_days_props(cur, maxd as nat);
    lemma_key_orders(cur, next_end);
    if !spec_le(end, next_end) {
        lemma_key_orders(next_end, end);
        lemma_key_orders(end, next_end);
        lemma_increase_props(next_end, period);
        let cur2 = spec_increase_by_period(next_end, period);
        lemma_key_orders(cur, cur2);
        lemma_split_props(cur2, end, period);
        let rest = spec_split_periods(cur2, end, period);
        assert(s == seq![(cur, next_end)] + rest);
        assert forall|i: int| 0 <= i < s.len() - 1 implies #[trigger] s[i + 1].0
            == spec_increase_by_period(s[i].1, period) && spec_lt(s[i].0, s[i + 1].0) by {
            if i > 0 {
                let k = i - 1;
                assert(rest[k + 1].0 == spec_increase_by_period(rest[k].1, period) && spec_lt(
                    rest[k].0,
                    rest[k + 1].0,
                ));
                assert(s[i] == rest[k]);
                assert(s[i + 1] == rest[k + 1]);
            } else {
                assert(s[0] == (cur, next_end));
                assert(s[1] == rest[0]);
            }
        }
    }
}

/// Split coverage: the emitted sub-ranges, taken together, span from the
/// requested start to the requested end exactly, and no sub-range spans more
/// than the period's maximum number of days.
pub proof fn lemma_split_coverage(start: DateTime, end: DateTime, period: ReadingPeriod)
    requires
        spec_valid(start),
        spec_valid(end),
        spec_le(start, end),
        end.year + 400 <= i32::MAX,
    ensures
        ({
            let s = spec_split_periods(start, end, period);
            let maxd = spec_max_days_for_period(period);
            &&& s.len() >= 1
            &&& s[0].0 == start
            &&& s[s.len() - 1].1 == end
            &&& forall|i: int|
                0 <= i < s.len() ==> spec_le(#[trigger] s[i].1, spec_add_days(s[i].0, maxd as nat))
            &&& forall|i: int| 0 <= i < s.len() ==> spec_le(#[trigger] s[i].1, end)
            &&& forall|i: int| 0 <= i < s.len() ==> spec_le(start, (#[trigger] s[i]).0)
        }),
{
    lemma_split_props(start, end, period);
    let s = spec_split_periods(start, end, period);
    assert forall|i: int| 0 <= i < s.len() implies spec_le(start, (#[trigger] s[i]).0) by {
        if i > 0 {
            lemma_starts_increase(s, 0, i);
        }
    }
}

/// Split monotonicity: the sub-ranges' start instants are strictly
/// increasing, and every sub-range but the last runs strictly forward.
pub proof fn lemma_split_monotone(start: DateTime, end: DateTime, period: ReadingPeriod)
    requires
        spec_valid(start),
        spec_valid(end),
        spec_le(start, end),
        end.year + 400 <= i32::MAX,
    ensures
        ({
            let s = spec_split_periods(start, end, period);
            &&& forall|i: int, j: int| 0 <= i < j < s.len() ==> spec_lt(s[i].0, s[j].0)
            &&& forall|i: int| 0 <= i < s.len() - 1 ==> spec_lt(#[trigger] s[i].0, s[i].1)
        }),
{
    lemma_split_props(start, end, period);
    let s = spec_split_periods(start, end, period);
    assert forall|i: int, j: int| 0 <= i < j < s.len() implies spec_lt(s[i].0, s[j].0) by {
        lemma_starts_increase(s, i, j);
    }
}

/// Chains the consecutive-start ordering into ordering between any two
/// starts.
proof fn lemma_starts_increase(s: Seq<(DateTime, DateTime)>, i: int, j: int)
    requires
        forall|k: int| 0 <= k < s.len() - 1 ==> spec_lt(#[trigger] s[k].0, s[k + 1].0),
        0 <= i < j < s.len(),
    ensures
        spec_lt(s[i].0, s[j].0),
    decreases j - i,
{
    if i + 1 < j {
        lemma_starts_increase(s, i, j - 1);
        assert(spec_lt(s[j - 1].0, s[j].0));
        lemma_lt_trans(s[i].0, s[j - 1].0, s[j].0);
    } else {
        assert(spec_lt(s[i].0, s[i + 1].0));
    }
}

/// Whether the splitter's cursor stays within the requested end on the last
/// emitted sub-range; where a seam's one-period advance overshoots a nearby
/// end this fails, and that last sub-range runs backwards.
pub open spec fn spec_split_last_within(start: DateTime, end: DateTime, period: ReadingPeriod) -> bool {
    spec_le(spec_split_periods(start, end, period).last().0, end)
}

/// Where the cursor never overshoots the requested end, every sub-range,
/// the last included, runs forward.
pub proof fn lemma_split_ranges_forward(start: DateTime, end: DateTime, period: ReadingPeriod)
    requires
        spec_valid(start),
        spec_valid(end),
        spec_le(start, end),
        end.year + 400 <= i32::MAX,
        spec_split_last_within(start, end, period),
    ensures
        ({
            let s = spec_split_periods(start, end, period);
            forall|i: int| 0 <= i < s.len() ==> spec_le(#[trigger] s[i].0, s[i].1)
        }),
{
    lemma_split_props(start, end, period);
    let s = spec_split_periods(start, end, period);
    assert(s.last() == s[s.len() - 1]);
}

/// Splits a range of readings into an ordered set of sub-ranges that the
/// API will accept, each spanning at most the period's maximum number of
/// days. Both bounds must be in UTC, with the start no later than the end.
pub fn split_periods(
    start: DateTime,
    end: DateTime,
    period: ReadingPeriod,
) -> (ranges: Vec<(DateTime, DateTime)>)
    requires
        spec_valid(start),
        spec_valid(end),
        spec_le(start, end),
        end.year + 400 <= i32::MAX,
    ensures
        ranges@ == spec_split_periods(start, end, period),
{
    let mut ranges: Vec<(DateTime, DateTime)> = Vec::new();
    let max_days = max_days_for_period(period);
    let mut current = start;
    loop
        invariant_except_break
            spec_split_periods(start, end, period) == ranges@ + spec_split_periods(
                current,
                end,
                period,
            ),
        invariant
            spec_valid(current),
            spec_valid(end),
            current.year <= end.year + 7,
            end.year + 400 <= i32::MAX,
            max_days == spec_max_days_for_period(period),
            spec_split_wf(start, end),
        ensures
            ranges@ == spec_split_periods(start, end, period),
        decreases spec_key(end) + spec_increase_slack() + 1 - spec_key(current),
    {
        proof {
            lemma_add_days_props(current, max_days as nat);
        }
        let next_end = add_days(current, max_days);
        if datetime_le(&end, &next_end) {
            ranges.push((current, end));
            proof {
                assert(ranges@ =~= spec_split_periods(start, end, period));
            }
            break;
        } else {
            ranges.push((current, next_end));
            proof {
                lemma_key_orders(next_end, end);
                lemma_key_orders(end, next_end);
                lemma_increase_props(next_end, period);
            }
            current = increase_by_period(next_end, period);
        }
    }
    ranges
}

} // verus!
