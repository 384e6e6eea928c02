//! The workload reconciliation core: how many billable hours a day still
//! owes (the daily quota), how many hours are missing over a date range
//! (the gap), and how a requested block of hours spreads over consecutive
//! days (the allocation plan). Every function is a pure function of a
//! snapshot of recorded entries and declared time off.

use vstd::prelude::*;
use crate::config::TimeOff;
use crate::date::WorkDate;
use crate::date::is_working_day;
use crate::date::iso_of;
use crate::date::spec_is_working_day;
use crate::service::TimeEntry;

verus! {

/// The nominal length of a working day, in hours.
pub const WORKING_DAY_DURATION: i32 = 8;

/// The hours of every recorded entry that falls on the given date.
pub open spec fn entry_hours_on(entries: Seq<TimeEntry>, date: WorkDate) -> int
    decreases entries.len(),
{
    if entries.len() == 0 {
        0
    } else {
        entry_hours_on(entries.drop_last(), date) + (if entries.last().date == date {
            entries.last().hours as int
        } else {
            0
        })
    }
}

/// The hours of every declared time off whose date string is the given
/// date's `YYYY-MM-DD` form. Time off is keyed by the string the
/// configuration stores, so only exact text matches count.
pub open spec fn time_off_hours_on(times_off: Seq<TimeOff>, date: WorkDate) -> int
    decreases times_off.len(),
{
    if times_off.len() == 0 {
        0
    } else {
        time_off_hours_on(times_off.drop_last(), date) + (if times_off.last().date@ == iso_of(
            date,
        ) {
            times_off.last().hours as int
        } else {
            0
        })
    }
}

/// Entries as the remote system reports them: no negative hours.
pub open spec fn entries_wf(entries: Seq<TimeEntry>) -> bool {
    forall|i: int| 0 <= i < entries.len() ==> (#[trigger] entries[i]).hours >= 0
}

/// Declared time off as the configuration keeps it: no negative hours.
pub open spec fn times_off_wf(times_off: Seq<TimeOff>) -> bool {
    forall|i: int| 0 <= i < times_off.len() ==> (#[trigger] times_off[i]).hours >= 0
}

/// The remaining quota of a date: the eight-hour baseline, less the
/// hours already recorded on it and the hours excused for it, floored at
/// zero.
pub open spec fn spec_remaining_workload(
    date: WorkDate,
    entries: Seq<TimeEntry>,
    times_off: Seq<TimeOff>,
) -> int {
    let left = 8 - entry_hours_on(entries, date) - time_off_hours_on(times_off, date);
    if left < 0 {
        0
    } else {
        left
    }
}

proof fn lemma_entry_hours_on_nonneg(entries: Seq<TimeEntry>, date: WorkDate)
    requires
        entries_wf(entries),
    ensures
        entry_hours_on(entries, date) >= 0,
    decreases entries.len(),
{
    if entries.len() > 0 {
        lemma_entry_hours_on_nonneg(entries.drop_last(), date);
    }
}

proof fn lemma_time_off_hours_on_nonneg(times_off: Seq<TimeOff>, date: WorkDate)
    requires
        times_off_wf(times_off),
    ensures
        time_off_hours_on(times_off, date) >= 0,
    decreases times_off.len(),
{
    if times_off.len() > 0 {
        lemma_time_off_hours_on_nonneg(times_off.drop_last(), date);
    }
}

/// With non-negative inputs the daily quota always lies between zero and
/// the eight-hour baseline.
pub proof fn lemma_remaining_workload_in_range(
    date: WorkDate,
    entries: Seq<TimeEntry>,
    times_off: Seq<TimeOff>,
)
    requires
        entries_wf(entries),
        times_off_wf(times_off),
    ensures
        0 <= spec_remaining_workload(date, entries, times_off) <= 8,
{
    lemma_entry_hours_on_nonneg(entries, date);
    lemma_time_off_hours_on_nonneg(times_off, date);
}

/// Recording one more entry for a date never increases that date's
/// remaining quota, whether or not the entry falls on it.
pub proof fn lemma_remaining_workload_entry_monotone(
    date: WorkDate,
    entries: Seq<TimeEntry>,
    extra: TimeEntry,
    times_off: Seq<TimeOff>,
)
    requires
        extra.hours >= 0,
    ensures
        spec_remaining_workload(date, entries.push(extra), times_off) <= spec_remaining_workload(
            date,
            entries,
            times_off,
        ),
{
    assert(entries.push(extra).drop_last() =~= entries);
}

/// Declaring one more time off never increases any date's remaining
/// quota, whether or not the declaration names it.
pub proof fn lemma_remaining_workload_time_off_monotone(
    date: WorkDate,
    entries: Seq<TimeEntry>,
    times_off: Seq<TimeOff>,
    extra: TimeOff,
)
    requires
        extra.hours >= 0,
    ensures
        spec_remaining_workload(date, entries, times_off.push(extra)) <= spec_remaining_workload(
            date,
            entries,
            times_off,
        ),
{
    assert(times_off.push(extra).drop_last() =~= times_off);
}

/// The daily quota is a pure function of its snapshot: any two results
/// computed from identical inputs are identical.
pub proof fn lemma_remaining_workload_deterministic(
    date: WorkDate,
    entries: Seq<TimeEntry>,
    times_off: Seq<TimeOff>,
    first: int,
    second: int,
)
    requires
        first == spec_remaining_workload(date, entries, times_off),
        second == spec_remaining_workload(date, entries, times_off),
    ensures
        first == second,
{
}

/// The remaining billable hours of a date: the baseline less what the
/// given entries record on it and what the given times off excuse for
/// it, never below zero.
pub fn get_remaining_workload(
    date: WorkDate,
    existing_time_entries: &Vec<TimeEntry>,
    times_off: &Vec<TimeOff>,
) -> (r: i32)
    requires
        date.wf(),
        entries_wf(existing_time_entries@),
        times_off_wf(times_off@),
    ensures
        r == spec_remaining_workload(date, existing_time_entries@, times_off@),
        0 <= r <= 8,
{
    let mut remaining: i64 = WORKING_DAY_DURATION as i64;
    let n = existing_time_entries.len();
    let mut i: usize = 0;
    while i < n
        invariant
            i <= n,
            n == existing_time_entries@.len(),
            entries_wf(existing_time_entries@),
            remaining <= 8,
            remaining == vstd::math::max(
                -1,
                8 - entry_hours_on(existing_time_entries@.take(i as int), date),
            ),
        decreases n - i,
    {
        proof {
            assert(existing_time_entries@.take(i + 1 as int).drop_last()
                =~= existing_time_entries@.take(i as int));
            lemma_entry_hours_on_nonneg(existing_time_entries@.take(i as int), date);
        }
        let e = &existing_time_entries[i];
        if e.date == date {
            let h = e.hours as i64;
            remaining = if remaining - h < -1 {
                -1
            } else {
                remaining - h
            };
        }
        i = i + 1;
    }
    proof {
        assert(existing_time_entries@.take(n as int) =~= existing_time_entries@);
    }
    let iso = date.format_iso();
    let m = times_off.len();
    let mut j: usize = 0;
    while j < m
        invariant
            j <= m,
            m == times_off@.len(),
            times_off_wf(times_off@),
            entries_wf(existing_time_entries@),
            iso@ == iso_of(date),
            remaining <= 8,
            remaining == vstd::math::max(
                -1,
                8 - entry_hours_on(existing_time_entries@, date) - time_off_hours_on(
                    times_off@.take(j as int),
                    date,
                ),
            ),
        decreases m - j,
    {
        proof {
            assert(times_off@.take(j + 1 as int).drop_last() =~= times_off@.take(j as int));
            lemma_time_off_hours_on_nonneg(times_off@.take(j as int), date);
            lemma_entry_hours_on_nonneg(existing_time_entries@, date);
        }
        let t = &times_off[j];
        if t.date == iso {
            let h = t.hours as i64;
            remaining = if remaining - h < -1 {
                -1
            } else {
                remaining - h
            };
        }
        j = j + 1;
    }
    proof {
        assert(times_off@.take(m as int) =~= times_off@);
        lemma_remaining_workload_in_range(date, existing_time_entries@, times_off@);
    }
    if remaining < 0 {
        0
    } else {
        remaining as i32
    }
}

/// The hours missing over a date range: for every date from `since` up
/// to but excluding `today`, a working day contributes its remaining
/// quota and any other day contributes nothing. An empty or backwards
/// range owes nothing.
pub open spec fn spec_missing_hours(
    since: WorkDate,
    today: WorkDate,
    entries: Seq<TimeEntry>,
    times_off: Seq<TimeOff>,
) -> int
    decreases today.key() - since.key(),
{
    if !since.wf() || !today.wf() || !since.spec_lt(today) {
        0
    } else {
        (if spec_is_working_day(since) {
            spec_remaining_workload(since, entries, times_off)
        } else {
            0
        }) + spec_missing_hours(since.spec_succ(), today, entries, times_off)
    }
}

/// The gap is never negative and never exceeds eight hours per day of
/// the range.
pub proof fn lemma_missing_hours_bounds(
    since: WorkDate,
    today: WorkDate,
    entries: Seq<TimeEntry>,
    times_off: Seq<TimeOff>,
)
    requires
        entries_wf(entries),
        times_off_wf(times_off),
    ensures
        0 <= spec_missing_hours(since, today, entries, times_off),
        since.wf() && today.wf() && since.spec_lt(today) ==> spec_missing_hours(
            since,
            today,
            entries,
            times_off,
        ) <= 8 * (today.key() - since.key()),
    decreases today.key() - since.key(),
{
    if since.wf() && today.wf() && since.spec_lt(today) {
        lemma_remaining_workload_in_range(since, entries, times_off);
        lemma_missing_hours_bounds(since.spec_succ(), today, entries, times_off);
    }
}

/// The total hours still owed between `since` (inclusive) and `today`
/// (exclusive): the sum over every working day in the range of that
/// day's remaining quota. When `today` is not after `since` there is no
/// range and nothing is owed.
pub fn get_missing_entries(
    since_date: WorkDate,
    today: WorkDate,
    existing_time_entries: &Vec<TimeEntry>,
    times_off: &Vec<TimeOff>,
) -> (r: i32)
    requires
        since_date.wf(),
        today.wf(),
        entries_wf(existing_time_entries@),
        times_off_wf(times_off@),
    ensures
        r == spec_missing_hours(since_date, today, existing_time_entries@, times_off@),
        !since_date.spec_lt(today) ==> r == 0,
        r >= 0,
{
    if today.le(since_date) {
        return 0;
    }
    let mut missing: i32 = 0;
    let mut d = since_date;
    while d.lt(today)
        invariant
            d.wf(),
            today.wf(),
            entries_wf(existing_time_entries@),
            times_off_wf(times_off@),
            since_date.key() <= d.key() <= today.key(),
            0 <= missing,
            missing <= 8 * (d.key() - since_date.key()),
            missing + spec_missing_hours(d, today, existing_time_entries@, times_off@)
                == spec_missing_hours(since_date, today, existing_time_entries@, times_off@),
        decreases today.key() - d.key(),
    {
        proof {
            crate::date::lemma_lt_key(d, today);
            lemma_missing_hours_bounds(d, today, existing_time_entries@, times_off@);
        }
        let remaining_workload = get_remaining_workload(d, existing_time_entries, times_off);
        if is_working_day(d) {
            missing = missing + remaining_workload;
        }
        d = d.succ();
    }
    proof {
        crate::date::lemma_lt_key(d, today);
    }
    missing
}

/// One day of an allocation plan: the date and the hours to record on
/// it.
#[derive(Clone, Copy, PartialEq, Eq, Structural, Debug)]
pub struct PlannedEntry {
    pub date: WorkDate,
    pub hours: i32,
}

/// The allocation walk: from `cursor` toward `today`, each visited day —
/// the start date itself, and after it every working day — absorbs its
/// remaining quota out of the requested hours, and each day with a
/// nonzero quota becomes one planned entry. The walk stops when the
/// request is exhausted or `today` is reached; `today` itself is never
/// allocated.
pub open spec fn spec_save_time_plan(
    cursor: WorkDate,
    start: WorkDate,
    today: WorkDate,
    remaining: int,
    entries: Seq<TimeEntry>,
    times_off: Seq<TimeOff>,
) -> Seq<PlannedEntry>
    decreases today.key() - cursor.key(),
{
    if !cursor.wf() || !today.wf() || !cursor.spec_lt(today) || remaining <= 0 {
        Seq::empty()
    } else if cursor == start || spec_is_working_day(cursor) {
        let quota = spec_remaining_workload(cursor, entries, times_off);
        let rest = spec_save_time_plan(
            cursor.spec_succ(),
            start,
            today,
            remaining - quota,
            entries,
            times_off,
        );
        if quota > 0 {
            seq![(PlannedEntry { date: cursor, hours: quota as i32 })] + rest
        } else {
            rest
        }
    } else {
        spec_save_time_plan(cursor.spec_succ(), start, today, remaining, entries, times_off)
    }
}

/// The plan for saving a block of hours starting at a date: one planned
/// entry per visited day with remaining quota, in date order, as the
/// walk of [`spec_save_time_plan`] lays them out. The first day is
/// visited as given; every later day is visited only if it is a working
/// day. Each visited day absorbs its whole remaining quota from the
/// request — not more than the quota even if less is requested, exactly
/// as the running total is consumed. The caller submits one time entry
/// per planned day, or only reports them on a dry run.
pub fn save_time(
    start_date: WorkDate,
    today: WorkDate,
    hours: i32,
    existing_time_entries: &Vec<TimeEntry>,
    times_off: &Vec<TimeOff>,
) -> (plan: Vec<PlannedEntry>)
    requires
        start_date.wf(),
        today.wf(),
        hours > 0,
        entries_wf(existing_time_entries@),
        times_off_wf(times_off@),
    ensures
        plan@ == spec_save_time_plan(
            start_date,
            start_date,
            today,
            hours as int,
            existing_time_entries@,
            times_off@,
        ),
{
    let mut plan: Vec<PlannedEntry> = Vec::new();
    let mut cursor = start_date;
    let mut remaining: i32 = hours;
    while cursor.lt(today) && remaining > 0
        invariant
            cursor.wf(),
            start_date.wf(),
            today.wf(),
            entries_wf(existing_time_entries@),
            times_off_wf(times_off@),
            remaining <= hours,
            plan@ + spec_save_time_plan(
                cursor,
                start_date,
                today,
                remaining as int,
                existing_time_entries@,
                times_off@,
            ) == spec_save_time_plan(
                start_date,
                start_date,
                today,
                hours as int,
                existing_time_entries@,
                times_off@,
            ),
        decreases today.key() - cursor.key(),
    {
        proof {
            crate::date::lemma_lt_key(cursor, today);
        }
        if cursor == start_date || is_working_day(cursor) {
            let quota = get_remaining_workload(cursor, existing_time_entries, times_off);
            if quota > 0 {
                plan.push(PlannedEntry { date: cursor, hours: quota });
                proof {
                    assert(plan@ =~= plan@.drop_last() + seq![
                        (PlannedEntry { date: cursor, hours: quota }),
                    ]);
                    assert(plan@.drop_last() + (seq![
                        (PlannedEntry { date: cursor, hours: quota }),
                    ] + spec_save_time_plan(
                        cursor.spec_succ(),
                        start_date,
                        today,
                        remaining - quota,
                        existing_time_entries@,
                        times_off@,
                    )) =~= plan@ + spec_save_time_plan(
                        cursor.spec_succ(),
                        start_date,
                        today,
                        remaining - quota,
                        existing_time_entries@,
                        times_off@,
                    ));
                }
            }
            remaining = remaining - quota;
        }
        cursor = cursor.succ();
    }
    proof {
        assert(plan@ + Seq::<PlannedEntry>::empty() =~= plan@);
    }
    plan
}

} // verus!
