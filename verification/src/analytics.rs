//! The analytics summary: the completion rate, the number of habits and of
//! active days, and the longest streak of all habits together.

use crate::date::{format_date, formatted_day, from_ymd_opt, civil_day, Date, DB_DATE_FORMAT, MAX_DAY, MIN_DAY};
use crate::series::{distinct_names, get_all_habits, holds_text, span_len};
use crate::store::{rows_of, texts_of, MetricStore, RowView};
use crate::streaks::{is_longest_run, logged, logged_days, longest_streak};
use vstd::prelude::*;

verus! {

/// The figures of the analytics summary.
#[derive(Debug)]
pub struct AnalyticsSummary {
    pub longest_streak: i64,
    pub total_habits: u64,
    pub completion_rate: i64,
    pub active_days: u64,
}

/// The number of records of one day with a value above 0, of tracked habits.
#[derive(Debug)]
pub struct DayActivity {
    pub date: String,
    pub value: i64,
}

/// What a [`DayActivity`] holds.
pub struct DayActivityView {
    pub date: Seq<char>,
    pub value: i64,
}

impl View for DayActivity {
    type V = DayActivityView;

    open spec fn view(&self) -> DayActivityView {
        DayActivityView { date: self.date@, value: self.value }
    }
}

/// The number of records of `rows` with a value above 0.
pub open spec fn successes(rows: Seq<RowView>) -> nat
    decreases rows.len(),
{
    if rows.len() == 0 {
        0
    } else if rows.last().metric.value > 0 {
        successes(rows.drop_last()) + 1
    } else {
        successes(rows.drop_last())
    }
}

/// The earliest date of `rows`; 0 where `rows` is empty.
pub open spec fn min_date(rows: Seq<RowView>) -> int
    decreases rows.len(),
{
    if rows.len() == 0 {
        0
    } else if rows.len() == 1 || rows.last().metric.date < min_date(rows.drop_last()) {
        rows.last().metric.date
    } else {
        min_date(rows.drop_last())
    }
}

/// The latest date of `rows`; 0 where `rows` is empty.
pub open spec fn max_date(rows: Seq<RowView>) -> int
    decreases rows.len(),
{
    if rows.len() == 0 {
        0
    } else if rows.len() == 1 || rows.last().metric.date > max_date(rows.drop_last()) {
        rows.last().metric.date
    } else {
        max_date(rows.drop_last())
    }
}

/// The completion rate of `rows`: 100 times the number of records with a
/// value above 0, over the number of days from the earliest to the latest
/// date times the number of habits, as a whole number and at most 100; 0
/// where there is no record.
pub open spec fn completion_rate(rows: Seq<RowView>) -> int {
    let days = max_date(rows) - min_date(rows) + 1;
    let habits = distinct_names(rows).len() as int;
    let done = successes(rows) as int;
    if rows.len() == 0 || days <= 0 || habits == 0 {
        0
    } else if (100 * done) / (days * habits) > 100 {
        100
    } else {
        (100 * done) / (days * habits)
    }
}

/// The names of the records of `rows` with a value above 0, each once, in the
/// order in which they first occur.
pub open spec fn active_names(rows: Seq<RowView>) -> Seq<Seq<char>>
    decreases rows.len(),
{
    if rows.len() == 0 {
        Seq::empty()
    } else {
        let init = active_names(rows.drop_last());
        if rows.last().metric.value > 0 && !init.contains(rows.last().metric.name) {
            init.push(rows.last().metric.name)
        } else {
            init
        }
    }
}

/// The number of records of `rows` of the day `day` with a value above 0
/// whose name is one of `names`.
pub open spec fn active_count(rows: Seq<RowView>, names: Seq<Seq<char>>, day: int) -> nat
    decreases rows.len(),
{
    if rows.len() == 0 {
        0
    } else if rows.last().metric.date == day && rows.last().metric.value > 0 && names.contains(
        rows.last().metric.name,
    ) {
        active_count(rows.drop_last(), names, day) + 1
    } else {
        active_count(rows.drop_last(), names, day)
    }
}

/// The activity of the first `n` days from `start` on: one entry for each day
/// that has a record with a value above 0 of a name of `names`, in order.
pub open spec fn activity_from(rows: Seq<RowView>, names: Seq<Seq<char>>, start: int, n: nat) -> Seq<DayActivityView>
    decreases n,
{
    if n == 0 {
        Seq::empty()
    } else {
        let before = activity_from(rows, names, start, (n - 1) as nat);
        let day = start + n - 1;
        if active_count(rows, names, day) > 0 {
            before.push(
                DayActivityView {
                    date: formatted_day(day, DB_DATE_FORMAT@),
                    value: active_count(rows, names, day) as i64,
                },
            )
        } else {
            before
        }
    }
}

/// The views of the entries of `v`.
pub open spec fn day_activity_of(v: Seq<DayActivity>) -> Seq<DayActivityView> {
    Seq::new(v.len(), |i: int| v[i]@)
}

/// The number of records of the day `day` with a value above 0 of a tracked
/// metric.
pub fn count_active_on(store: &MetricStore, day: Date) -> (r: usize)
    ensures
        r == active_count(store@.metrics, store@.tracked_metrics, day@),
{
    let rows = store.metrics();
    let names = store.tracked_metrics();
    let ghost views = rows_of(rows@);
    let target: i32 = day.days();
    let mut count: usize = 0;
    let mut i: usize = 0;
    while i < rows.len()
        invariant
            i <= rows.len(),
            views == rows_of(rows@),
            views == store@.metrics,
            texts_of(names@) == store@.tracked_metrics,
            target == day@,
            count <= i,
            count == active_count(views.take(i as int), store@.tracked_metrics, day@),
        decreases rows.len() - i,
    {
        let r = &rows[i];
        proof {
            let next = views.take(i as int + 1);
            assert(next.drop_last() =~= views.take(i as int));
            assert(next.last() == r@);
        }
        if r.metric.date.days() == target && r.metric.value > 0 && holds_text(names, &r.metric.name) {
            count += 1;
        }
        i += 1;
    }
    assert(views.take(views.len() as int) =~= views);
    count
}

/// The activity of the days from `start` to `end`, both included: for each
/// day that has a record with a value above 0 of a tracked metric, the
/// number of such records, in the order of the days.
pub fn weekly_activity_between(store: &MetricStore, start: Date, end: Date) -> (r: Vec<DayActivity>)
    ensures
        day_activity_of(r@) == activity_from(
            store@.metrics,
            store@.tracked_metrics,
            start@,
            span_len(start@, end@),
        ),
{
    let ghost rows = store@.metrics;
    let ghost names = store@.tracked_metrics;
    let first: i32 = start.days();
    let last: i32 = end.days();
    let mut out: Vec<DayActivity> = Vec::new();
    assert(day_activity_of(out@) =~= activity_from(rows, names, start@, 0));
    if last < first {
        return out;
    }
    let mut day: i32 = first;
    let mut more: bool = true;
    while more
        invariant
            rows == store@.metrics,
            names == store@.tracked_metrics,
            first == start@,
            last == end@,
            MIN_DAY <= first <= day <= last <= MAX_DAY,
            more ==> day_activity_of(out@) == activity_from(rows, names, start@, (day - first) as nat),
            !more ==> day_activity_of(out@) == activity_from(rows, names, start@, span_len(start@, end@)),
        decreases (if more { 1int } else { 0int }), last - day,
    {
        let ghost before = day_activity_of(out@);
        match Date::from_days(day) {
            Some(d) => {
                let count: usize = count_active_on(store, d);
                if count > 0 {
                    out.push(DayActivity { date: format_date(d, DB_DATE_FORMAT), value: count as i64 });
                    assert(day_activity_of(out@) =~= before.push(
                        (DayActivityView { date: formatted_day(day as int, DB_DATE_FORMAT@), value: count as i64 }),
                    ));
                }
            },
            None => {},
        }
        if day < last {
            day += 1;
        } else {
            more = false;
        }
    }
    out
}

/// The activity of the week from October 12 to October 18 of 2025.
pub fn get_weekly_activity(store: &MetricStore) -> (r: Vec<DayActivity>)
    ensures
        match (civil_day(2025, 10, 12), civil_day(2025, 10, 18)) {
            (Some(start), Some(end)) => day_activity_of(r@) == activity_from(
                store@.metrics,
                store@.tracked_metrics,
                start,
                span_len(start, end),
            ),
            _ => r@.len() == 0,
        },
{
    match (from_ymd_opt(2025, 10, 12), from_ymd_opt(2025, 10, 18)) {
        (Some(start), Some(end)) => weekly_activity_between(store, start, end),
        _ => Vec::new(),
    }
}

/// The completion rate of the store.
pub fn get_completion_rate(store: &MetricStore) -> (r: i64)
    requires
        store@.valid(),
    ensures
        r == completion_rate(store@.metrics),
        0 <= r <= 100,
{
    let rows = store.metrics();
    let ghost views = rows_of(rows@);
    if rows.len() == 0 {
        return 0;
    }
    let mut done: usize = 0;
    let mut low: i32 = 0;
    let mut high: i32 = 0;
    let mut i: usize = 0;
    while i < rows.len()
        invariant
            i <= rows.len(),
            views == rows_of(rows@),
            done == successes(views.take(i as int)),
            done <= i,
            low == min_date(views.take(i as int)),
            high == max_date(views.take(i as int)),
            i > 0 ==> MIN_DAY <= low <= high <= MAX_DAY,
        decreases rows.len() - i,
    {
        let r = &rows[i];
        proof {
            let next = views.take(i as int + 1);
            assert(next.drop_last() =~= views.take(i as int));
            assert(next.last() == r@);
        }
        let d: i32 = r.metric.date.days();
        if r.metric.value > 0 {
            done += 1;
        }
        if i == 0 || d < low {
            low = d;
        }
        if i == 0 || d > high {
            high = d;
        }
        i += 1;
    }
    assert(views.take(views.len() as int) =~= views);
    let habits = get_all_habits(store);
    assert(texts_of(habits@).len() == habits@.len());
    let days: i64 = high as i64 - low as i64 + 1;
    if habits.len() == 0 {
        return 0;
    }
    assert(1 <= days * habits@.len() <= 0x1_0000_0000 * 0xffff_ffff_ffff_ffff) by (nonlinear_arith)
        requires
            1 <= days <= 0x1_0000_0000,
            1 <= habits@.len() <= 0xffff_ffff_ffff_ffff,
    ;
    let chances: u128 = days as u128 * habits.len() as u128;
    let rate: u128 = 100 * done as u128 / chances;
    if rate > 100 {
        100
    } else {
        rate as i64
    }
}

/// The number of habits with a record whose value is above 0.
pub fn count_all_habits(store: &MetricStore) -> (r: u64)
    ensures
        r == active_names(store@.metrics).len(),
{
    let rows = store.metrics();
    let ghost views = rows_of(rows@);
    let mut names: Vec<String> = Vec::new();
    let mut i: usize = 0;
    assert(texts_of(names@) =~= Seq::<Seq<char>>::empty());
    while i < rows.len()
        invariant
            i <= rows.len(),
            views == rows_of(rows@),
            texts_of(names@) == active_names(views.take(i as int)),
            names@.len() <= i,
        decreases rows.len() - i,
    {
        let r = &rows[i];
        let ghost before = texts_of(names@);
        proof {
            let next = views.take(i as int + 1);
            assert(next.drop_last() =~= views.take(i as int));
            assert(next.last() == r@);
        }
        if r.metric.value > 0 && !holds_text(&names, &r.metric.name) {
            names.push(r.metric.name.clone());
            assert(texts_of(names@) =~= before.push(r@.metric.name));
        }
        i += 1;
    }
    assert(views.take(views.len() as int) =~= views);
    assert(texts_of(names@).len() == names@.len());
    names.len() as u64
}

/// The number of days on which some habit has a record with a value above 0.
pub fn count_active_days(store: &MetricStore) -> (r: u64)
    requires
        store@.valid(),
    ensures
        r == Set::new(|day: int| logged(store@.metrics, None, day)).len(),
        Set::new(|day: int| logged(store@.metrics, None, day)).finite(),
{
    let days = logged_days(store, None);
    proof {
        let active = Set::new(|day: int| logged(store@.metrics, None, day));
        let listed = days@.map_values(|d: i32| d as int);
        assert forall|a: int, b: int| 0 <= a < listed.len() && 0 <= b < listed.len() && a != b implies listed[a]
            != listed[b] by {
            if a < b {
                assert(days@[a] < days@[b]);
            } else {
                assert(days@[b] < days@[a]);
            }
        }
        listed.unique_seq_to_set();
        assert(listed.to_set() =~= active) by {
            assert forall|day: int| listed.to_set().contains(day) <==> active.contains(day) by {
                if listed.to_set().contains(day) {
                    let k = choose|k: int| 0 <= k < listed.len() && listed[k] == day;
                    assert(days@[k] == day);
                    assert(days@.contains(days@[k]));
                }
                if active.contains(day) {
                    assert(days@.contains(day as i32));
                    let k = choose|k: int| 0 <= k < days@.len() && days@[k] == day as i32;
                    assert(listed[k] == day);
                }
            }
        }
    }
    days.len() as u64
}

/// The longest streak of all habits together: the longest run of consecutive
/// days on each of which some habit has a record with a value above 0.
pub fn get_all_habits_longest_streak(store: &MetricStore) -> (r: i64)
    requires
        store@.valid(),
    ensures
        r >= 0,
        is_longest_run(store@.metrics, None, r as nat),
{
    longest_streak(store, None)
}

/// The analytics summary of the store.
pub fn get_analytics_summary(store: &MetricStore) -> (r: AnalyticsSummary)
    requires
        store@.valid(),
    ensures
        r.completion_rate == completion_rate(store@.metrics),
        r.total_habits == active_names(store@.metrics).len(),
        r.active_days == Set::new(|day: int| logged(store@.metrics, None, day)).len(),
        r.longest_streak >= 0,
        is_longest_run(store@.metrics, None, r.longest_streak as nat),
{
    let completion_rate = get_completion_rate(store);
    let total_habits = count_all_habits(store);
    let active_days = count_active_days(store);
    let longest_streak = get_all_habits_longest_streak(store);
    AnalyticsSummary { longest_streak, total_habits, completion_rate, active_days }
}

} // verus!
