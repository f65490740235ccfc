//! The summary of each habit for the dashboard, and the questions that the
//! user interface asks about streaks.

use crate::dashboard::{
    clamp_i32, month_first, month_last, monthly_metric_total_on, rounded_mean, week_first, weekly_avg_from,
    window_count, window_sum, DashboardError,
};
use crate::date::{Weekday, day_in_range, civil_day, Date, day_months_later, from_ymd_opt, MAX_DAY, MIN_DAY, Timestamp, today};
use crate::seqs::{first_index, lemma_first_index_is};
use crate::series::{activity, distinct_names, get_all_habits, get_month_range_data, habits_of, HabitData, SeriesError};
use crate::settings::{latest_update, metric_usage};
use crate::store::{texts_of, MetricStore, RowView};
use crate::streaks::{is_streak_as_of, get_habit_streak, get_longest_habit_streak, habit_streak_on, is_longest_run, run_ending, StreakError};
use vstd::prelude::*;
use vstd::string::StringExecFns;

verus! {

/// Which way a habit is going.
#[derive(Clone, Copy, Debug, PartialEq, Eq, Structural)]
pub enum Trend {
    Stable,
    Up,
    Down,
}

/// The summary of one habit.
#[derive(Debug)]
pub struct DashboardMetrics {
    pub name: String,
    pub current_streak: i64,
    pub longest_streak: i64,
    pub weekly_average: i32,
    pub display_name: String,
    pub last_updated: Timestamp,
    pub monthly_total: u32,
    pub trend: Trend,
}

/// Whether `m` is the summary of `habit` as of `today`, with its weekly
/// average taken over the week that begins on the day of the week with the
/// index `start`.
pub open spec fn summarizes(m: DashboardMetrics, rows: Seq<RowView>, habit: Seq<char>, start: int, today: int) -> bool {
    &&& m.name@ == habit
    &&& m.display_name@ == habit
    &&& m.current_streak == run_ending(rows, Some(habit), today - 1)
    &&& m.longest_streak >= 0
    &&& is_longest_run(rows, Some(habit), m.longest_streak as nat)
    &&& m.weekly_average == clamp_i32(
        rounded_mean(
            window_sum(rows, habit, week_first(today, start), week_first(today, start) + 6),
            window_count(rows, habit, week_first(today, start), week_first(today, start) + 6),
        ),
    )
    &&& month_first(today) is Some
    &&& month_last(today) is Some
    &&& m.monthly_total == window_sum(rows, habit, month_first(today)->0, month_last(today)->0)
    &&& latest_update(rows, habit) == Some(m.last_updated)
    &&& m.trend is Stable
}

/// Whether the summary of `habit` as of `today` can be made: yesterday, the
/// week and the month of `today` lie within the calendar, the monthly total
/// is one that a `u32` holds, and the store holds a record of the habit.
pub open spec fn can_summarize(rows: Seq<RowView>, habit: Seq<char>, start: int, today: int) -> bool {
    &&& today > MIN_DAY
    &&& MIN_DAY <= week_first(today, start)
    &&& week_first(today, start) + 6 <= MAX_DAY
    &&& month_first(today) is Some
    &&& month_last(today) is Some
    &&& window_sum(rows, habit, month_first(today)->0, month_last(today)->0) <= u32::MAX
    &&& latest_update(rows, habit) is Some
}

/// The error that keeps the summary of `habit` as of `today` from being
/// made, if there is one: that yesterday, the week or the month of `today`
/// does not lie within the calendar; else that the monthly total is more than
/// a `u32` holds; else that the store holds no record of the habit.
pub open spec fn summary_error(rows: Seq<RowView>, habit: Seq<char>, start: int, today: int) -> Option<DashboardError> {
    if today <= MIN_DAY || week_first(today, start) < MIN_DAY || week_first(today, start) + 6 > MAX_DAY || month_first(
        today,
    ) is None || month_last(today) is None {
        Some(DashboardError::DateOutOfRange)
    } else if window_sum(rows, habit, month_first(today)->0, month_last(today)->0) > u32::MAX {
        Some(DashboardError::TotalTooLarge)
    } else if latest_update(rows, habit) is None {
        Some(DashboardError::NoRecords)
    } else {
        None
    }
}

/// Whether `r` is the summary of `habit` as of the day `today`, or the error
/// that keeps it from being made.
pub open spec fn is_summary_as_of(r: Result<DashboardMetrics, DashboardError>, rows: Seq<RowView>, habit: Seq<char>, start: int, today: int) -> bool {
    match summary_error(rows, habit, start, today) {
        Some(e) => r matches Err(x) && x == e,
        None => r matches Ok(m) && summarizes(m, rows, habit, start, today),
    }
}

/// The index of the first habit of `rows` whose summary as of `today` cannot
/// be made; the number of habits where there is none.
pub open spec fn first_failing(rows: Seq<RowView>, start: int, today: int) -> int {
    first_index(distinct_names(rows), |name: Seq<char>| summary_error(rows, name, start, today) is Some)
}

/// Whether `r` holds the summary of every habit of `rows` as of the day
/// `today`, or the error of the first habit whose summary cannot be made.
pub open spec fn is_habit_metrics_as_of(r: Result<Vec<DashboardMetrics>, DashboardError>, rows: Seq<RowView>, start: int, today: int) -> bool {
    let names = distinct_names(rows);
    let k = first_failing(rows, start, today);
    if k < names.len() {
        r matches Err(e) && summary_error(rows, names[k], start, today) == Some(e)
    } else {
        r matches Ok(v) && summarizes_all(v@, rows, start, today)
    }
}

/// Whether `r` holds the dashboard of `rows` as of the day `today`: the error
/// of the first habit whose summary cannot be made, else nothing where there
/// is no habit, and else the summary of every habit.
pub open spec fn is_dashboard_as_of(r: Result<Option<Vec<DashboardMetrics>>, DashboardError>, rows: Seq<RowView>, start: int, today: int) -> bool {
    let names = distinct_names(rows);
    let k = first_failing(rows, start, today);
    if k < names.len() {
        r matches Err(e) && summary_error(rows, names[k], start, today) == Some(e)
    } else if names.len() == 0 {
        r matches Ok(None)
    } else {
        r matches Ok(Some(v)) && summarizes_all(v@, rows, start, today)
    }
}

/// The summary of the habit `habit_name` as of `today`, with its weekly
/// average taken over the week that begins on `start`.
pub fn summary_metric_on(store: &MetricStore, habit_name: &str, start: Weekday, today: Date) -> (r: Result<
    DashboardMetrics,
    DashboardError,
>)
    requires
        store@.valid(),
    ensures
        r is Ok <==> can_summarize(store@.metrics, habit_name@, start.spec_index() as int, today@),
        r matches Ok(m) ==> summarizes(m, store@.metrics, habit_name@, start.spec_index() as int, today@),
        is_summary_as_of(r, store@.metrics, habit_name@, start.spec_index() as int, today@),
{
    let _ = today.days();
    let current_streak: i64 = match habit_streak_on(store, Some(habit_name), today) {
        Ok(n) => n,
        Err(_) => {
            return Err(DashboardError::DateOutOfRange);
        },
    };
    let longest_streak: i64 = get_longest_habit_streak(store, habit_name);
    let weekly_average: i32 = match weekly_avg_from(store, habit_name, start, today) {
        Ok(n) => n,
        Err(e) => {
            return Err(e);
        },
    };
    let monthly_total: u32 = match monthly_metric_total_on(store, habit_name, today) {
        Ok(n) => n,
        Err(e) => {
            return Err(e);
        },
    };
    let name = habit_name.to_owned();
    let (_, latest) = metric_usage(store, &name);
    let last_updated: Timestamp = match latest {
        Some(t) => t,
        None => {
            return Err(DashboardError::NoRecords);
        },
    };
    Ok(
        DashboardMetrics {
            name,
            current_streak,
            longest_streak,
            weekly_average,
            display_name: habit_name.to_owned(),
            last_updated,
            monthly_total,
            trend: Trend::Stable,
        },
    )
}

/// The summary of the habit `habit_name` as of today, by the local clock,
/// with its weekly average taken over the week that begins on `start`. The
/// result is that of some day of the calendar, the day that the clock gives:
/// the summary as of that day, or the error that keeps it from being made.
/// Where the clock gives no day the error is that of a day outside the
/// calendar. Where the store holds no record of the habit there is no
/// summary, whatever the clock says.
pub fn get_summary_metric(store: &MetricStore, habit_name: &str, start: Weekday) -> (r: Result<DashboardMetrics, DashboardError>)
    requires
        store@.valid(),
    ensures
        exists|day: int| day_in_range(day) && #[trigger] is_summary_as_of(r, store@.metrics, habit_name@, start.spec_index() as int, day),
        latest_update(store@.metrics, habit_name@) is None ==> r is Err,
        r is Ok ==> exists|day: int| #[trigger] summarizes(r->Ok_0, store@.metrics, habit_name@, start.spec_index() as int, day),
{
    let now = match today() {
        Some(d) => d,
        None => {
            let r = Err(DashboardError::DateOutOfRange);
            assert(is_summary_as_of(r, store@.metrics, habit_name@, start.spec_index() as int, MIN_DAY as int));
            return r;
        },
    };
    let r = summary_metric_on(store, habit_name, start, now);
    proof {
        assert(is_summary_as_of(r, store@.metrics, habit_name@, start.spec_index() as int, now@));
        if r is Ok {
            assert(summarizes(r->Ok_0, store@.metrics, habit_name@, start.spec_index() as int, now@));
        }
    }
    r
}

/// Whether `v` holds the summary of every habit of `rows` as of `today`, in
/// the order in which the habits first occur.
pub open spec fn summarizes_all(v: Seq<DashboardMetrics>, rows: Seq<RowView>, start: int, today: int) -> bool {
    &&& v.len() == distinct_names(rows).len()
    &&& forall|k: int| 0 <= k < v.len() ==> summarizes(#[trigger] v[k], rows, distinct_names(rows)[k], start, today)
}

/// The summary of every habit of the store as of `today`, in the order in
/// which the habits first occur, with the weekly averages taken over the week
/// that begins on `start`.
pub fn habit_metrics_on(store: &MetricStore, start: Weekday, today: Date) -> (r: Result<Vec<DashboardMetrics>, DashboardError>)
    requires
        store@.valid(),
    ensures
        r is Ok <==> forall|k: int|
            0 <= k < distinct_names(store@.metrics).len() ==> can_summarize(
                store@.metrics,
                #[trigger] distinct_names(store@.metrics)[k], start.spec_index() as int,
                today@,
            ),
        r matches Ok(v) ==> summarizes_all(v@, store@.metrics, start.spec_index() as int, today@),
        is_habit_metrics_as_of(r, store@.metrics, start.spec_index() as int, today@),
{
    let ghost rows = store@.metrics;
    let habits = get_all_habits(store);
    assert(texts_of(habits@).len() == habits@.len());
    let mut metrics_list: Vec<DashboardMetrics> = Vec::new();
    let mut k: usize = 0;
    while k < habits.len()
        invariant
            k <= habits.len(),
            store@.valid(),
            rows == store@.metrics,
            texts_of(habits@) == distinct_names(rows),
            metrics_list@.len() == k,
            forall|j: int| 0 <= j < k ==> summary_error(rows, #[trigger] distinct_names(rows)[j], start.spec_index() as int, today@) is None,
            forall|j: int| 0 <= j < k ==> can_summarize(rows, #[trigger] distinct_names(rows)[j], start.spec_index() as int, today@),
            forall|j: int| 0 <= j < k ==> summarizes(#[trigger] metrics_list@[j], rows, distinct_names(rows)[j], start.spec_index() as int, today@),
        decreases habits.len() - k,
    {
        assert(texts_of(habits@)[k as int] == habits@[k as int]@);
        match summary_metric_on(store, habits[k].as_str(), start, today) {
            Ok(m) => {
                metrics_list.push(m);
            },
            Err(e) => {
                assert(!can_summarize(rows, distinct_names(rows)[k as int], start.spec_index() as int, today@));
                proof {
                    let names = distinct_names(rows);
                    assert(summary_error(rows, names[k as int], start.spec_index() as int, today@) == Some(e));
                    lemma_first_index_is(
                        names,
                        |name: Seq<char>| summary_error(rows, name, start.spec_index() as int, today@) is Some,
                        k as int,
                    );
                }
                return Err(e);
            },
        }
        k += 1;
    }
    proof {
        let names = distinct_names(rows);
        lemma_first_index_is(
            names,
            |name: Seq<char>| summary_error(rows, name, start.spec_index() as int, today@) is Some,
            names.len() as int,
        );
    }
    Ok(metrics_list)
}

/// The summary of every habit of the store as of today, by the local clock,
/// with the weekly averages taken over the week that begins on `start`. The
/// result is that of some day of the calendar, the day that the clock gives:
/// the summary of every habit as of that day, in the order in which the
/// habits first occur, or the error of the first habit whose summary cannot
/// be made. Where the clock gives no day the error is that of a day outside
/// the calendar. Where the store holds no habit the result is the empty list,
/// whatever the clock says.
pub fn get_habit_metrics(store: &MetricStore, start: Weekday) -> (r: Result<Vec<DashboardMetrics>, DashboardError>)
    requires
        store@.valid(),
    ensures
        exists|day: int| day_in_range(day) && #[trigger] is_habit_metrics_as_of(r, store@.metrics, start.spec_index() as int, day),
        distinct_names(store@.metrics).len() == 0 ==> r is Ok && r->Ok_0@.len() == 0,
        r is Ok ==> exists|day: int| #[trigger] summarizes_all(r->Ok_0@, store@.metrics, start.spec_index() as int, day),
{
    let now = match today() {
        Some(d) => d,
        None => {
            let habits = get_all_habits(store);
            assert(texts_of(habits@).len() == habits@.len());
            let ghost names = distinct_names(store@.metrics);
            if habits.len() == 0 {
                let none: Vec<DashboardMetrics> = Vec::new();
                proof {
                    lemma_first_index_is(
                        names,
                        |name: Seq<char>| summary_error(store@.metrics, name, start.spec_index() as int, 0) is Some,
                        0,
                    );
                    assert(summarizes_all(none@, store@.metrics, start.spec_index() as int, 0));
                    assert(is_habit_metrics_as_of(
                        Ok::<Vec<DashboardMetrics>, DashboardError>(none),
                        store@.metrics,
                        start.spec_index() as int,
                        0,
                    ));
                }
                return Ok(none);
            }
            let r = Err(DashboardError::DateOutOfRange);
            proof {
                lemma_first_index_is(
                    names,
                    |name: Seq<char>| summary_error(store@.metrics, name, start.spec_index() as int, MIN_DAY as int) is Some,
                    0,
                );
                assert(is_habit_metrics_as_of(r, store@.metrics, start.spec_index() as int, MIN_DAY as int));
            }
            return r;
        },
    };
    let r = habit_metrics_on(store, start, now);
    proof {
        assert(is_habit_metrics_as_of(r, store@.metrics, start.spec_index() as int, now@));
        if distinct_names(store@.metrics).len() == 0 {
            lemma_first_index_is(
                distinct_names(store@.metrics),
                |name: Seq<char>| summary_error(store@.metrics, name, start.spec_index() as int, now@) is Some,
                0,
            );
        }
        if r is Ok {
            assert(summarizes_all(r->Ok_0@, store@.metrics, start.spec_index() as int, now@));
        }
    }
    r
}

/// The summary of every habit of the store as of today, by the local clock,
/// with the weekly averages taken over the week that begins on `start`;
/// `None` where it holds no habit, whatever the clock says. The result is that
/// of some day of the calendar, the day that the clock gives: the error of the
/// first habit whose summary cannot be made as of that day, and else the
/// summary of every habit.
pub fn get_dashboard_metrics(store: &MetricStore, start: Weekday) -> (r: Result<Option<Vec<DashboardMetrics>>, DashboardError>)
    requires
        store@.valid(),
    ensures
        exists|day: int| day_in_range(day) && #[trigger] is_dashboard_as_of(r, store@.metrics, start.spec_index() as int, day),
        distinct_names(store@.metrics).len() == 0 ==> r matches Ok(None),
        r matches Ok(None) ==> distinct_names(store@.metrics).len() == 0,
        r matches Ok(Some(v)) ==> v@.len() > 0,
        r matches Ok(Some(_)) ==> exists|day: int| #[trigger] summarizes_all(r->Ok_0->Some_0@, store@.metrics, start.spec_index() as int, day),
{
    let got = get_habit_metrics(store, start);
    let ghost day = choose|day: int| day_in_range(day) && #[trigger] is_habit_metrics_as_of(got, store@.metrics, start.spec_index() as int, day);
    let r = match got {
        Err(e) => Err(e),
        Ok(v) => if v.len() == 0 {
            Ok(None)
        } else {
            Ok(Some(v))
        },
    };
    proof {
        assert(is_habit_metrics_as_of(got, store@.metrics, start.spec_index() as int, day));
        if r matches Ok(Some(_)) {
            assert(summarizes_all(r->Ok_0->Some_0@, store@.metrics, start.spec_index() as int, day));
        }
        assert(is_dashboard_as_of(r, store@.metrics, start.spec_index() as int, day));
    }
    r
}

/// The longest streak of the habit `habit_name`; `None` where the store
/// holds no habit at all.
pub fn get_longest_streak(store: &MetricStore, habit_name: &str) -> (r: Option<i64>)
    requires
        store@.valid(),
    ensures
        r is None <==> distinct_names(store@.metrics).len() == 0,
        r matches Some(n) ==> n >= 0 && is_longest_run(store@.metrics, Some(habit_name@), n as nat),
{
    let habits = get_all_habits(store);
    assert(texts_of(habits@).len() == habits@.len());
    if habits.len() == 0 {
        return None;
    }
    Some(get_longest_habit_streak(store, habit_name))
}

/// Whether `r` is the current streak of `habit` as of the day `today`, for
/// the user interface: nothing where the store holds no habit at all, else
/// the error where `today` is the first date there is, and else the length of
/// the run that ends on the day before `today`.
pub open spec fn is_current_streak_as_of(r: Result<Option<i64>, StreakError>, rows: Seq<RowView>, habit: Seq<char>, today: int) -> bool {
    if distinct_names(rows).len() == 0 {
        r matches Ok(None)
    } else if today == MIN_DAY {
        r matches Err(StreakError::NoYesterday)
    } else {
        r matches Ok(Some(n)) && n == run_ending(rows, Some(habit), today - 1)
    }
}

/// The current streak of the habit `habit_name` as of today, by the local
/// clock; `None` where the store holds no habit at all, whatever the clock
/// says. The result is that of some day of the calendar, the day that the
/// clock gives: the length of the run that ends on the day before it, or the
/// error where that day is the first date there is.
pub fn get_current_streak(store: &MetricStore, habit_name: &str) -> (r: Result<Option<i64>, StreakError>)
    ensures
        exists|day: int| day_in_range(day) && #[trigger] is_current_streak_as_of(r, store@.metrics, habit_name@, day),
        distinct_names(store@.metrics).len() == 0 ==> r matches Ok(None),
        r matches Ok(Some(n)) ==> exists|day: int| n == #[trigger] run_ending(store@.metrics, Some(habit_name@), day),
        r matches Ok(None) ==> distinct_names(store@.metrics).len() == 0,
{
    let habits = get_all_habits(store);
    assert(texts_of(habits@).len() == habits@.len());
    if habits.len() == 0 {
        assert(is_current_streak_as_of(Ok::<Option<i64>, StreakError>(None), store@.metrics, habit_name@, 0));
        return Ok(None);
    }
    let found = get_habit_streak(store, habit_name);
    let ghost day = choose|day: int| day_in_range(day) && #[trigger] is_streak_as_of(found, store@.metrics, Some(habit_name@), day);
    let r = match found {
        Ok(n) => Ok(Some(n)),
        Err(e) => Err(e),
    };
    proof {
        assert(is_streak_as_of(found, store@.metrics, Some(habit_name@), day));
        assert(is_current_streak_as_of(r, store@.metrics, habit_name@, day));
    }
    r
}

/// The series of every habit for the month `month` of the year `year` and the
/// week on either side of it: from 7 days before the first day of the month
/// to 6 days after the first day of the next month.
pub fn get_current_streak_data(store: &MetricStore, year: i32, month: u32) -> (r: Result<Vec<HabitData>, SeriesError>)
    ensures
        r is Ok <==> (civil_day(year as int, month as int, 1) matches Some(first) && first - 7 >= MIN_DAY && (
        day_months_later(first, 1) matches Some(next) && next + 6 <= MAX_DAY)),
        r matches Ok(v) ==> habits_of(v@) == activity(
            store@.metrics,
            civil_day(year as int, month as int, 1)->0 - 7,
            day_months_later(civil_day(year as int, month as int, 1)->0, 1)->0 + 6,
        ),
{
    let first = match from_ymd_opt(year, month, 1) {
        Some(d) => d,
        None => {
            return Err(SeriesError::DateOutOfRange);
        },
    };
    get_month_range_data(first, store)
}

/// Answers a message from the user interface: the text
/// `Message received: ` and the message.
pub fn test_command(message: String) -> (r: String)
    ensures
        r@ == "Message received: "@ + message@,
{
    let head: String = "Message received: ".to_owned();
    head.concat(message.as_str())
}

} // verus!
