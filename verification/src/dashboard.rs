//! The dashboard: the weekly average and the monthly total of a habit, the
//! series of the current and the previous week, and the summary of each habit.
//!
//! An average is taken over the records that are there: a day without a
//! record does not count as a 0. In a series such a day stands with the
//! value 0.

use crate::date::{
    civil_day, civil_month, civil_year, clock_in_range, day_in_range, format_date, formatted_day, from_ymd_opt, month_of, parse_weekday,
    parsed_weekday, today, weekday_index, weekday_of, year_of, Date, Weekday, DB_DATE_FORMAT, MAX_DAY,
    MIN_DAY,
};
use crate::heatmap::{last_day_of_month, month_last_day};
use crate::series::{
    points_of, value_for, value_on, DataPoint, DataPointView,
};
use crate::store::{rows_of, texts_of, MetricStore, RowView};
use vstd::prelude::*;

verus! {

/// Why a figure of the dashboard could not be computed.
#[derive(Clone, Copy, Debug, PartialEq, Eq, Structural)]
pub enum DashboardError {
    /// The text names no day of the week.
    BadWeekday,
    /// A day that the figure needs lies outside the calendar.
    DateOutOfRange,
    /// The total is more than a `u32` holds.
    TotalTooLarge,
    /// The store holds no record of the habit.
    NoRecords,
}

/// Whether the record `r` is of `habit` and of a day from `start` to `end`.
pub open spec fn in_window(r: RowView, habit: Seq<char>, start: int, end: int) -> bool {
    r.metric.name == habit && start <= r.metric.date <= end
}

/// The sum of the values of the records of `habit` from `start` to `end`.
pub open spec fn window_sum(rows: Seq<RowView>, habit: Seq<char>, start: int, end: int) -> nat
    decreases rows.len(),
{
    if rows.len() == 0 {
        0
    } else if in_window(rows.last(), habit, start, end) {
        window_sum(rows.drop_last(), habit, start, end) + rows.last().metric.value as nat
    } else {
        window_sum(rows.drop_last(), habit, start, end)
    }
}

/// The number of the records of `habit` from `start` to `end`.
pub open spec fn window_count(rows: Seq<RowView>, habit: Seq<char>, start: int, end: int) -> nat
    decreases rows.len(),
{
    if rows.len() == 0 {
        0
    } else if in_window(rows.last(), habit, start, end) {
        window_count(rows.drop_last(), habit, start, end) + 1
    } else {
        window_count(rows.drop_last(), habit, start, end)
    }
}

/// The mean of `count` values that sum to `sum`, rounded to the nearest whole
/// number, halves upwards; 0 where there is no value.
pub open spec fn rounded_mean(sum: nat, count: nat) -> nat {
    if count == 0 {
        0
    } else {
        (2 * sum + count) / (2 * count)
    }
}

/// `n` as an `i32`, or the largest `i32` where `n` is more.
pub open spec fn clamp_i32(n: nat) -> i32 {
    if n > i32::MAX {
        i32::MAX
    } else {
        n as i32
    }
}

/// The first day of the week that holds `day`, for weeks that begin on the
/// day of the week with the index `start`.
pub open spec fn week_first(day: int, start: int) -> int {
    day - (weekday_index(day) - start + 7) % 7
}

/// The sum and the number of the values of the records of `habit` from
/// `start` to `end`.
pub fn window_totals(store: &MetricStore, habit: &str, start: Date, end: Date) -> (r: (u128, usize))
    ensures
        r.0 == window_sum(store@.metrics, habit@, start@, end@),
        r.1 == window_count(store@.metrics, habit@, start@, end@),
        r.0 <= r.1 * u32::MAX,
{
    let rows = store.metrics();
    let ghost views = rows_of(rows@);
    let name = habit.to_owned();
    let first: i32 = start.days();
    let last: i32 = end.days();
    let mut sum: u128 = 0;
    let mut count: usize = 0;
    let mut i: usize = 0;
    while i < rows.len()
        invariant
            i <= rows.len(),
            views == rows_of(rows@),
            name@ == habit@,
            first == start@,
            last == end@,
            sum == window_sum(views.take(i as int), habit@, start@, end@),
            count == window_count(views.take(i as int), habit@, start@, end@),
            count <= i,
            sum <= count * u32::MAX,
        decreases rows.len() - i,
    {
        let r = &rows[i];
        proof {
            let next = views.take(i as int + 1);
            assert(next.drop_last() =~= views.take(i as int));
            assert(next.last() == r@);
        }
        let d: i32 = r.metric.date.days();
        if r.metric.name == name && first <= d && d <= last {
            assert((count + 1) * u32::MAX == count * u32::MAX + u32::MAX) by (nonlinear_arith);
            assert(count * u32::MAX <= usize::MAX * u32::MAX) by (nonlinear_arith)
                requires
                    count <= usize::MAX,
            ;
            sum = sum + r.metric.value as u128;
            count = count + 1;
        }
        i += 1;
    }
    assert(views.take(views.len() as int) =~= views);
    (sum, count)
}

/// The week that holds `day`, for weeks that begin on `start`: its first and
/// its last day. `None` where one of them lies outside the calendar.
pub fn week_of(day: Date, start: Weekday) -> (r: Option<(Date, Date)>)
    ensures
        r is Some <==> MIN_DAY <= week_first(day@, start.spec_index() as int) && week_first(
            day@,
            start.spec_index() as int,
        ) + 6 <= MAX_DAY,
        r matches Some(w) ==> w.0@ == week_first(day@, start.spec_index() as int) && w.1@ == w.0@ + 6,
{
    let here: u8 = weekday_of(day);
    let begin: u8 = start.index();
    let back: u64 = ((here + 7 - begin) % 7) as u64;
    let first = match day.checked_sub_days(back) {
        Some(d) => d,
        None => {
            return None;
        },
    };
    match first.checked_add_days(6) {
        Some(last) => Some((first, last)),
        None => None,
    }
}

/// Whether `r` is the average of `habit` over the week of the day `today`,
/// for weeks that begin on the day of the week with the index `start`: the
/// rounded mean of the values of its records in that week, or the error that
/// the week does not lie within the calendar.
pub open spec fn is_weekly_avg_as_of(
    r: Result<i32, DashboardError>,
    rows: Seq<RowView>,
    habit: Seq<char>,
    start: int,
    today: int,
) -> bool {
    let first = week_first(today, start);
    if MIN_DAY <= first && first + 6 <= MAX_DAY {
        r == Ok::<i32, DashboardError>(
            clamp_i32(rounded_mean(window_sum(rows, habit, first, first + 6), window_count(rows, habit, first, first + 6))),
        )
    } else {
        r == Err::<i32, DashboardError>(DashboardError::DateOutOfRange)
    }
}

/// Whether `r` is the total of `habit` over the calendar month of the day
/// `today`: the sum of the values of its records in that month, or the error
/// that the month does not lie within the calendar or that the sum is more
/// than a `u32` holds.
pub open spec fn is_monthly_total_as_of(r: Result<u32, DashboardError>, rows: Seq<RowView>, habit: Seq<char>, today: int) -> bool {
    if month_first(today) is None || month_last(today) is None {
        r == Err::<u32, DashboardError>(DashboardError::DateOutOfRange)
    } else if window_sum(rows, habit, month_first(today)->0, month_last(today)->0) > u32::MAX {
        r == Err::<u32, DashboardError>(DashboardError::TotalTooLarge)
    } else {
        r == Ok::<u32, DashboardError>(window_sum(rows, habit, month_first(today)->0, month_last(today)->0) as u32)
    }
}

/// The average of `habit` over the week of `today`, for weeks that begin on
/// `start`: the mean of the values of its records in that week, rounded to
/// the nearest whole number; 0 where the week holds no record of it.
pub fn weekly_avg_from(store: &MetricStore, habit_name: &str, start: Weekday, today: Date) -> (r: Result<
    i32,
    DashboardError,
>)
    ensures
        r is Ok <==> MIN_DAY <= week_first(today@, start.spec_index() as int) && week_first(
            today@,
            start.spec_index() as int,
        ) + 6 <= MAX_DAY,
        r matches Ok(avg) ==> avg == clamp_i32(
            rounded_mean(
                window_sum(
                    store@.metrics,
                    habit_name@,
                    week_first(today@, start.spec_index() as int),
                    week_first(today@, start.spec_index() as int) + 6,
                ),
                window_count(
                    store@.metrics,
                    habit_name@,
                    week_first(today@, start.spec_index() as int),
                    week_first(today@, start.spec_index() as int) + 6,
                ),
            ),
        ),
        is_weekly_avg_as_of(r, store@.metrics, habit_name@, start.spec_index() as int, today@),
{
    let (first, last) = match week_of(today, start) {
        Some(w) => w,
        None => {
            return Err(DashboardError::DateOutOfRange);
        },
    };
    let (sum, count) = window_totals(store, habit_name, first, last);
    if count == 0 {
        return Ok(0);
    }
    assert(count * u32::MAX <= usize::MAX * u32::MAX) by (nonlinear_arith)
        requires
            count <= usize::MAX,
    ;
    let mean: u128 = (2 * sum + count as u128) / (2 * count as u128);
    if mean > i32::MAX as u128 {
        Ok(i32::MAX)
    } else {
        Ok(mean as i32)
    }
}

/// The weekly average of `habit` as of `today`, for weeks that begin on
/// Sunday: the mean of the values of its records in the week of `today`,
/// rounded to the nearest whole number; 0 where the week holds no record of it.
pub fn weekly_metric_avg_on(store: &MetricStore, habit_name: &str, today: Date) -> (r: Result<i32, DashboardError>)
    ensures
        r is Ok <==> MIN_DAY <= week_first(today@, 6) && week_first(today@, 6) + 6 <= MAX_DAY,
        r matches Ok(avg) ==> avg == clamp_i32(
            rounded_mean(
                window_sum(store@.metrics, habit_name@, week_first(today@, 6), week_first(today@, 6) + 6),
                window_count(store@.metrics, habit_name@, week_first(today@, 6), week_first(today@, 6) + 6),
            ),
        ),
        is_weekly_avg_as_of(r, store@.metrics, habit_name@, 6, today@),
{
    weekly_avg_from(store, habit_name, Weekday::Sun, today)
}

/// The weekly average of the habit `habit_name` in the week of today, by the
/// local clock, for weeks that begin on `week_starts_on`. The result is the
/// average as of some day of the calendar, the day that the clock gives: the
/// rounded mean of the records that there are of the week of that day (a day
/// without a record does not count), 0 where there is none, or the error
/// where that week does not lie within the calendar. Where the clock gives no
/// day the error is the same.
pub fn get_weekly_metric_avg_from(store: &MetricStore, habit_name: &str, week_starts_on: Weekday) -> (r: Result<
    i32,
    DashboardError,
>)
    ensures
        exists|day: int|
            day_in_range(day) && #[trigger] is_weekly_avg_as_of(
                r,
                store@.metrics,
                habit_name@,
                week_starts_on.spec_index() as int,
                day,
            ),
{
    let now = match today() {
        Some(d) => d,
        None => {
            let r = Err(DashboardError::DateOutOfRange);
            proof {
                // The week of the first date, or that of the last, does not
                // lie within the calendar, whatever day the week begins on.
                let start = week_starts_on.spec_index() as int;
                if start == 3 {
                    assert(is_weekly_avg_as_of(r, store@.metrics, habit_name@, start, MAX_DAY as int));
                } else {
                    assert(is_weekly_avg_as_of(r, store@.metrics, habit_name@, start, MIN_DAY as int));
                }
            }
            return r;
        },
    };
    let r = weekly_avg_from(store, habit_name, week_starts_on, now);
    proof {
        assert(is_weekly_avg_as_of(r, store@.metrics, habit_name@, week_starts_on.spec_index() as int, now@));
    }
    r
}

/// The weekly average of the habit `habit_name` in the week of today, by the
/// local clock, for weeks that begin on Sunday: [`get_weekly_metric_avg_from`]
/// with Sunday. The result is the average as of some day of the calendar, the
/// day that the clock gives: the rounded mean of the records of the week of
/// that day, or the error where that week does not lie within the calendar.
pub fn get_weekly_metric_avg(store: &MetricStore, habit_name: &str) -> (r: Result<i32, DashboardError>)
    ensures
        exists|day: int| day_in_range(day) && #[trigger] is_weekly_avg_as_of(r, store@.metrics, habit_name@, 6, day),
        r matches Ok(avg) ==> exists|start: int|
            avg == clamp_i32(
                rounded_mean(
                    #[trigger] window_sum(store@.metrics, habit_name@, start, start + 6),
                    window_count(store@.metrics, habit_name@, start, start + 6),
                ),
            ),
{
    let r = get_weekly_metric_avg_from(store, habit_name, Weekday::Sun);
    proof {
        let day = choose|day: int| day_in_range(day) && #[trigger] is_weekly_avg_as_of(r, store@.metrics, habit_name@, 6, day);
        assert(is_weekly_avg_as_of(r, store@.metrics, habit_name@, 6, day));
        if r is Ok {
            let start = week_first(day, 6);
            assert(r->Ok_0 == clamp_i32(
                rounded_mean(
                    window_sum(store@.metrics, habit_name@, start, start + 6),
                    window_count(store@.metrics, habit_name@, start, start + 6),
                ),
            ));
        }
    }
    r
}

/// The first day of the month of `day`.
pub open spec fn month_first(day: int) -> Option<int> {
    civil_day(civil_year(day), civil_month(day), 1)
}

/// The last day of the month of `day`.
pub open spec fn month_last(day: int) -> Option<int> {
    month_last_day(civil_year(day), civil_month(day))
}

/// The monthly total of `habit` as of `today`: the sum of the values of its
/// records in the calendar month of `today`.
pub fn monthly_metric_total_on(store: &MetricStore, habit_name: &str, today: Date) -> (r: Result<u32, DashboardError>)
    ensures
        month_first(today@) is None || month_last(today@) is None ==> r == Err::<u32, DashboardError>(
            DashboardError::DateOutOfRange,
        ),
        month_first(today@) is Some && month_last(today@) is Some ==> {
            let total = window_sum(store@.metrics, habit_name@, month_first(today@)->0, month_last(today@)->0);
            if total > u32::MAX {
                r == Err::<u32, DashboardError>(DashboardError::TotalTooLarge)
            } else {
                r == Ok::<u32, DashboardError>(total as u32)
            }
        },
        is_monthly_total_as_of(r, store@.metrics, habit_name@, today@),
{
    let year: i32 = year_of(today);
    let month: u32 = month_of(today);
    let start = match from_ymd_opt(year, month, 1) {
        Some(d) => d,
        None => {
            return Err(DashboardError::DateOutOfRange);
        },
    };
    let end = match last_day_of_month(year, month) {
        Some(d) => d,
        None => {
            return Err(DashboardError::DateOutOfRange);
        },
    };
    let (sum, _) = window_totals(store, habit_name, start, end);
    if sum > u32::MAX as u128 {
        Err(DashboardError::TotalTooLarge)
    } else {
        Ok(sum as u32)
    }
}

/// Whether `r` is the total of `habit` over the calendar month of what the
/// clock gave: that of the day, where it gave one, and the error that the
/// month does not lie within the calendar, where it gave none.
pub open spec fn is_monthly_total_by_clock(
    r: Result<u32, DashboardError>,
    rows: Seq<RowView>,
    habit: Seq<char>,
    clock: Option<int>,
) -> bool {
    match clock {
        Some(today) => is_monthly_total_as_of(r, rows, habit, today),
        None => r == Err::<u32, DashboardError>(DashboardError::DateOutOfRange),
    }
}

/// The monthly total of the habit `habit_name` in the month of today, by the
/// local clock. The result is the total as of what the clock gives. Where it
/// gives a day, a day of the calendar, that is the sum of the records of the
/// month of that day, or the error where that month does not lie within the
/// calendar or the sum is more than a `u32` holds. Where it gives none, it is
/// the error that the month does not lie within the calendar.
pub fn get_monthly_metric_total(store: &MetricStore, habit_name: &str) -> (r: Result<u32, DashboardError>)
    ensures
        exists|clock: Option<int>|
            clock_in_range(clock) && #[trigger] is_monthly_total_by_clock(r, store@.metrics, habit_name@, clock),
        r matches Ok(total) ==> exists|start: int, end: int|
            total == #[trigger] window_sum(store@.metrics, habit_name@, start, end),
{
    let now = match today() {
        Some(d) => d,
        None => {
            let r = Err(DashboardError::DateOutOfRange);
            assert(is_monthly_total_by_clock(r, store@.metrics, habit_name@, None));
            return r;
        },
    };
    let r = monthly_metric_total_on(store, habit_name, now);
    proof {
        assert(is_monthly_total_by_clock(r, store@.metrics, habit_name@, Some(now@)));
        if r is Ok {
            assert(r->Ok_0 == window_sum(store@.metrics, habit_name@, month_first(now@)->0, month_last(now@)->0));
        }
    }
    r
}

/// The series of the current and of the previous week.
#[derive(Debug)]
pub struct WeeklyMetrics {
    pub prev_week: Vec<DataPoint>,
    pub current_week: Vec<DataPoint>,
}

/// The entry at `i` of a week's series for `habit` that begins on `start`: the
/// value of the day where it is no later than `end`, and 0 after `end`.
pub open spec fn week_point(rows: Seq<RowView>, habit: Seq<char>, start: int, end: int, i: int) -> DataPointView {
    DataPointView {
        value: if start + i <= end {
            value_on(rows, habit, start + i) as i64
        } else {
            0
        },
        date: formatted_day(start + i, DB_DATE_FORMAT@),
    }
}

/// The number of entries of a series of `num_of_days` days from `start` on:
/// `num_of_days`, or fewer where the calendar ends before.
pub open spec fn week_len(start: int, num_of_days: nat) -> nat {
    if start + num_of_days - 1 <= MAX_DAY {
        num_of_days
    } else {
        (MAX_DAY - start + 1) as nat
    }
}

/// The series of `habit` for the `num_of_days` days from `start` on, with the
/// values of the days up to `end` and 0 for a day after it.
pub fn get_weekly_data(store: &MetricStore, habit_name: &str, start: Date, end: Date, num_of_days: usize) -> (r:
    Vec<DataPoint>)
    ensures
        points_of(r@) == Seq::new(
            week_len(start@, num_of_days as nat),
            |i: int| week_point(store@.metrics, habit_name@, start@, end@, i),
        ),
{
    let ghost rows = store@.metrics;
    let first: i32 = start.days();
    let last: i32 = end.days();
    let mut out: Vec<DataPoint> = Vec::new();
    let mut i: usize = 0;
    assert(points_of(out@) =~= Seq::new(0nat, |k: int| week_point(rows, habit_name@, start@, end@, k)));
    while i < num_of_days && (i as i64) <= MAX_DAY as i64 - first as i64
        invariant
            rows == store@.metrics,
            first == start@,
            last == end@,
            MIN_DAY <= first <= MAX_DAY,
            i <= num_of_days,
            i <= MAX_DAY - first + 1,
            points_of(out@) == Seq::new(i as nat, |k: int| week_point(rows, habit_name@, start@, end@, k)),
        decreases num_of_days - i,
    {
        let ghost before = points_of(out@);
        let day: i32 = (first as i64 + i as i64) as i32;
        match Date::from_days(day) {
            Some(d) => {
                let value: i64 = if day <= last {
                    value_for(store, habit_name, d) as i64
                } else {
                    0
                };
                out.push(DataPoint { value, date: format_date(d, DB_DATE_FORMAT) });
                assert(points_of(out@) =~= before.push(week_point(rows, habit_name@, start@, end@, i as int)));
                assert(before.push(week_point(rows, habit_name@, start@, end@, i as int)) =~= Seq::new(
                    (i + 1) as nat,
                    |k: int| week_point(rows, habit_name@, start@, end@, k),
                ));
            },
            None => {},
        }
        i += 1;
    }
    out
}

/// The series of `habit` for the current and the previous week as of
/// `today`, for weeks that begin on `start`: the seven days of the week
/// before, and the days of this week up to `today`.
pub fn weekly_stats_on(store: &MetricStore, habit_name: &str, start: Weekday, today: Date) -> (r: Result<
    WeeklyMetrics,
    DashboardError,
>)
    ensures
        is_weekly_stats_as_of(r, store@.metrics, habit_name@, start.spec_index() as int, today@),
        r is Ok <==> today@ - 7 >= MIN_DAY && week_first(today@ - 7, start.spec_index() as int) >= MIN_DAY,
        r matches Ok(w) ==> {
            let first = week_first(today@, start.spec_index() as int);
            let prev = week_first(today@ - 7, start.spec_index() as int);
            &&& points_of(w.prev_week@) == Seq::new(
                7,
                |i: int| week_point(store@.metrics, habit_name@, prev, prev + 6, i),
            )
            &&& points_of(w.current_week@) == Seq::new(
                (today@ - first + 1) as nat,
                |i: int| week_point(store@.metrics, habit_name@, first, today@, i),
            )
        },
{
    let now: i32 = today.days();
    let here: u8 = weekday_of(today);
    let begin: u8 = start.index();
    let back: u64 = ((here + 7 - begin) % 7) as u64;
    let before = match today.checked_sub_days(7) {
        Some(d) => d,
        None => {
            return Err(DashboardError::DateOutOfRange);
        },
    };
    let (prev_first, prev_last) = match week_of(before, start) {
        Some(w) => w,
        None => {
            proof {
                let p = week_first(today@ - 7, start.spec_index() as int);
                assert(p <= today@ - 7);
            }
            return Err(DashboardError::DateOutOfRange);
        },
    };
    let first = match today.checked_sub_days(back) {
        Some(d) => d,
        None => {
            proof {
                let p = week_first(today@ - 7, start.spec_index() as int);
                assert(p >= today@ - 7 - 6);
            }
            return Err(DashboardError::DateOutOfRange);
        },
    };
    let prev_week = get_weekly_data(store, habit_name, prev_first, prev_last, 7);
    let days: usize = (back + 1) as usize;
    let current_week = get_weekly_data(store, habit_name, first, today, days);
    assert(points_of(prev_week@).len() == prev_week@.len());
    assert(points_of(current_week@).len() == current_week@.len());
    Ok(WeeklyMetrics { prev_week, current_week })
}

/// Whether `w` holds the series of `habit` for the current and the previous
/// week as of `today`, for weeks that begin on the day of the week with the
/// index `start`.
pub open spec fn is_weekly_stats(w: WeeklyMetrics, rows: Seq<RowView>, habit: Seq<char>, start: int, today: int) -> bool {
    let first = week_first(today, start);
    let prev = week_first(today - 7, start);
    &&& points_of(w.prev_week@) == Seq::new(7, |i: int| week_point(rows, habit, prev, prev + 6, i))
    &&& points_of(w.current_week@) == Seq::new(
        (today - first + 1) as nat,
        |i: int| week_point(rows, habit, first, today, i),
    )
    &&& w.prev_week@.len() == 7
    &&& 1 <= w.current_week@.len() <= 7
}

/// Whether `r` holds the series of `habit` for the current and the previous
/// week as of the day `today`, for weeks that begin on the day of the week
/// with the index `start`, or the error that the week before does not lie
/// within the calendar.
pub open spec fn is_weekly_stats_as_of(
    r: Result<WeeklyMetrics, DashboardError>,
    rows: Seq<RowView>,
    habit: Seq<char>,
    start: int,
    today: int,
) -> bool {
    if today - 7 >= MIN_DAY && week_first(today - 7, start) >= MIN_DAY {
        r matches Ok(w) && is_weekly_stats(w, rows, habit, start, today)
    } else {
        r matches Err(DashboardError::DateOutOfRange)
    }
}

/// The series of the habit `habit_name` for the current and the previous
/// week as of today, by the local clock, for weeks that begin on the day that
/// `week_starts_on` names. A text that names no day of the week gives the
/// error `BadWeekday`, and no other text does. For a text that names a day,
/// the result is that of some day of the calendar, the day that the clock
/// gives: the two series as of that day, or the error where the week before
/// it does not lie within the calendar. Where the clock gives no day the
/// error is the same.
pub fn weekly_metric_stats(store: &MetricStore, habit_name: &str, week_starts_on: &str) -> (r: Result<
    WeeklyMetrics,
    DashboardError,
>)
    ensures
        r matches Err(DashboardError::BadWeekday) <==> parsed_weekday(week_starts_on@) is None,
        parsed_weekday(week_starts_on@) is Some ==> exists|start: int, day: int|
            parsed_weekday(week_starts_on@) == Some(start) && day_in_range(day) && #[trigger] is_weekly_stats_as_of(
                r,
                store@.metrics,
                habit_name@,
                start,
                day,
            ),
        r is Ok ==> exists|start: int, day: int|
            parsed_weekday(week_starts_on@) == Some(start) && #[trigger] is_weekly_stats(
                r->Ok_0,
                store@.metrics,
                habit_name@,
                start,
                day,
            ),
{
    let start = match parse_weekday(week_starts_on) {
        Ok(index) => match Weekday::from_index(index) {
            Some(w) => w,
            None => {
                return Err(DashboardError::BadWeekday);
            },
        },
        Err(_) => {
            return Err(DashboardError::BadWeekday);
        },
    };
    let now = match today() {
        Some(d) => d,
        None => {
            let r = Err(DashboardError::DateOutOfRange);
            proof {
                let index = start.spec_index() as int;
                assert(parsed_weekday(week_starts_on@) == Some(index));
                assert(is_weekly_stats_as_of(r, store@.metrics, habit_name@, index, MIN_DAY as int));
            }
            return r;
        },
    };
    let r = weekly_stats_on(store, habit_name, start, now);
    proof {
        let index = start.spec_index() as int;
        assert(parsed_weekday(week_starts_on@) == Some(index));
        assert(is_weekly_stats_as_of(r, store@.metrics, habit_name@, index, now@));
        if r is Ok {
            assert(is_weekly_stats(r->Ok_0, store@.metrics, habit_name@, index, now@));
        }
    }
    r
}

/// The series of the habit `habit_name` for the current and the previous
/// week as of today, by the local clock, for weeks that begin on the day that
/// `week_starts_on` names. A text that names no day of the week gives the
/// error `BadWeekday`, and no other text does. For a text that names a day,
/// the result is that of some day of the calendar, the day that the clock
/// gives: the two series as of that day, or the error where the week before
/// it does not lie within the calendar. Where the clock gives no day the
/// error is the same.
pub fn get_weekly_metric_stats(store: &MetricStore, habit_name: &str, week_starts_on: &str) -> (r: Result<
    WeeklyMetrics,
    DashboardError,
>)
    ensures
        r matches Err(DashboardError::BadWeekday) <==> parsed_weekday(week_starts_on@) is None,
        parsed_weekday(week_starts_on@) is Some ==> exists|start: int, day: int|
            parsed_weekday(week_starts_on@) == Some(start) && day_in_range(day) && #[trigger] is_weekly_stats_as_of(
                r,
                store@.metrics,
                habit_name@,
                start,
                day,
            ),
        r is Ok ==> exists|start: int, day: int|
            parsed_weekday(week_starts_on@) == Some(start) && #[trigger] is_weekly_stats(
                r->Ok_0,
                store@.metrics,
                habit_name@,
                start,
                day,
            ),
{
    weekly_metric_stats(store, habit_name, week_starts_on)
}

/// How the name of a day of the week is written on its button.
pub const DAY_LABEL_FORMAT: &'static str = "%a";

/// The names of the days of the week of the seven days up to `today`.
pub open spec fn day_labels(today: int) -> Seq<Seq<char>> {
    Seq::new(7, |i: int| formatted_day(today - 6 + i, DAY_LABEL_FORMAT@))
}

/// Whether `r` holds the names of the days of the week of the seven days up
/// to the day `today`, the earliest first, or nothing where one of these days
/// lies before the first date.
pub open spec fn is_labels_as_of(r: Option<Vec<String>>, today: int) -> bool {
    if today - 6 >= MIN_DAY {
        r matches Some(v) && texts_of(v@) == day_labels(today)
    } else {
        r is None
    }
}

/// The names of the days of the week of the seven days up to `today`, the
/// earliest first; `None` where one of them lies before the first date.
pub fn days_up_to(today: Date) -> (r: Option<Vec<String>>)
    ensures
        r is Some <==> today@ - 6 >= MIN_DAY,
        r matches Some(v) ==> texts_of(v@) == day_labels(today@),
        is_labels_as_of(r, today@),
{
    let first = match today.checked_sub_days(6) {
        Some(d) => d,
        None => {
            return None;
        },
    };
    let _ = today.days();
    let mut past_week: Vec<String> = Vec::new();
    let mut i: u64 = 0;
    while i < 7
        invariant
            i <= 7,
            first@ == today@ - 6,
            MIN_DAY <= today@ <= MAX_DAY,
            past_week@.len() == i,
            forall|k: int| 0 <= k < i ==> (#[trigger] past_week@[k])@ == formatted_day(today@ - 6 + k, DAY_LABEL_FORMAT@),
        decreases 7 - i,
    {
        match first.checked_add_days(i) {
            Some(d) => {
                past_week.push(format_date(d, DAY_LABEL_FORMAT));
            },
            None => {},
        }
        i += 1;
    }
    assert(texts_of(past_week@) =~= day_labels(today@));
    Some(past_week)
}

/// The names of the days of the week of the seven days up to today, by the
/// local clock. The result is that of some day of the calendar, the day that
/// the clock gives: the seven names up to that day, or nothing where one of
/// the seven days lies before the first date. Where the clock gives no day
/// the result is nothing, too.
pub fn get_days() -> (r: Option<Vec<String>>)
    ensures
        exists|day: int| day_in_range(day) && #[trigger] is_labels_as_of(r, day),
        r matches Some(v) ==> v@.len() == 7 && exists|day: int| texts_of(v@) == #[trigger] day_labels(day),
{
    let now = match today() {
        Some(d) => d,
        None => {
            assert(is_labels_as_of(None, MIN_DAY as int));
            return None;
        },
    };
    let r = days_up_to(now);
    proof {
        assert(is_labels_as_of(r, now@));
        if r is Some {
            assert(texts_of(r->0@).len() == r->0@.len());
            assert(texts_of(r->0@) == day_labels(now@));
        }
    }
    r
}

} // verus!
