//! Streaks: runs of consecutive calendar days on which a habit was logged.
//!
//! A day is logged for a habit where the store holds a record of that habit
//! and day with a value above 0. The run that ends on a day is the number of
//! consecutive logged days up to and including it. The current streak is the
//! run that ends yesterday; the longest streak is the longest run there is.

use crate::date::{day_in_range, today, Date, MAX_DAY, MIN_DAY};
use crate::store::{dates_in_range, MetricStore, rows_of, RowView, text_of};
use vstd::prelude::*;

verus! {

/// Why a streak could not be computed.
#[derive(Clone, Copy, Debug, PartialEq, Eq, Structural)]
pub enum StreakError {
    /// Today is the first date there is, so there is no yesterday.
    NoYesterday,
}

/// Whether the record `r` logs the day `day` for `habit`; for every habit
/// where `habit` is `None`.
pub open spec fn logs(r: RowView, habit: Option<Seq<char>>, day: int) -> bool {
    &&& habit matches Some(name) ==> r.metric.name == name
    &&& r.metric.value > 0
    &&& r.metric.date == day
}

/// Whether `rows` logs the day `day` for `habit`.
pub open spec fn logged(rows: Seq<RowView>, habit: Option<Seq<char>>, day: int) -> bool {
    exists|i: int| 0 <= i < rows.len() && logs(#[trigger] rows[i], habit, day)
}

/// The number of consecutive logged days that end on `day`.
pub open spec fn run_ending(rows: Seq<RowView>, habit: Option<Seq<char>>, day: int) -> nat
    decreases day - MIN_DAY + 1,
{
    if day >= MIN_DAY && logged(rows, habit, day) {
        1 + run_ending(rows, habit, day - 1)
    } else {
        0
    }
}

/// Whether `k` is the length of the longest run of consecutive logged days:
/// no run is longer, and where `k` is above 0 a run of that length is there.
pub open spec fn is_longest_run(rows: Seq<RowView>, habit: Option<Seq<char>>, k: nat) -> bool {
    &&& forall|day: int| #[trigger] run_ending(rows, habit, day) <= k
    &&& k > 0 ==> exists|day: int| #[trigger] run_ending(rows, habit, day) == k
}

/// The text of an optional name.
pub open spec fn habit_of(name: Option<&str>) -> Option<Seq<char>> {
    match name {
        Some(n) => Some(n@),
        None => None,
    }
}

/// A run that ends on `day` begins no earlier than the first date.
pub proof fn lemma_run_bounded(rows: Seq<RowView>, habit: Option<Seq<char>>, day: int)
    requires
        day >= MIN_DAY - 1,
    ensures
        run_ending(rows, habit, day) <= day - MIN_DAY + 1,
    decreases day - MIN_DAY + 1,
{
    if day >= MIN_DAY && logged(rows, habit, day) {
        lemma_run_bounded(rows, habit, day - 1);
    }
}

/// A run of length `k` that ends on `day` is made of the `k` days up to
/// `day`, each of them logged, and the day before them is not logged or does
/// not exist.
pub proof fn lemma_run_days(rows: Seq<RowView>, habit: Option<Seq<char>>, day: int)
    ensures
        forall|d: int| day - run_ending(rows, habit, day) < d <= day ==> logged(rows, habit, d) && d >= MIN_DAY,
        !(day - run_ending(rows, habit, day) >= MIN_DAY && logged(
            rows,
            habit,
            day - run_ending(rows, habit, day),
        )),
    decreases day - MIN_DAY + 1,
{
    if day >= MIN_DAY && logged(rows, habit, day) {
        lemma_run_days(rows, habit, day - 1);
    }
}

/// Whether the store logs the day `day` for `habit`.
pub fn is_logged(store: &MetricStore, habit: Option<&str>, day: Date) -> (r: bool)
    ensures
        r == logged(store@.metrics, habit_of(habit), day@),
{
    let rows = store.metrics();
    let ghost views = rows_of(rows@);
    let wanted: Option<String> = match habit {
        Some(n) => Some(n.to_owned()),
        None => None,
    };
    let target: i32 = day.days();
    let mut i: usize = 0;
    while i < rows.len()
        invariant
            i <= rows.len(),
            views == rows_of(rows@),
            views == store@.metrics,
            target == day@,
            text_of(wanted) == habit_of(habit),
            forall|j: int| 0 <= j < i ==> !logs(#[trigger] views[j], habit_of(habit), day@),
        decreases rows.len() - i,
    {
        let r = &rows[i];
        assert(views[i as int] == r@);
        let named: bool = match &wanted {
            Some(n) => r.metric.name == *n,
            None => true,
        };
        if named && r.metric.value > 0 && r.metric.date.days() == target {
            assert(logs(views[i as int], habit_of(habit), day@));
            return true;
        }
        i += 1;
    }
    false
}

/// Whether `r` is the current streak of `habit` as of the day `today`: the
/// length of the run that ends on the day before `today`, or the error that
/// there is no yesterday where `today` is the first date there is.
pub open spec fn is_streak_as_of(r: Result<i64, StreakError>, rows: Seq<RowView>, habit: Option<Seq<char>>, today: int) -> bool {
    if today == MIN_DAY {
        r == Err::<i64, StreakError>(StreakError::NoYesterday)
    } else {
        r matches Ok(n) && n == run_ending(rows, habit, today - 1)
    }
}

/// The current streak of `habit` as of `today`: the run that ends on the day
/// before `today`. A record of `today` itself adds nothing to it.
pub fn habit_streak_on(store: &MetricStore, habit: Option<&str>, today: Date) -> (r: Result<i64, StreakError>)
    ensures
        r is Err <==> today@ == MIN_DAY,
        r matches Ok(n) ==> n == run_ending(store@.metrics, habit_of(habit), today@ - 1),
        is_streak_as_of(r, store@.metrics, habit_of(habit), today@),
{
    let _ = today.days();
    let yesterday: Date = match today.pred_opt() {
        Some(d) => d,
        None => {
            return Err(StreakError::NoYesterday);
        },
    };
    let ghost rows = store@.metrics;
    let ghost h = habit_of(habit);
    let mut current: Date = yesterday;
    let mut streak: i64 = 0;
    let mut more: bool = true;
    let _ = current.days();
    while more && is_logged(store, habit, current)
        invariant
            rows == store@.metrics,
            h == habit_of(habit),
            MIN_DAY <= current@ <= yesterday@ <= MAX_DAY,
            more ==> streak == yesterday@ - current@,
            more ==> run_ending(rows, h, yesterday@) == streak + run_ending(rows, h, current@),
            !more ==> run_ending(rows, h, yesterday@) == streak,
            0 <= streak <= yesterday@ - MIN_DAY + 1,
        decreases (if more { 1int } else { 0int }), current@ - MIN_DAY,
    {
        streak += 1;
        match current.pred_opt() {
            Some(d) => {
                current = d;
            },
            None => {
                assert(run_ending(rows, h, current@ - 1) == 0);
                more = false;
            },
        }
    }
    Ok(streak)
}

/// The current streak of the habit `name`: the run that ends yesterday, by
/// the local clock. The result is the streak as of some day of the calendar,
/// the day that the clock gives: the length of the run that ends on the day
/// before it, or the error where that day is the first date there is. Where
/// the clock gives no day there is no yesterday either, and the error is the
/// same.
pub fn get_habit_streak(store: &MetricStore, name: &str) -> (r: Result<i64, StreakError>)
    ensures
        exists|day: int| day_in_range(day) && #[trigger] is_streak_as_of(r, store@.metrics, Some(name@), day),
        r matches Ok(n) ==> exists|day: int| n == #[trigger] run_ending(store@.metrics, Some(name@), day),
{
    let now = match today() {
        Some(d) => d,
        None => {
            let r = Err(StreakError::NoYesterday);
            assert(is_streak_as_of(r, store@.metrics, Some(name@), MIN_DAY as int));
            return r;
        },
    };
    let r = habit_streak_on(store, Some(name), now);
    proof {
        assert(is_streak_as_of(r, store@.metrics, Some(name@), now@));
        if r is Ok {
            assert(r->Ok_0 == run_ending(store@.metrics, Some(name@), now@ - 1));
        }
    }
    r
}

/// Whether `v` is strictly increasing.
pub open spec fn increasing(v: Seq<i32>) -> bool {
    forall|i: int, j: int| 0 <= i < j < v.len() ==> v[i] < v[j]
}

/// Puts `x` into the strictly increasing `v`, unless it is there already.
fn insert_day(v: &mut Vec<i32>, x: i32)
    requires
        increasing(old(v)@),
    ensures
        increasing(final(v)@),
        forall|y: i32| #[trigger] final(v)@.contains(y) <==> (old(v)@.contains(y) || y == x),
{
    let ghost before = v@;
    let mut i: usize = 0;
    while i < v.len() && v[i] < x
        invariant
            i <= v.len(),
            v@ == before,
            forall|j: int| 0 <= j < i ==> before[j] < x,
        decreases v.len() - i,
    {
        i += 1;
    }
    if i < v.len() && v[i] == x {
        assert(before.contains(x));
        return ;
    }
    v.insert(i, x);
    proof {
        let after = v@;
        assert(after == before.insert(i as int, x));
        assert forall|a: int, b: int| 0 <= a < b < after.len() implies after[a] < after[b] by {
            if a < i && b > i {
                assert(after[a] == before[a]);
                assert(after[b] == before[b - 1]);
            } else if a > i {
                assert(after[a] == before[a - 1]);
                assert(after[b] == before[b - 1]);
            }
        }
        assert forall|y: i32| #[trigger] after.contains(y) <==> (before.contains(y) || y == x) by {
            if after.contains(y) {
                let k = choose|k: int| 0 <= k < after.len() && after[k] == y;
                if k < i {
                    assert(before[k] == y);
                } else if k > i {
                    assert(before[k - 1] == y);
                }
            }
            if before.contains(y) {
                let k = choose|k: int| 0 <= k < before.len() && before[k] == y;
                if k < i {
                    assert(after[k] == y);
                } else {
                    assert(after[k + 1] == y);
                }
            }
            if y == x {
                assert(after[i as int] == y);
            }
        }
    }
}

/// The days that the store logs for `habit`, each once, in ascending order.
pub fn logged_days(store: &MetricStore, habit: Option<&str>) -> (r: Vec<i32>)
    requires
        store@.valid(),
    ensures
        increasing(r@),
        forall|k: int| 0 <= k < r@.len() ==> MIN_DAY <= #[trigger] r@[k] <= MAX_DAY,
        forall|day: int| logged(store@.metrics, habit_of(habit), day) <==> MIN_DAY <= day <= MAX_DAY && r@.contains(
            day as i32,
        ),
{
    let rows = store.metrics();
    let ghost views = rows_of(rows@);
    let ghost h = habit_of(habit);
    let wanted: Option<String> = match habit {
        Some(n) => Some(n.to_owned()),
        None => None,
    };
    let mut days: Vec<i32> = Vec::new();
    let mut i: usize = 0;
    while i < rows.len()
        invariant
            i <= rows.len(),
            views == rows_of(rows@),
            views == store@.metrics,
            dates_in_range(views),
            h == habit_of(habit),
            text_of(wanted) == h,
            increasing(days@),
            forall|k: int| 0 <= k < days@.len() ==> MIN_DAY <= #[trigger] days@[k] <= MAX_DAY,
            forall|day: int| logged(views.take(i as int), h, day) <==> MIN_DAY <= day <= MAX_DAY && days@.contains(
                day as i32,
            ),
        decreases rows.len() - i,
    {
        let r = &rows[i];
        let ghost done = views.take(i as int);
        let ghost next = views.take(i as int + 1);
        let ghost before = days@;
        assert(views[i as int] == r@);
        let named: bool = match &wanted {
            Some(n) => r.metric.name == *n,
            None => true,
        };
        let d: i32 = r.metric.date.days();
        let take: bool = named && r.metric.value > 0;
        if take {
            insert_day(&mut days, d);
        }
        proof {
            assert forall|k: int| 0 <= k < days@.len() implies MIN_DAY <= #[trigger] days@[k] <= MAX_DAY by {
                assert(days@.contains(days@[k]));
                if before.contains(days@[k]) {
                    let q = choose|q: int| 0 <= q < before.len() && before[q] == days@[k];
                }
            }
            assert forall|day: int| logged(next, h, day) <==> MIN_DAY <= day <= MAX_DAY && days@.contains(
                day as i32,
            ) by {
                if logged(next, h, day) {
                    let k = choose|k: int| 0 <= k < next.len() && logs(#[trigger] next[k], h, day);
                    if k < i {
                        assert(done[k] == next[k]);
                        assert(logged(done, h, day));
                    } else {
                        assert(next[k] == views[i as int]);
                    }
                }
                if logged(done, h, day) {
                    let k = choose|k: int| 0 <= k < done.len() && logs(#[trigger] done[k], h, day);
                    assert(next[k] == done[k]);
                }
                if take && day == d {
                    assert(logs(next[i as int], h, day));
                }
                if MIN_DAY <= day <= MAX_DAY && days@.contains(day as i32) {
                    if before.contains(day as i32) {
                        assert(logged(done, h, day));
                    } else {
                        assert(take && day == d);
                    }
                }
            }
        }
        i += 1;
    }
    assert(views.take(views.len() as int) =~= views);
    days
}

/// The length of the longest run in `days`, the days that `rows` logs for
/// `habit`, each once, in ascending order.
fn longest_run(days: &Vec<i32>, Ghost(rows): Ghost<Seq<RowView>>, Ghost(habit): Ghost<Option<Seq<char>>>) -> (r: i64)
    requires
        increasing(days@),
        forall|k: int| 0 <= k < days@.len() ==> MIN_DAY <= #[trigger] days@[k] <= MAX_DAY,
        forall|day: int| logged(rows, habit, day) <==> MIN_DAY <= day <= MAX_DAY && days@.contains(day as i32),
    ensures
        r >= 0,
        is_longest_run(rows, habit, r as nat),
{
    if days.len() == 0 {
        assert forall|day: int| #[trigger] run_ending(rows, habit, day) <= 0 by {
            if logged(rows, habit, day) {
                assert(days@.contains(day as i32));
            }
        }
        return 0;
    }
    let mut longest: i64 = 1;
    let mut current: i64 = 1;
    proof {
        let first = days@[0];
        assert(days@.contains(first));
        assert(logged(rows, habit, first as int));
        if logged(rows, habit, first - 1) {
            assert(days@.contains((first - 1) as i32));
            let q = choose|q: int| 0 <= q < days@.len() && days@[q] == (first - 1) as i32;
            assert(q == 0 || days@[0] < days@[q]);
        }
        assert(run_ending(rows, habit, first - 1) == 0);
        assert(run_ending(rows, habit, first as int) == 1);
    }
    let mut i: usize = 1;
    while i < days.len()
        invariant
            1 <= i <= days.len(),
            increasing(days@),
            forall|k: int| 0 <= k < days@.len() ==> MIN_DAY <= #[trigger] days@[k] <= MAX_DAY,
            forall|day: int| logged(rows, habit, day) <==> MIN_DAY <= day <= MAX_DAY && days@.contains(day as i32),
            current == run_ending(rows, habit, days@[i - 1] as int),
            1 <= current <= longest <= MAX_DAY - MIN_DAY + 1,
            forall|k: int| 0 <= k < i ==> run_ending(rows, habit, #[trigger] days@[k] as int) <= longest,
            exists|k: int| 0 <= k < i && run_ending(rows, habit, #[trigger] days@[k] as int) == longest,
        decreases days.len() - i,
    {
        let prev: i32 = days[i - 1];
        let here: i32 = days[i];
        proof {
            assert(days@.contains(here));
            assert(days@.contains(prev));
            assert(logged(rows, habit, here as int));
            assert(logged(rows, habit, prev as int));
            lemma_run_bounded(rows, habit, here as int);
            if !(here == prev + 1) {
                if logged(rows, habit, here - 1) {
                    assert(days@.contains((here - 1) as i32));
                    let q = choose|q: int| 0 <= q < days@.len() && days@[q] == (here - 1) as i32;
                    if q < i {
                        assert(q == i - 1 || days@[q] < days@[i - 1]);
                    } else {
                        assert(q == i || days@[i as int] < days@[q]);
                    }
                }
                assert(run_ending(rows, habit, here - 1) == 0);
            }
            let k0 = choose|k: int| 0 <= k < i && run_ending(rows, habit, #[trigger] days@[k] as int) == longest;
            assert(run_ending(rows, habit, days@[k0] as int) == longest);
        }
        if here == prev + 1 {
            current += 1;
            if current > longest {
                longest = current;
            }
        } else {
            current = 1;
        }
        assert(run_ending(rows, habit, days@[i as int] as int) == current);
        i += 1;
    }
    proof {
        assert forall|day: int| #[trigger] run_ending(rows, habit, day) <= longest by {
            if logged(rows, habit, day) {
                assert(days@.contains(day as i32));
                let q = choose|q: int| 0 <= q < days@.len() && days@[q] == day as i32;
                assert(run_ending(rows, habit, days@[q] as int) <= longest);
            }
        }
        let k = choose|k: int| 0 <= k < days@.len() && run_ending(rows, habit, #[trigger] days@[k] as int) == longest;
        assert(run_ending(rows, habit, days@[k] as int) == longest);
    }
    longest
}

/// The longest streak of `habit`, or of all habits together where `habit` is
/// `None`: the length of the longest run of consecutive logged days.
pub fn longest_streak(store: &MetricStore, habit: Option<&str>) -> (r: i64)
    requires
        store@.valid(),
    ensures
        r >= 0,
        is_longest_run(store@.metrics, habit_of(habit), r as nat),
{
    let days = logged_days(store, habit);
    longest_run(&days, Ghost(store@.metrics), Ghost(habit_of(habit)))
}

/// The longest streak of the habit `name`: 0 where no day is logged, 1 where
/// no two logged days are consecutive.
pub fn get_longest_habit_streak(store: &MetricStore, name: &str) -> (r: i64)
    requires
        store@.valid(),
    ensures
        r >= 0,
        is_longest_run(store@.metrics, Some(name@), r as nat),
{
    longest_streak(store, Some(name))
}

} // verus!
