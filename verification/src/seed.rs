//! Sample data for development: a habit logged on every day of a span but
//! the days that are left out, with values drawn at random.

use crate::date::{clock_in_range, format_date, now, Date, Timestamp, DB_DATE_FORMAT, MIN_DAY};
use crate::store::{
    keys_distinct, lemma_upsert_replaces, Metric, MetricStore, MetricView, rows_of, RowView, same_text,
    upserted,
};
use crate::streaks::{logged, logs};
use vstd::prelude::*;
use vstd::string::StringExecFns;

verus! {

/// Why sample data could not be written.
#[derive(Clone, Copy, Debug, PartialEq, Eq, Structural)]
pub enum SeedError {
    /// A day of the span lies before the first date.
    InvalidDate,
}

/// A number from `low` to `high`, both included, drawn by
/// `rand::Rng::random_range` from the generator of the thread. Which number
/// comes is not said: it differs from call to call.
#[verifier::external_body]
fn random_in(low: u32, high: u32) -> (r: u32)
    requires
        low <= high,
    ensures
        low <= r <= high,
{
    rand::Rng::random_range(&mut rand::rng(), low..=high)
}

/// Whether the store holds a record.
pub fn is_db_populated(store: &MetricStore) -> (r: bool)
    ensures
        r == (store@.metrics.len() > 0),
{
    let rows = store.metrics();
    assert(rows_of(rows@).len() == rows@.len());
    rows.len() > 0
}

/// Whether the day `i` days back is left out: it is one of `skip_days`, or it
/// lies in one of `break_periods`, the ends included.
pub open spec fn left_out(i: int, skip_days: Seq<i32>, break_periods: Seq<(i32, i32)>) -> bool {
    ||| exists|k: int| 0 <= k < skip_days.len() && #[trigger] skip_days[k] == i
    ||| exists|k: int| 0 <= k < break_periods.len() && (#[trigger] break_periods[k]).0 <= i <= break_periods[k].1
}

/// Whether the day `i` days back is left out.
fn is_left_out(i: i32, skip_days: &Vec<i32>, break_periods: &Vec<(i32, i32)>) -> (r: bool)
    ensures
        r == left_out(i as int, skip_days@, break_periods@),
{
    let mut k: usize = 0;
    while k < skip_days.len()
        invariant
            k <= skip_days.len(),
            forall|j: int| 0 <= j < k ==> #[trigger] skip_days@[j] != i,
        decreases skip_days.len() - k,
    {
        if skip_days[k] == i {
            return true;
        }
        k += 1;
    }
    let mut b: usize = 0;
    while b < break_periods.len()
        invariant
            b <= break_periods.len(),
            forall|j: int| 0 <= j < skip_days@.len() ==> #[trigger] skip_days@[j] != i,
            forall|j: int| 0 <= j < b ==> !((#[trigger] break_periods@[j]).0 <= i <= break_periods@[j].1),
        decreases break_periods.len() - b,
    {
        if break_periods[b].0 <= i && i <= break_periods[b].1 {
            return true;
        }
        b += 1;
    }
    false
}

/// Whether every day from `from` to `to` days back that is not left out is
/// logged for the habit `name` in `rows`.
pub open spec fn seeded(
    rows: Seq<RowView>,
    name: Seq<char>,
    today: int,
    from: int,
    to: int,
    skip_days: Seq<i32>,
    break_periods: Seq<(i32, i32)>,
) -> bool {
    forall|i: int| from <= i < to && !left_out(i, skip_days, break_periods) ==> #[trigger] logged(rows, Some(name), today - i)
}

/// Whether one of the first `days` days back from `today` that is not left out
/// lies before the first date.
pub open spec fn reaches_back_too_far(days: int, today: int, skip_days: Seq<i32>, break_periods: Seq<(i32, i32)>) -> bool {
    exists|i: int| 0 <= i < days && !left_out(i, skip_days, break_periods) && today - i < MIN_DAY
}

/// Whether `r` and the records `after` are what seeding the habit `name` as of
/// the day `today` gives: the error where a day to be logged lies before the
/// first date, and else every day of the span that is not left out logged
/// for the habit.
pub open spec fn is_seeding_as_of(
    r: Result<(), SeedError>,
    after: Seq<RowView>,
    name: Seq<char>,
    days: int,
    skip_days: Seq<i32>,
    break_periods: Seq<(i32, i32)>,
    today: int,
) -> bool {
    if reaches_back_too_far(days, today, skip_days, break_periods) {
        r == Err::<(), SeedError>(SeedError::InvalidDate)
    } else {
        r is Ok && seeded(after, name, today, 0, days, skip_days, break_periods)
    }
}

/// Whether every day that `before` logs, for whatever habit, `after` logs too.
pub open spec fn keeps_logged(before: Seq<RowView>, after: Seq<RowView>) -> bool {
    forall|habit: Option<Seq<char>>, day: int| logged(before, habit, day) ==> #[trigger] logged(after, habit, day)
}

/// Logs the habit `name` on each of the `days` days up to `today` that is not
/// left out, in the file `journal/` and the date `.md`, with a value from
/// `low` to `high` drawn at random and the moment `at`.
fn seed_days(
    store: &mut MetricStore,
    name: &str,
    days: i32,
    today: Date,
    at: Timestamp,
    skip_days: &Vec<i32>,
    break_periods: &Vec<(i32, i32)>,
    low: u32,
    high: u32,
) -> (r: Result<(), SeedError>)
    requires
        old(store)@.valid(),
        1 <= low <= high,
    ensures
        final(store)@.valid(),
        keeps_logged(old(store)@.metrics, final(store)@.metrics),
        r is Err <==> exists|i: int| 0 <= i < days && !left_out(i, skip_days@, break_periods@) && today@ - i < MIN_DAY,
        r is Ok ==> seeded(final(store)@.metrics, name@, today@, 0, days as int, skip_days@, break_periods@),
        is_seeding_as_of(r, final(store)@.metrics, name@, days as int, skip_days@, break_periods@, today@),
{
    let ghost start = store@.metrics;
    let _ = today.days();
    let mut i: i32 = 0;
    while i < days
        invariant
            0 <= i,
            i <= days || days < 0,
            store@.valid(),
            1 <= low <= high,
            start == old(store)@.metrics,
            keeps_logged(start, store@.metrics),
            seeded(store@.metrics, name@, today@, 0, i as int, skip_days@, break_periods@),
            forall|j: int| 0 <= j < i && !left_out(j, skip_days@, break_periods@) ==> today@ - j >= MIN_DAY,
        decreases days - i,
    {
        if !is_left_out(i, skip_days, break_periods) {
            let value: u32 = random_in(low, high);
            let date = match today.checked_sub_days(i as u64) {
                Some(d) => d,
                None => {
                    return Err(SeedError::InvalidDate);
                },
            };
            let head: String = "journal/".to_owned();
            let file_path = head.concat(format_date(date, DB_DATE_FORMAT).as_str()).concat(".md");
            let metric = Metric { file_path, name: name.to_owned(), value, date };
            let ghost before = store@.metrics;
            let ghost m = metric@;
            store.upsert_metric(metric, at);
            proof {
                assert(store@.metrics == upserted(before, RowView { metric: m, updated_at: at }));
                lemma_written_logs(before, store@.metrics, m);
                assert forall|j: int| 0 <= j < i + 1 && !left_out(j, skip_days@, break_periods@) implies #[trigger] logged(
                    store@.metrics,
                    Some(name@),
                    today@ - j,
                ) by {
                    if j < i {
                        assert(logged(before, Some(name@), today@ - j));
                    }
                }
                assert forall|habit: Option<Seq<char>>, day: int| logged(start, habit, day) implies #[trigger] logged(
                    store@.metrics,
                    habit,
                    day,
                ) by {
                    assert(logged(before, habit, day));
                }
            }
        }
        i += 1;
    }
    Ok(())
}

/// After a metric with a value above 0 was written, its day is logged for its
/// habit, and every day that was logged is logged still.
proof fn lemma_written_logs(before: Seq<RowView>, after: Seq<RowView>, m: MetricView)
    requires
        keys_distinct(before),
        m.value > 0,
        exists|at: Timestamp| after == #[trigger] upserted(before, RowView { metric: m, updated_at: at }),
    ensures
        logged(after, Some(m.name), m.date),
        keeps_logged(before, after),
{
    let at = choose|at: Timestamp| after == #[trigger] upserted(before, RowView { metric: m, updated_at: at });
    let row = RowView { metric: m, updated_at: at };
    lemma_upsert_replaces(before, row);
    assert(after.contains(row));
    let k = choose|k: int| 0 <= k < after.len() && after[k] == row;
    assert(logs(after[k], Some(m.name), m.date));
    assert forall|habit: Option<Seq<char>>, day: int| logged(before, habit, day) implies #[trigger] logged(
        after,
        habit,
        day,
    ) by {
        let i = choose|i: int| 0 <= i < before.len() && logs(#[trigger] before[i], habit, day);
        let r = before[i];
        assert(before.contains(r));
        if r.metric.same_key(m) {
            assert(logs(after[k], habit, day));
        } else {
            assert(after.contains(r));
            let j = choose|j: int| 0 <= j < after.len() && after[j] == r;
            assert(logs(after[j], habit, day));
        }
    }
}

/// Logs the habit `name` on each of the `days` days up to `today` but those
/// that `skip_days` counts back to: minutes from 5 to 30 for `meditation`,
/// and a value from 1 to 3 for every other habit. The records carry the
/// moment `at`.
pub fn seed_sporadic_habit_on(
    store: &mut MetricStore,
    name: &str,
    days: i32,
    skip_days: Vec<i32>,
    today: Date,
    at: Timestamp,
) -> (r: Result<(), SeedError>)
    requires
        old(store)@.valid(),
    ensures
        final(store)@.valid(),
        keeps_logged(old(store)@.metrics, final(store)@.metrics),
        r is Err <==> exists|i: int| 0 <= i < days && !left_out(i, skip_days@, Seq::empty()) && today@ - i < MIN_DAY,
        r is Ok ==> seeded(final(store)@.metrics, name@, today@, 0, days as int, skip_days@, Seq::empty()),
        is_seeding_as_of(r, final(store)@.metrics, name@, days as int, skip_days@, Seq::empty(), today@),
{
    let none: Vec<(i32, i32)> = Vec::new();
    assert(none@ =~= Seq::<(i32, i32)>::empty());
    if same_text(name, "meditation") {
        seed_days(store, name, days, today, at, &skip_days, &none, 5, 30)
    } else {
        seed_days(store, name, days, today, at, &skip_days, &none, 1, 3)
    }
}

/// Logs the habit `name` on each of the `days` days up to `today` but those
/// that lie in one of `break_periods`, counted back from `today`: words from
/// 100 to 1000 for `journal_words`, and a value from 1 to 10 for every other
/// habit. The records carry the moment `at`.
pub fn seed_habit_with_breaks_on(
    store: &mut MetricStore,
    name: &str,
    days: i32,
    break_periods: Vec<(i32, i32)>,
    today: Date,
    at: Timestamp,
) -> (r: Result<(), SeedError>)
    requires
        old(store)@.valid(),
    ensures
        final(store)@.valid(),
        keeps_logged(old(store)@.metrics, final(store)@.metrics),
        r is Err <==> exists|i: int| 0 <= i < days && !left_out(i, Seq::empty(), break_periods@) && today@ - i < MIN_DAY,
        r is Ok ==> seeded(final(store)@.metrics, name@, today@, 0, days as int, Seq::empty(), break_periods@),
        is_seeding_as_of(r, final(store)@.metrics, name@, days as int, Seq::empty(), break_periods@, today@),
{
    let none: Vec<i32> = Vec::new();
    assert(none@ =~= Seq::<i32>::empty());
    if same_text(name, "journal_words") {
        seed_days(store, name, days, today, at, &none, &break_periods, 100, 1000)
    } else {
        seed_days(store, name, days, today, at, &none, &break_periods, 1, 10)
    }
}

/// Whether one of the first `days` days back is not left out.
pub open spec fn has_day_to_log(days: int, skip_days: Seq<i32>, break_periods: Seq<(i32, i32)>) -> bool {
    exists|i: int| 0 <= i < days && !left_out(i, skip_days, break_periods)
}

/// Whether `r` and the records `after` are what seeding the habit `name` as of
/// what the clock gave gives: that of the day, where it gave one; where it
/// gave none, the error where there is a day to log, and else success with
/// nothing to write.
pub open spec fn is_seeding_by_clock(
    r: Result<(), SeedError>,
    after: Seq<RowView>,
    name: Seq<char>,
    days: int,
    skip_days: Seq<i32>,
    break_periods: Seq<(i32, i32)>,
    clock: Option<int>,
) -> bool {
    match clock {
        Some(today) => is_seeding_as_of(r, after, name, days, skip_days, break_periods, today),
        None => if has_day_to_log(days, skip_days, break_periods) {
            r == Err::<(), SeedError>(SeedError::InvalidDate)
        } else {
            r is Ok
        },
    }
}

/// Whether one of the first `days` days back is not left out.
fn any_day_to_log(days: i32, skip_days: &Vec<i32>, break_periods: &Vec<(i32, i32)>) -> (r: bool)
    ensures
        r == has_day_to_log(days as int, skip_days@, break_periods@),
{
    let mut i: i32 = 0;
    while i < days
        invariant
            0 <= i,
            i <= days || days < 0,
            forall|j: int| 0 <= j < i ==> left_out(j, skip_days@, break_periods@),
        decreases days - i,
    {
        if !is_left_out(i, skip_days, break_periods) {
            return true;
        }
        i += 1;
    }
    false
}

/// [`seed_sporadic_habit_on`] as of the present moment, by the local clock.
/// The outcome is that of what the clock gives. Where it gives a day, a day of
/// the calendar, that is the error where a day to be logged lies before the
/// first date, and else every day of the span that is not left out logged
/// for the habit. Where it gives none, it is the error where there is a day
/// to log. Where every day of the span is left out, or the span is empty, the
/// seeding succeeds whatever the clock says.
pub fn seed_sporadic_habit(store: &mut MetricStore, name: &str, days: i32, skip_days: Vec<i32>) -> (r: Result<
    (),
    SeedError,
>)
    requires
        old(store)@.valid(),
    ensures
        final(store)@.valid(),
        keeps_logged(old(store)@.metrics, final(store)@.metrics),
        exists|clock: Option<int>|
            clock_in_range(clock) && #[trigger] is_seeding_by_clock(
                r,
                final(store)@.metrics,
                name@,
                days as int,
                skip_days@,
                Seq::empty(),
                clock,
            ),
        (forall|i: int| 0 <= i < days ==> left_out(i, skip_days@, Seq::empty())) ==> r is Ok,
        r is Ok ==> exists|day: int| seeded(final(store)@.metrics, name@, day, 0, days as int, skip_days@, Seq::empty()),
{
    let t = match now() {
        Some(t) => t,
        None => {
            let none: Vec<(i32, i32)> = Vec::new();
            assert(none@ =~= Seq::<(i32, i32)>::empty());
            let r = if any_day_to_log(days, &skip_days, &none) {
                Err(SeedError::InvalidDate)
            } else {
                Ok(())
            };
            proof {
                assert(is_seeding_by_clock(r, store@.metrics, name@, days as int, skip_days@, Seq::empty(), None));
                if r is Ok {
                    assert(seeded(store@.metrics, name@, 0, 0, days as int, skip_days@, Seq::empty()));
                }
            }
            return r;
        },
    };
    let _ = t.day.days();
    let ghost day = t.day@;
    let r = seed_sporadic_habit_on(store, name, days, skip_days, t.day, t);
    proof {
        assert(is_seeding_by_clock(r, store@.metrics, name@, days as int, skip_days@, Seq::empty(), Some(day)));
        if r is Ok {
            assert(seeded(store@.metrics, name@, day, 0, days as int, skip_days@, Seq::empty()));
        }
    }
    r
}

/// [`seed_habit_with_breaks_on`] as of the present moment, by the local
/// clock. The outcome is that of what the clock gives. Where it gives a day, a
/// day of the calendar, that is the error where a day to be logged lies
/// before the first date, and else every day of the span that is not left out
/// logged for the habit. Where it gives none, it is the error where there is
/// a day to log. Where every day of the span is left out, or the span is
/// empty, the seeding succeeds whatever the clock says.
pub fn seed_habit_with_breaks(store: &mut MetricStore, name: &str, days: i32, break_periods: Vec<(i32, i32)>) -> (r:
    Result<(), SeedError>)
    requires
        old(store)@.valid(),
    ensures
        final(store)@.valid(),
        keeps_logged(old(store)@.metrics, final(store)@.metrics),
        exists|clock: Option<int>|
            clock_in_range(clock) && #[trigger] is_seeding_by_clock(
                r,
                final(store)@.metrics,
                name@,
                days as int,
                Seq::empty(),
                break_periods@,
                clock,
            ),
        (forall|i: int| 0 <= i < days ==> left_out(i, Seq::empty(), break_periods@)) ==> r is Ok,
        r is Ok ==> exists|day: int|
            seeded(final(store)@.metrics, name@, day, 0, days as int, Seq::empty(), break_periods@),
{
    let t = match now() {
        Some(t) => t,
        None => {
            let none: Vec<i32> = Vec::new();
            assert(none@ =~= Seq::<i32>::empty());
            let r = if any_day_to_log(days, &none, &break_periods) {
                Err(SeedError::InvalidDate)
            } else {
                Ok(())
            };
            proof {
                assert(is_seeding_by_clock(r, store@.metrics, name@, days as int, Seq::empty(), break_periods@, None));
                if r is Ok {
                    assert(seeded(store@.metrics, name@, 0, 0, days as int, Seq::empty(), break_periods@));
                }
            }
            return r;
        },
    };
    let _ = t.day.days();
    let ghost day = t.day@;
    let r = seed_habit_with_breaks_on(store, name, days, break_periods, t.day, t);
    proof {
        assert(is_seeding_by_clock(r, store@.metrics, name@, days as int, Seq::empty(), break_periods@, Some(day)));
        if r is Ok {
            assert(seeded(store@.metrics, name@, day, 0, days as int, Seq::empty(), break_periods@));
        }
    }
    r
}

} // verus!
