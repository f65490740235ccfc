//! Dense series: one entry for every calendar day of a span, with the value
//! that the store holds for a habit on that day, or 0 where it holds none.
//!
//! Where the store holds several records of one habit and day (read from
//! several files), the one written last stands for the day.

use crate::date::{
    checked_add_months, checked_sub_months, clock_in_range, day_months_earlier, day_months_later, format_date,
    formatted_day, today, Date, DB_DATE_FORMAT, MAX_DAY, MIN_DAY,
};
use crate::store::{rows_of, texts_of, MetricStore, RowView};
use vstd::prelude::*;

verus! {

/// The value of a habit on one day.
#[derive(Debug)]
pub struct DataPoint {
    pub value: i64,
    pub date: String,
}

/// The series of one habit.
#[derive(Debug)]
pub struct HabitData {
    pub habit_name: String,
    pub data: Vec<DataPoint>,
}

/// What a [`DataPoint`] holds.
pub struct DataPointView {
    pub value: i64,
    pub date: Seq<char>,
}

/// What a [`HabitData`] holds.
pub struct HabitDataView {
    pub habit_name: Seq<char>,
    pub data: Seq<DataPointView>,
}

impl View for DataPoint {
    type V = DataPointView;

    open spec fn view(&self) -> DataPointView {
        DataPointView { value: self.value, date: self.date@ }
    }
}

/// The views of the points of `v`.
pub open spec fn points_of(v: Seq<DataPoint>) -> Seq<DataPointView> {
    Seq::new(v.len(), |i: int| v[i]@)
}

impl View for HabitData {
    type V = HabitDataView;

    open spec fn view(&self) -> HabitDataView {
        HabitDataView { habit_name: self.habit_name@, data: points_of(self.data@) }
    }
}

/// Why a series could not be built.
#[derive(Clone, Copy, Debug, PartialEq, Eq, Structural)]
pub enum SeriesError {
    /// A day of the span lies outside the calendar.
    DateOutOfRange,
}

/// The value that `rows` holds for `habit` on `day`: that of the last record
/// of that habit and day, or 0 where there is none.
pub open spec fn value_on(rows: Seq<RowView>, habit: Seq<char>, day: int) -> u32
    decreases rows.len(),
{
    if rows.len() == 0 {
        0
    } else if rows.last().metric.name == habit && rows.last().metric.date == day {
        rows.last().metric.value
    } else {
        value_on(rows.drop_last(), habit, day)
    }
}

/// The entry of a series for `habit` on `day`.
pub open spec fn point_on(rows: Seq<RowView>, habit: Seq<char>, day: int) -> DataPointView {
    DataPointView { value: value_on(rows, habit, day) as i64, date: formatted_day(day, DB_DATE_FORMAT@) }
}

/// The series for `habit` of the `count` days from `start` on.
pub open spec fn series_from(rows: Seq<RowView>, habit: Seq<char>, start: int, count: nat) -> Seq<DataPointView> {
    Seq::new(count, |i: int| point_on(rows, habit, start + i))
}

/// The number of days from `start` to `end`, both included; 0 where `end` is
/// before `start`.
pub open spec fn span_len(start: int, end: int) -> nat {
    if end >= start {
        (end - start + 1) as nat
    } else {
        0
    }
}

/// The names of the records of `rows`, each once, in the order in which they
/// first occur.
pub open spec fn distinct_names(rows: Seq<RowView>) -> Seq<Seq<char>>
    decreases rows.len(),
{
    if rows.len() == 0 {
        Seq::empty()
    } else {
        let init = distinct_names(rows.drop_last());
        if init.contains(rows.last().metric.name) {
            init
        } else {
            init.push(rows.last().metric.name)
        }
    }
}

/// The value that the store holds for `habit` on `day`.
pub fn value_for(store: &MetricStore, habit: &str, day: Date) -> (r: u32)
    ensures
        r == value_on(store@.metrics, habit@, day@),
{
    let rows = store.metrics();
    let ghost views = rows_of(rows@);
    let name = habit.to_owned();
    let target: i32 = day.days();
    let mut value: u32 = 0;
    let mut i: usize = 0;
    while i < rows.len()
        invariant
            i <= rows.len(),
            views == rows_of(rows@),
            name@ == habit@,
            target == day@,
            value == value_on(views.take(i as int), habit@, day@),
        decreases rows.len() - i,
    {
        let r = &rows[i];
        proof {
            let next = views.take(i as int + 1);
            assert(next.drop_last() =~= views.take(i as int));
            assert(next.last() == r@);
        }
        if r.metric.name == name && r.metric.date.days() == target {
            value = r.metric.value;
        }
        i += 1;
    }
    assert(views.take(views.len() as int) =~= views);
    value
}

/// The series for `habit` of every day from `start` to `end`, both included,
/// in order. It is empty where `end` is before `start`.
pub fn dense_series(store: &MetricStore, habit: &str, start: Date, end: Date) -> (r: Vec<DataPoint>)
    ensures
        points_of(r@) == series_from(store@.metrics, habit@, start@, span_len(start@, end@)),
{
    let ghost rows = store@.metrics;
    let first: i32 = start.days();
    let last: i32 = end.days();
    let mut out: Vec<DataPoint> = Vec::new();
    if last < first {
        assert(points_of(out@) =~= series_from(rows, habit@, start@, 0));
        return out;
    }
    let mut day: i32 = first;
    let mut more: bool = true;
    while more
        invariant
            rows == store@.metrics,
            first == start@,
            last == end@,
            MIN_DAY <= first <= day <= last <= MAX_DAY,
            more ==> points_of(out@) == series_from(rows, habit@, start@, (day - first) as nat),
            !more ==> points_of(out@) == series_from(rows, habit@, start@, span_len(start@, end@)),
        decreases (if more { 1int } else { 0int }), last - day,
    {
        let ghost before = points_of(out@);
        match Date::from_days(day) {
            Some(d) => {
                let value: i64 = value_for(store, habit, d) as i64;
                out.push(DataPoint { value, date: format_date(d, DB_DATE_FORMAT) });
                assert(points_of(out@) =~= before.push(point_on(rows, habit@, day as int)));
                assert(before.push(point_on(rows, habit@, day as int)) =~= series_from(
                    rows,
                    habit@,
                    start@,
                    (day - first + 1) as nat,
                ));
            },
            None => {},
        }
        if day < last {
            day += 1;
        } else {
            more = false;
        }
    }
    out
}

/// Whether `names` holds `name`.
pub fn holds_text(names: &Vec<String>, name: &String) -> (r: bool)
    ensures
        r == texts_of(names@).contains(name@),
{
    let ghost texts = texts_of(names@);
    let mut i: usize = 0;
    while i < names.len()
        invariant
            i <= names.len(),
            texts == texts_of(names@),
            forall|j: int| 0 <= j < i ==> #[trigger] texts[j] != name@,
        decreases names.len() - i,
    {
        assert(texts[i as int] == names@[i as int]@);
        if names[i] == *name {
            return true;
        }
        i += 1;
    }
    false
}

/// The habits of the store: the names of its records, each once, in the order
/// in which they first occur.
pub fn get_all_habits(store: &MetricStore) -> (r: Vec<String>)
    ensures
        texts_of(r@) == distinct_names(store@.metrics),
{
    let rows = store.metrics();
    let ghost views = rows_of(rows@);
    let mut names: Vec<String> = Vec::new();
    let mut i: usize = 0;
    assert(texts_of(names@) =~= Seq::<Seq<char>>::empty());
    while i < rows.len()
        invariant
            i <= rows.len(),
            views == rows_of(rows@),
            texts_of(names@) == distinct_names(views.take(i as int)),
        decreases rows.len() - i,
    {
        let r = &rows[i];
        let ghost before = texts_of(names@);
        proof {
            let next = views.take(i as int + 1);
            assert(next.drop_last() =~= views.take(i as int));
            assert(next.last() == r@);
        }
        if !holds_text(&names, &r.metric.name) {
            names.push(r.metric.name.clone());
            assert(texts_of(names@) =~= before.push(r@.metric.name));
        }
        i += 1;
    }
    assert(views.take(views.len() as int) =~= views);
    names
}

/// The series of every habit of the store for the days from `start` to
/// `end`, both included.
pub open spec fn activity(rows: Seq<RowView>, start: int, end: int) -> Seq<HabitDataView> {
    Seq::new(
        distinct_names(rows).len(),
        |k: int|
            HabitDataView {
                habit_name: distinct_names(rows)[k],
                data: series_from(rows, distinct_names(rows)[k], start, span_len(start, end)),
            },
    )
}

/// The views of the series of `v`.
pub open spec fn habits_of(v: Seq<HabitData>) -> Seq<HabitDataView> {
    Seq::new(v.len(), |i: int| v[i]@)
}

/// The series of every habit of the store for the days from `start_date` to
/// `end_date`, both included: one [`HabitData`] for each habit, in the order
/// of [`get_all_habits`], each with one entry for each day.
pub fn get_acitivity_data(store: &MetricStore, start_date: Date, end_date: Date) -> (r: Vec<HabitData>)
    ensures
        habits_of(r@) == activity(store@.metrics, start_date@, end_date@),
{
    let ghost rows = store@.metrics;
    let habits = get_all_habits(store);
    let mut out: Vec<HabitData> = Vec::new();
    let mut k: usize = 0;
    while k < habits.len()
        invariant
            k <= habits.len(),
            rows == store@.metrics,
            texts_of(habits@) == distinct_names(rows),
            out@.len() == k,
            forall|j: int| 0 <= j < k ==> (#[trigger] out@[j])@ == activity(rows, start_date@, end_date@)[j],
        decreases habits.len() - k,
    {
        let name = habits[k].clone();
        assert(texts_of(habits@)[k as int] == habits@[k as int]@);
        let data = dense_series(store, name.as_str(), start_date, end_date);
        out.push(HabitData { habit_name: name, data });
        k += 1;
    }
    assert(habits_of(out@) =~= activity(rows, start_date@, end_date@));
    out
}

/// Whether `r` is the series of every habit for the month up to the day
/// `today`: the error where there is no date one month before `today`, else
/// nothing where the store holds no habit, and else the series of every
/// habit from the date one month before `today` to `today`.
pub open spec fn is_recent_activity_as_of(r: Result<Option<Vec<HabitData>>, SeriesError>, rows: Seq<RowView>, today: int) -> bool {
    match day_months_earlier(today, 1) {
        None => r matches Err(SeriesError::DateOutOfRange),
        Some(start) => if distinct_names(rows).len() == 0 {
            r matches Ok(None)
        } else {
            r matches Ok(Some(v)) && habits_of(v@) == activity(rows, start, today)
        },
    }
}

/// The series of every habit for the month up to `today`: from the date one
/// month before `today` to `today`. `None` where the store holds no habit.
pub fn recent_activity_on(store: &MetricStore, today: Date) -> (r: Result<Option<Vec<HabitData>>, SeriesError>)
    ensures
        is_recent_activity_as_of(r, store@.metrics, today@),
        r is Err <==> day_months_earlier(today@, 1) is None,
        r matches Ok(found) ==> {
            let start = day_months_earlier(today@, 1)->0;
            match found {
                Some(v) => habits_of(v@) == activity(store@.metrics, start, today@) && v@.len() > 0,
                None => distinct_names(store@.metrics).len() == 0,
            }
        },
{
    let start = match checked_sub_months(today, 1) {
        Some(d) => d,
        None => {
            return Err(SeriesError::DateOutOfRange);
        },
    };
    let data = get_acitivity_data(store, start, today);
    assert(habits_of(data@).len() == data@.len());
    if data.len() == 0 {
        Ok(None)
    } else {
        Ok(Some(data))
    }
}

/// Whether `r` is the series of every habit for the month up to what the
/// clock gave: that of the day, where it gave one, and the error that there
/// is no date one month before, where it gave none.
pub open spec fn is_recent_activity_by_clock(
    r: Result<Option<Vec<HabitData>>, SeriesError>,
    rows: Seq<RowView>,
    clock: Option<int>,
) -> bool {
    match clock {
        Some(today) => is_recent_activity_as_of(r, rows, today),
        None => r matches Err(SeriesError::DateOutOfRange),
    }
}

/// The series of every habit for the month up to today, by the local clock.
/// The result is that of what the clock gives. Where it gives a day, a day of
/// the calendar, that is the error where there is no date one month before
/// that day, else nothing where the store holds no habit, and else the series
/// of every habit from the date one month before that day to that day. Where
/// it gives none, it is the same error.
pub fn get_recent_activity(store: &MetricStore) -> (r: Result<Option<Vec<HabitData>>, SeriesError>)
    ensures
        exists|clock: Option<int>| clock_in_range(clock) && #[trigger] is_recent_activity_by_clock(r, store@.metrics, clock),
        r matches Ok(Some(v)) ==> exists|start: int, end: int| habits_of(v@) == #[trigger] activity(store@.metrics, start, end),
        r matches Ok(None) ==> distinct_names(store@.metrics).len() == 0,
{
    let now = match today() {
        Some(d) => d,
        None => {
            let r = Err(SeriesError::DateOutOfRange);
            assert(is_recent_activity_by_clock(r, store@.metrics, None));
            return r;
        },
    };
    let r = recent_activity_on(store, now);
    proof {
        assert(is_recent_activity_by_clock(r, store@.metrics, Some(now@)));
        if r matches Ok(Some(_)) {
            assert(habits_of(r->Ok_0->Some_0@) == activity(store@.metrics, day_months_earlier(now@, 1)->0, now@));
        }
    }
    r
}

/// The series of every habit for the month that begins on `date` and the
/// week on either side of it: from 7 days before `date` to 6 days after the
/// date one month after `date`.
pub fn get_month_range_data(date: Date, store: &MetricStore) -> (r: Result<Vec<HabitData>, SeriesError>)
    ensures
        r is Ok <==> date@ - 7 >= MIN_DAY && (day_months_later(date@, 1) matches Some(next) && next + 6 <= MAX_DAY),
        r matches Ok(v) ==> habits_of(v@) == activity(
            store@.metrics,
            date@ - 7,
            day_months_later(date@, 1)->0 + 6,
        ),
{
    let start = match date.checked_sub_days(7) {
        Some(d) => d,
        None => {
            return Err(SeriesError::DateOutOfRange);
        },
    };
    let next = match checked_add_months(date, 1) {
        Some(d) => d,
        None => {
            return Err(SeriesError::DateOutOfRange);
        },
    };
    let end = match next.checked_add_days(6) {
        Some(d) => d,
        None => {
            return Err(SeriesError::DateOutOfRange);
        },
    };
    Ok(get_acitivity_data(store, start, end))
}

/// The trend of `habit` over the last `days` days as of `today`: one entry
/// for every day from `days` days before `today` to `today`, in order, so
/// `days + 1` entries whatever the store holds.
pub fn trend_series(store: &MetricStore, habit: &str, today: Date, days: u32) -> (r: Result<Vec<DataPoint>, SeriesError>)
    ensures
        r is Ok <==> today@ - days >= MIN_DAY,
        r matches Ok(v) ==> {
            &&& v@.len() == days + 1
            &&& points_of(v@) == series_from(store@.metrics, habit@, today@ - days, (days + 1) as nat)
        },
{
    let _ = today.days();
    let start = match today.checked_sub_days(days as u64) {
        Some(d) => d,
        None => {
            return Err(SeriesError::DateOutOfRange);
        },
    };
    let v = dense_series(store, habit, start, today);
    assert(points_of(v@).len() == v@.len());
    Ok(v)
}

/// The largest value of `series`; 0 where it is empty.
pub open spec fn max_value(series: Seq<DataPointView>) -> i64
    decreases series.len(),
{
    if series.len() == 0 {
        0
    } else if series.last().value > max_value(series.drop_last()) {
        series.last().value
    } else {
        max_value(series.drop_last())
    }
}

/// The intensity of `value` in a series whose largest value is `max`: 0 for
/// no value, else the quarter of `max` that `value` falls in, from 1 to 4.
pub open spec fn level_of(value: i64, max: i64) -> u8 {
    if value <= 0 || max <= 0 {
        0
    } else if value >= max {
        4
    } else {
        ((4 * value + max - 1) / (max as int)) as u8
    }
}

/// The largest value of a series is no smaller than any of its values.
pub proof fn lemma_max_value(series: Seq<DataPointView>, i: int)
    requires
        0 <= i < series.len(),
    ensures
        series[i].value <= max_value(series),
        max_value(series) >= 0,
    decreases series.len(),
{
    if i < series.len() - 1 {
        lemma_max_value(series.drop_last(), i);
    } else if series.len() > 1 {
        lemma_max_value(series.drop_last(), 0);
    }
}

/// The intensity of each entry of `series`, the largest value of the series
/// counting as the full intensity 4.
pub fn intensity_levels(series: &Vec<DataPoint>) -> (r: Vec<u8>)
    ensures
        r@.len() == series@.len(),
        forall|i: int| 0 <= i < r@.len() ==> #[trigger] r@[i] == level_of(series@[i].value, max_value(points_of(series@))),
        forall|i: int| 0 <= i < r@.len() ==> (#[trigger] r@[i] == 0 <==> series@[i].value <= 0) && r@[i] <= 4,
{
    let ghost points = points_of(series@);
    let mut max: i64 = 0;
    let mut i: usize = 0;
    while i < series.len()
        invariant
            i <= series.len(),
            points == points_of(series@),
            max == max_value(points.take(i as int)),
            max >= 0,
        decreases series.len() - i,
    {
        proof {
            let next = points.take(i as int + 1);
            assert(next.drop_last() =~= points.take(i as int));
            assert(next.last() == series@[i as int]@);
        }
        if series[i].value > max {
            max = series[i].value;
        }
        i += 1;
    }
    assert(points.take(points.len() as int) =~= points);
    let mut levels: Vec<u8> = Vec::new();
    let mut k: usize = 0;
    while k < series.len()
        invariant
            k <= series.len(),
            points == points_of(series@),
            max == max_value(points),
            levels@.len() == k,
            forall|j: int| 0 <= j < k ==> #[trigger] levels@[j] == level_of(series@[j].value, max),
            forall|j: int| 0 <= j < k ==> (#[trigger] levels@[j] == 0 <==> series@[j].value <= 0) && levels@[j] <= 4,
        decreases series.len() - k,
    {
        let value: i64 = series[k].value;
        proof {
            lemma_max_value(points, k as int);
            assert(points[k as int].value == value);
        }
        let level: u8 = if value <= 0 || max <= 0 {
            0
        } else if value >= max {
            4
        } else {
            let scaled: i128 = 4 * (value as i128) + (max as i128) - 1;
            let q: i128 = scaled / (max as i128);
            assert(1 <= q <= 4) by (nonlinear_arith)
                requires
                    0 < value < max,
                    scaled == 4 * value + max - 1,
                    q == (scaled as int) / (max as int),
            ;
            q as u8
        };
        levels.push(level);
        k += 1;
    }
    levels
}

} // verus!
