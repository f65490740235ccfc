//! The heatmap of a habit for one month: one entry for every day of the
//! month, in order, whether or not the store holds a record of it.

use crate::date::{civil_day, format_date, formatted_day, from_ymd_opt, Date, DB_DATE_FORMAT, MAX_DAY, MIN_DAY};
use crate::series::{span_len, value_for, value_on};
use crate::store::{MetricStore, RowView};
use vstd::prelude::*;

verus! {

/// The value of a habit on one day of a month.
#[derive(Debug)]
pub struct HeatmapEntry {
    pub value: i64,
    pub date: String,
    pub habit_name: String,
}

/// What a [`HeatmapEntry`] holds.
pub struct HeatmapEntryView {
    pub value: i64,
    pub date: Seq<char>,
    pub habit_name: Seq<char>,
}

impl View for HeatmapEntry {
    type V = HeatmapEntryView;

    open spec fn view(&self) -> HeatmapEntryView {
        HeatmapEntryView { value: self.value, date: self.date@, habit_name: self.habit_name@ }
    }
}

/// Why a heatmap could not be built.
#[derive(Clone, Copy, Debug, PartialEq, Eq, Structural)]
pub enum HeatmapError {
    /// The year and the month name no month of the calendar.
    InvalidYearMonth,
    /// The last day of the month lies outside the calendar.
    NoLastDay,
}

impl HeatmapError {
    /// What went wrong, in words.
    pub fn message(&self) -> (r: String)
        ensures
            r@ == match self {
                HeatmapError::InvalidYearMonth => "Invalid year/month"@,
                HeatmapError::NoLastDay => "Failed to calculate last day of month"@,
            },
    {
        match self {
            HeatmapError::InvalidYearMonth => "Invalid year/month".to_owned(),
            HeatmapError::NoLastDay => "Failed to calculate last day of month".to_owned(),
        }
    }
}

/// The first day of the month after the month `month` of the year `year`.
pub open spec fn next_month_first(year: int, month: int) -> Option<int> {
    if month == 12 {
        if year + 1 <= i32::MAX {
            civil_day(year + 1, 1, 1)
        } else {
            None
        }
    } else if month + 1 <= u32::MAX {
        civil_day(year, month + 1, 1)
    } else {
        None
    }
}

/// The last day of the month `month` of the year `year`: the day before the
/// first day of the next month.
pub open spec fn month_last_day(year: int, month: int) -> Option<int> {
    match next_month_first(year, month) {
        Some(next) => if next > MIN_DAY {
            Some(next - 1)
        } else {
            None
        },
        None => None,
    }
}

/// The entry of a heatmap for `habit` on `day`.
pub open spec fn entry_on(rows: Seq<RowView>, habit: Seq<char>, day: int) -> HeatmapEntryView {
    HeatmapEntryView {
        value: value_on(rows, habit, day) as i64,
        date: formatted_day(day, DB_DATE_FORMAT@),
        habit_name: habit,
    }
}

/// The heatmap for `habit` of the days from `first` to `last`, both included.
pub open spec fn heatmap_of(rows: Seq<RowView>, habit: Seq<char>, first: int, last: int) -> Seq<HeatmapEntryView> {
    Seq::new(span_len(first, last), |i: int| entry_on(rows, habit, first + i))
}

/// The views of the entries of `v`.
pub open spec fn entries_of(v: Seq<HeatmapEntry>) -> Seq<HeatmapEntryView> {
    Seq::new(v.len(), |i: int| v[i]@)
}

/// The last day of the month `month` of the year `year`.
pub fn last_day_of_month(year: i32, month: u32) -> (r: Option<Date>)
    ensures
        r is Some <==> month_last_day(year as int, month as int) is Some,
        r matches Some(d) ==> month_last_day(year as int, month as int) == Some(d@),
{
    let next: Option<Date> = if month == 12 {
        match year.checked_add(1) {
            Some(y) => from_ymd_opt(y, 1, 1),
            None => None,
        }
    } else {
        match month.checked_add(1) {
            Some(m) => from_ymd_opt(year, m, 1),
            None => None,
        }
    };
    match next {
        Some(d) => d.pred_opt(),
        None => None,
    }
}

/// The heatmap of the habit `habit_name` for the month `month` of the year
/// `year`: one entry for every day of the month, in order, each with the
/// value that the store holds for the habit on that day, or 0.
pub fn get_monthly_heatmap_data(store: &MetricStore, habit_name: &str, year: i32, month: u32) -> (r: Result<
    Vec<HeatmapEntry>,
    HeatmapError,
>)
    ensures
        civil_day(year as int, month as int, 1) is None ==> r == Err::<Vec<HeatmapEntry>, HeatmapError>(
            HeatmapError::InvalidYearMonth,
        ),
        civil_day(year as int, month as int, 1) is Some && month_last_day(year as int, month as int) is None ==> r
            == Err::<Vec<HeatmapEntry>, HeatmapError>(HeatmapError::NoLastDay),
        civil_day(year as int, month as int, 1) is Some && month_last_day(year as int, month as int) is Some ==> r
            is Ok && entries_of(r->Ok_0@) == heatmap_of(
            store@.metrics,
            habit_name@,
            civil_day(year as int, month as int, 1)->0,
            month_last_day(year as int, month as int)->0,
        ),
{
    let first_day = match from_ymd_opt(year, month, 1) {
        Some(d) => d,
        None => {
            return Err(HeatmapError::InvalidYearMonth);
        },
    };
    let last_day = match last_day_of_month(year, month) {
        Some(d) => d,
        None => {
            return Err(HeatmapError::NoLastDay);
        },
    };
    let ghost rows = store@.metrics;
    let first: i32 = first_day.days();
    let last: i32 = last_day.days();
    let mut out: Vec<HeatmapEntry> = Vec::new();
    if last < first {
        assert(entries_of(out@) =~= heatmap_of(rows, habit_name@, first as int, last as int));
        return Ok(out);
    }
    let mut day: i32 = first;
    let mut more: bool = true;
    assert(entries_of(out@) =~= Seq::new(0nat, |i: int| entry_on(rows, habit_name@, first + i)));
    while more
        invariant
            rows == store@.metrics,
            MIN_DAY <= first <= day <= last <= MAX_DAY,
            more ==> entries_of(out@) == Seq::new(
                (day - first) as nat,
                |i: int| entry_on(rows, habit_name@, first + i),
            ),
            !more ==> entries_of(out@) == heatmap_of(rows, habit_name@, first as int, last as int),
        decreases (if more { 1int } else { 0int }), last - day,
    {
        let ghost before = entries_of(out@);
        match Date::from_days(day) {
            Some(d) => {
                let value: i64 = value_for(store, habit_name, d) as i64;
                out.push(
                    HeatmapEntry {
                        value,
                        date: format_date(d, DB_DATE_FORMAT),
                        habit_name: habit_name.to_owned(),
                    },
                );
                assert(entries_of(out@) =~= before.push(entry_on(rows, habit_name@, day as int)));
                assert(before.push(entry_on(rows, habit_name@, day as int)) =~= Seq::new(
                    (day - first + 1) as nat,
                    |i: int| entry_on(rows, habit_name@, first + i),
                ));
            },
            None => {},
        }
        if day < last {
            day += 1;
        } else {
            more = false;
        }
    }
    Ok(out)
}

} // verus!
