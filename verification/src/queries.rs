//! The records of a span of days, as rows for the user interface.

use crate::date::{civil_day, format_date, formatted_day, from_ymd_opt, DB_DATE_FORMAT};
use crate::store::{rows_of, MetricStore, RowView};
use vstd::prelude::*;

verus! {

/// One record, with its date as text.
#[derive(Debug)]
pub struct RowMetric {
    pub name: String,
    pub value: i64,
    pub date: String,
}

/// What a [`RowMetric`] holds.
pub struct RowMetricView {
    pub name: Seq<char>,
    pub value: i64,
    pub date: Seq<char>,
}

impl View for RowMetric {
    type V = RowMetricView;

    open spec fn view(&self) -> RowMetricView {
        RowMetricView { name: self.name@, value: self.value, date: self.date@ }
    }
}

/// The views of the rows of `v`.
pub open spec fn row_metrics_of(v: Seq<RowMetric>) -> Seq<RowMetricView> {
    Seq::new(v.len(), |i: int| v[i]@)
}

/// Why the records could not be read.
#[derive(Clone, Copy, Debug, PartialEq, Eq, Structural)]
pub enum QueryError {
    /// A year, a month and a day that name no date.
    InvalidDate,
}

/// The record `r` as a row.
pub open spec fn as_row(r: RowView) -> RowMetricView {
    RowMetricView {
        name: r.metric.name,
        value: r.metric.value as i64,
        date: formatted_day(r.metric.date, DB_DATE_FORMAT@),
    }
}

/// The records of `rows` of the days from `from` to `to`, as rows, in their order.
pub open spec fn rows_between(rows: Seq<RowView>, from: int, to: int) -> Seq<RowMetricView>
    decreases rows.len(),
{
    if rows.len() == 0 {
        Seq::empty()
    } else if from <= rows.last().metric.date <= to {
        rows_between(rows.drop_last(), from, to).push(as_row(rows.last()))
    } else {
        rows_between(rows.drop_last(), from, to)
    }
}

/// The records of the days from `from` to `to`, both included and each given
/// as a year, a month and a day, in the order of the store.
pub fn get_metrics_by_date(store: &MetricStore, from: (i32, u32, u32), to: (i32, u32, u32)) -> (r: Result<
    Vec<RowMetric>,
    QueryError,
>)
    ensures
        r is Ok <==> civil_day(from.0 as int, from.1 as int, from.2 as int) is Some && civil_day(
            to.0 as int,
            to.1 as int,
            to.2 as int,
        ) is Some,
        r matches Ok(v) ==> row_metrics_of(v@) == rows_between(
            store@.metrics,
            civil_day(from.0 as int, from.1 as int, from.2 as int)->0,
            civil_day(to.0 as int, to.1 as int, to.2 as int)->0,
        ),
{
    let first: i32 = match from_ymd_opt(from.0, from.1, from.2) {
        Some(d) => d.days(),
        None => {
            return Err(QueryError::InvalidDate);
        },
    };
    let last: i32 = match from_ymd_opt(to.0, to.1, to.2) {
        Some(d) => d.days(),
        None => {
            return Err(QueryError::InvalidDate);
        },
    };
    let rows = store.metrics();
    let ghost views = rows_of(rows@);
    let mut metrics: Vec<RowMetric> = Vec::new();
    let mut i: usize = 0;
    assert(row_metrics_of(metrics@) =~= Seq::<RowMetricView>::empty());
    while i < rows.len()
        invariant
            i <= rows.len(),
            views == rows_of(rows@),
            row_metrics_of(metrics@) == rows_between(views.take(i as int), first as int, last as int),
        decreases rows.len() - i,
    {
        let r = &rows[i];
        let ghost before = row_metrics_of(metrics@);
        proof {
            let next = views.take(i as int + 1);
            assert(next.drop_last() =~= views.take(i as int));
            assert(next.last() == r@);
        }
        let d: i32 = r.metric.date.days();
        if first <= d && d <= last {
            metrics.push(
                RowMetric {
                    name: r.metric.name.clone(),
                    value: r.metric.value as i64,
                    date: format_date(r.metric.date, DB_DATE_FORMAT),
                },
            );
            assert(row_metrics_of(metrics@) =~= before.push(as_row(r@)));
        }
        i += 1;
    }
    assert(views.take(views.len() as int) =~= views);
    Ok(metrics)
}

} // verus!
