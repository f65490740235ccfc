//! The settings: the tracked metrics with what the store holds of each, and
//! the journal root.

use crate::date::{day_in_range, now, today, Date, Timestamp, MIN_DAY};
use crate::series::{distinct_names, get_all_habits};
use crate::store::{
    names_renamed, rename_clashes, renamed, rows_of, text_of, texts_of, FileMetaView, Metric, MetricStore,
    RenameError, RowView, StoreView,
};
use vstd::prelude::*;

verus! {

/// Why the settings could not be read.
#[derive(Clone, Copy, Debug, PartialEq, Eq, Structural)]
pub enum SettingsError {
    /// The day a week before today lies outside the calendar.
    DateOutOfRange,
}

/// What the store holds of one metric.
#[derive(Debug)]
pub struct TrackedMetric {
    pub name: String,
    /// Whether the metric was written within the last seven days.
    pub active: bool,
    pub last_updated: Timestamp,
    /// The number of records of the metric.
    pub entries: u64,
}

/// The settings.
#[derive(Debug)]
pub struct Settings {
    pub tracked_metrics: Option<Vec<TrackedMetric>>,
    pub journal_files_path: Option<String>,
}

/// The number of records of `rows` with the name `name`.
pub open spec fn count_named(rows: Seq<RowView>, name: Seq<char>) -> nat
    decreases rows.len(),
{
    if rows.len() == 0 {
        0
    } else if rows.last().metric.name == name {
        count_named(rows.drop_last(), name) + 1
    } else {
        count_named(rows.drop_last(), name)
    }
}

/// The latest moment at which a record of `rows` with the name `name` was
/// written; `None` where there is no such record.
pub open spec fn latest_update(rows: Seq<RowView>, name: Seq<char>) -> Option<Timestamp>
    decreases rows.len(),
{
    if rows.len() == 0 {
        None
    } else {
        let earlier = latest_update(rows.drop_last(), name);
        if rows.last().metric.name == name && (earlier is None || earlier->0.spec_before(rows.last().updated_at)) {
            Some(rows.last().updated_at)
        } else {
            earlier
        }
    }
}

/// Whether `m` says of the metric `name` what `rows` holds of it, as of `today`.
pub open spec fn describes(m: TrackedMetric, rows: Seq<RowView>, name: Seq<char>, today: int) -> bool {
    &&& m.name@ == name
    &&& m.entries == count_named(rows, name)
    &&& latest_update(rows, name) == Some(m.last_updated)
    &&& m.active == (m.last_updated.day@ >= today - 7)
}

/// The number of records of the metric `name` and the latest moment at which
/// one of them was written.
pub fn metric_usage(store: &MetricStore, name: &String) -> (r: (u64, Option<Timestamp>))
    ensures
        r.0 == count_named(store@.metrics, name@),
        r.1 == latest_update(store@.metrics, name@),
{
    let rows = store.metrics();
    let ghost views = rows_of(rows@);
    let mut count: usize = 0;
    let mut latest: Option<Timestamp> = None;
    let mut i: usize = 0;
    while i < rows.len()
        invariant
            i <= rows.len(),
            views == rows_of(rows@),
            count == count_named(views.take(i as int), name@),
            count <= i,
            latest == latest_update(views.take(i as int), name@),
        decreases rows.len() - i,
    {
        let r = &rows[i];
        proof {
            let next = views.take(i as int + 1);
            assert(next.drop_last() =~= views.take(i as int));
            assert(next.last() == r@);
        }
        if r.metric.name == *name {
            count += 1;
            let newer: bool = match latest {
                Some(t) => t.before(r.updated_at),
                None => true,
            };
            if newer {
                latest = Some(r.updated_at);
            }
        }
        i += 1;
    }
    assert(views.take(views.len() as int) =~= views);
    (count as u64, latest)
}

/// Whether `v` says of the metric `name` what the store holds of it.
pub open spec fn lists(v: Seq<TrackedMetric>, name: Seq<char>) -> bool {
    exists|q: int| 0 <= q < v.len() && (#[trigger] v[q]).name@ == name
}

/// Whether `v` holds what `rows` holds of each of its metrics as of `today`,
/// each metric once, the metric written last first.
pub open spec fn describes_all(v: Seq<TrackedMetric>, rows: Seq<RowView>, today: int) -> bool {
    &&& v.len() == distinct_names(rows).len()
    &&& forall|q: int|
        0 <= q < v.len() ==> distinct_names(rows).contains((#[trigger] v[q]).name@) && describes(
            v[q],
            rows,
            v[q].name@,
            today,
        )
    &&& forall|j: int| 0 <= j < distinct_names(rows).len() ==> lists(v, #[trigger] distinct_names(rows)[j])
    &&& forall|a: int, b: int| 0 <= a < b < v.len() ==> (#[trigger] v[a]).name@ != (#[trigger] v[b]).name@
    &&& forall|a: int, b: int|
        0 <= a < b < v.len() ==> !(#[trigger] v[a]).last_updated.spec_before((#[trigger] v[b]).last_updated)
}

/// Whether `r` holds what `rows` holds of each of its metrics as of the day
/// `today`: nothing where there is no metric, else the error where the day a
/// week before `today` lies outside the calendar, and else the list of the
/// metrics, the metric written last first.
pub open spec fn is_tracked_as_of(r: Result<Option<Vec<TrackedMetric>>, SettingsError>, rows: Seq<RowView>, today: int) -> bool {
    if distinct_names(rows).len() == 0 {
        r matches Ok(None)
    } else if today - 7 < MIN_DAY {
        r matches Err(SettingsError::DateOutOfRange)
    } else {
        r matches Ok(Some(v)) && describes_all(v@, rows, today)
    }
}

/// Whether `r` holds the settings of `store` as of the day `today`: the
/// journal root and what the store holds of each of its metrics, or the error
/// where that list cannot be made.
pub open spec fn is_settings_as_of(r: Result<Settings, SettingsError>, store: StoreView, today: int) -> bool {
    if distinct_names(store.metrics).len() > 0 && today - 7 < MIN_DAY {
        r matches Err(SettingsError::DateOutOfRange)
    } else {
        r matches Ok(s) && text_of(s.journal_files_path) == store.journal_path && is_tracked_as_of(
            Ok::<Option<Vec<TrackedMetric>>, SettingsError>(s.tracked_metrics),
            store.metrics,
            today,
        )
    }
}

/// What the store holds of each of its metrics as of `today`, the metric
/// written last first; `None` where it holds none.
pub fn tracked_metrics_on(store: &MetricStore, today: Date) -> (r: Result<Option<Vec<TrackedMetric>>, SettingsError>)
    ensures
        is_tracked_as_of(r, store@.metrics, today@),
        r is Err <==> distinct_names(store@.metrics).len() > 0 && today@ - 7 < MIN_DAY,
        r matches Ok(None) ==> distinct_names(store@.metrics).len() == 0,
        r matches Ok(Some(v)) ==> v@.len() > 0 && describes_all(v@, store@.metrics, today@),
{
    let ghost rows = store@.metrics;
    let ghost all = distinct_names(rows);
    let names = get_all_habits(store);
    assert(texts_of(names@).len() == names@.len());
    if names.len() == 0 {
        return Ok(None);
    }
    let week_ago: i32 = match today.checked_sub_days(7) {
        Some(d) => d.days(),
        None => {
            return Err(SettingsError::DateOutOfRange);
        },
    };
    proof {
        lemma_distinct_names(rows);
    }
    let mut out: Vec<TrackedMetric> = Vec::new();
    let mut k: usize = 0;
    while k < names.len()
        invariant
            k <= names.len(),
            rows == store@.metrics,
            all == distinct_names(rows),
            all.no_duplicates(),
            texts_of(names@) == all,
            week_ago == today@ - 7,
            out@.len() == k,
            forall|q: int|
                0 <= q < k ==> describes(#[trigger] out@[q], rows, out@[q].name@, today@) && exists|j: int|
                    0 <= j < k && all[j] == out@[q].name@,
            forall|j: int| 0 <= j < k ==> lists(out@, #[trigger] all[j]),
            forall|a: int, b: int| 0 <= a < b < k ==> (#[trigger] out@[a]).name@ != (#[trigger] out@[b]).name@,
            forall|a: int, b: int|
                0 <= a < b < k ==> !(#[trigger] out@[a]).last_updated.spec_before((#[trigger] out@[b]).last_updated),
        decreases names.len() - k,
    {
        let name = names[k].clone();
        assert(all[k as int] == names@[k as int]@);
        let (entries, latest) = metric_usage(store, &name);
        let last_updated: Timestamp = match latest {
            Some(t) => t,
            None => {
                proof {
                    lemma_named_is_dated(rows, name@);
                    assert(all.contains(name@));
                }
                Timestamp { day: today, second: 0 }
            },
        };
        let active: bool = last_updated.day.days() >= week_ago;
        let ghost before = out@;
        let mut p: usize = 0;
        while p < out.len() && !out[p].last_updated.before(last_updated)
            invariant
                p <= out.len(),
                out@ == before,
                forall|a: int| 0 <= a < p ==> !(#[trigger] before[a]).last_updated.spec_before(last_updated),
            decreases out.len() - p,
        {
            p += 1;
        }
        let item = TrackedMetric { name, active, last_updated, entries };
        out.insert(p, item);
        proof {
            let after = out@;
            assert(after == before.insert(p as int, item));
            assert forall|q: int| 0 <= q < k + 1 implies describes(#[trigger] after[q], rows, after[q].name@, today@)
                && exists|j: int| 0 <= j < k + 1 && all[j] == after[q].name@ by {
                if q < p {
                    assert(after[q] == before[q]);
                    let j = choose|j: int| 0 <= j < k && all[j] == before[q].name@;
                    assert(all[j] == after[q].name@);
                } else if q > p {
                    assert(after[q] == before[q - 1]);
                    let j = choose|j: int| 0 <= j < k && all[j] == before[q - 1].name@;
                    assert(all[j] == after[q].name@);
                } else {
                    assert(all[k as int] == after[q].name@);
                }
            }
            assert forall|j: int| 0 <= j < k + 1 implies lists(after, #[trigger] all[j]) by {
                if j < k {
                    let q = choose|q: int| 0 <= q < before.len() && (#[trigger] before[q]).name@ == all[j];
                    if q < p {
                        assert(after[q] == before[q]);
                    } else {
                        assert(after[q + 1] == before[q]);
                    }
                } else {
                    assert(after[p as int].name@ == all[j]);
                }
            }
            assert forall|a: int, b: int| 0 <= a < b < k + 1 implies (#[trigger] after[a]).name@ != (#[trigger] after[b]).name@
                && !after[a].last_updated.spec_before(after[b].last_updated) by {
                let ra = if a < p { a } else { a - 1 };
                let rb = if b < p { b } else { b - 1 };
                if a != p && b != p {
                    assert(after[a] == before[ra]);
                    assert(after[b] == before[rb]);
                } else if a == p {
                    assert(after[b] == before[rb]);
                    let j = choose|j: int| 0 <= j < k && all[j] == before[rb].name@;
                    assert(all[j] != all[k as int]);
                    if p < before.len() {
                        assert(before[p as int].last_updated.spec_before(last_updated));
                        assert(rb == p || !before[p as int].last_updated.spec_before(before[rb].last_updated));
                    }
                } else {
                    assert(after[a] == before[ra]);
                    let j = choose|j: int| 0 <= j < k && all[j] == before[ra].name@;
                    assert(all[j] != all[k as int]);
                }
            }
        }
        k += 1;
    }
    Ok(Some(out))
}

/// The names of the records of `rows` hold no name twice.
pub proof fn lemma_distinct_names(rows: Seq<RowView>)
    ensures
        distinct_names(rows).no_duplicates(),
    decreases rows.len(),
{
    if rows.len() > 0 {
        lemma_distinct_names(rows.drop_last());
    }
}

/// A name among the names of `rows` has a record, and so a latest moment.
pub proof fn lemma_named_is_dated(rows: Seq<RowView>, name: Seq<char>)
    ensures
        distinct_names(rows).contains(name) ==> latest_update(rows, name) is Some && count_named(rows, name) > 0,
    decreases rows.len(),
{
    if rows.len() > 0 {
        let init = rows.drop_last();
        lemma_named_is_dated(init, name);
        let names = distinct_names(init);
        if distinct_names(rows).contains(name) && !names.contains(name) {
            let all = distinct_names(rows);
            let k = choose|k: int| 0 <= k < all.len() && all[k] == name;
            if k < names.len() {
                assert(names[k] == name);
            }
            assert(rows.last().metric.name == name);
        }
    }
}

/// What the store holds of each of its metrics as of today, by the local
/// clock; `None` where it holds none, whatever the clock says. The result is
/// that of some day of the calendar, the day that the clock gives: the list
/// of the metrics as of that day, the metric written last first, or the
/// error where the day a week before it lies outside the calendar. Where the
/// clock gives no day and there are metrics, the error is the same.
pub fn get_tracked_metrics(store: &MetricStore) -> (r: Result<Option<Vec<TrackedMetric>>, SettingsError>)
    ensures
        exists|day: int| day_in_range(day) && #[trigger] is_tracked_as_of(r, store@.metrics, day),
        distinct_names(store@.metrics).len() == 0 ==> r matches Ok(None),
        r matches Ok(None) ==> distinct_names(store@.metrics).len() == 0,
        r matches Ok(Some(v)) ==> v@.len() > 0,
        r matches Ok(Some(_)) ==> exists|day: int| #[trigger] describes_all(r->Ok_0->Some_0@, store@.metrics, day),
{
    let now = match today() {
        Some(d) => d,
        None => {
            let names = get_all_habits(store);
            assert(texts_of(names@).len() == names@.len());
            if names.len() == 0 {
                assert(is_tracked_as_of(Ok::<Option<Vec<TrackedMetric>>, SettingsError>(None), store@.metrics, 0));
                return Ok(None);
            }
            let r = Err(SettingsError::DateOutOfRange);
            assert(is_tracked_as_of(r, store@.metrics, MIN_DAY as int));
            return r;
        },
    };
    let r = tracked_metrics_on(store, now);
    proof {
        assert(is_tracked_as_of(r, store@.metrics, now@));
        if r matches Ok(Some(_)) {
            assert(describes_all(r->Ok_0->Some_0@, store@.metrics, now@));
        }
    }
    r
}

/// The settings: what the store holds of each of its metrics as of today, by
/// the local clock, and the journal root. The result is that of some day of
/// the calendar, the day that the clock gives. Where the store holds no
/// metric the settings are the journal root and no list, whatever the clock
/// says.
pub fn get_settings(store: &MetricStore) -> (r: Result<Settings, SettingsError>)
    ensures
        exists|day: int| day_in_range(day) && #[trigger] is_settings_as_of(r, store@, day),
        distinct_names(store@.metrics).len() == 0 ==> r is Ok && r->Ok_0.tracked_metrics is None,
        r matches Ok(s) ==> text_of(s.journal_files_path) == store@.journal_path && (s.tracked_metrics is None
            <==> distinct_names(store@.metrics).len() == 0),
        r is Ok && r->Ok_0.tracked_metrics is Some ==> exists|day: int| #[trigger]
            describes_all(r->Ok_0.tracked_metrics->0@, store@.metrics, day),
{
    let found = get_tracked_metrics(store);
    let ghost day = choose|day: int| day_in_range(day) && #[trigger] is_tracked_as_of(found, store@.metrics, day);
    let r = match found {
        Ok(tracked_metrics) => Ok(Settings { tracked_metrics, journal_files_path: get_journal_files_path(store) }),
        Err(e) => Err(e),
    };
    proof {
        assert(is_tracked_as_of(found, store@.metrics, day));
        if r is Ok {
            let listed = r->Ok_0.tracked_metrics;
            assert(found == Ok::<Option<Vec<TrackedMetric>>, SettingsError>(listed));
            if listed is Some {
                assert(describes_all(listed->0@, store@.metrics, day));
            }
        }
        assert(is_settings_as_of(r, store@, day));
    }
    r
}

/// The journal root, if one is set.
pub fn get_journal_files_path(store: &MetricStore) -> (r: Option<String>)
    ensures
        text_of(r) == store@.journal_path,
{
    match store.journal_path() {
        Some(p) => Some(p.clone()),
        None => None,
    }
}

/// Whether a journal root is set.
pub fn is_journal_path_configured(store: &MetricStore) -> (r: bool)
    ensures
        r == store@.journal_path is Some,
{
    get_journal_files_path(store).is_some()
}

/// The names of the tracked metrics, in the order in which they were added.
pub fn get_tracked_metrics_from_db(store: &MetricStore) -> (r: Vec<String>)
    ensures
        texts_of(r@) == store@.tracked_metrics,
{
    let names = store.tracked_metrics();
    let mut out: Vec<String> = Vec::new();
    let mut i: usize = 0;
    while i < names.len()
        invariant
            i <= names.len(),
            out@.len() == i,
            forall|j: int| 0 <= j < i ==> (#[trigger] out@[j])@ == names@[j]@,
        decreases names.len() - i,
    {
        out.push(names[i].clone());
        i += 1;
    }
    assert(texts_of(out@) =~= texts_of(names@));
    out
}

/// Tracks the metric `metric_name`. Hands back the journal root, where one is
/// set: it is to be resynced, so that the files are read for the new metric.
pub fn add_metric(store: &mut MetricStore, metric_name: &str) -> (r: Option<String>)
    requires
        old(store)@.valid(),
    ensures
        final(store)@.valid(),
        final(store)@ == old(store)@.with_tracked(metric_name@),
        text_of(r) == old(store)@.journal_path,
{
    store.track(metric_name);
    get_journal_files_path(store)
}

/// Deletes the metric `metric_name`: its records, and its name among the
/// tracked metrics.
pub fn delete_metric(store: &mut MetricStore, metric_name: &str)
    requires
        old(store)@.valid(),
    ensures
        final(store)@.valid(),
        final(store)@ == old(store)@.without_metric(metric_name@),
{
    store.forget(metric_name);
}

/// Renames the metric `prev_name` to `new_name`, in the records and among the
/// tracked names, and hands back the journal root, where one is set: it is to
/// be resynced. Where a file holds a record of the new name for a date for
/// which it holds one of the old name, nothing is changed. Where the records
/// can be renamed but both names are tracked, the records are renamed and the
/// tracked names are left as they were.
pub fn udpate_metric(store: &mut MetricStore, prev_name: &str, new_name: &str) -> (r: Result<Option<String>, RenameError>)
    requires
        old(store)@.valid(),
    ensures
        final(store)@.valid(),
        final(store)@.file_meta == old(store)@.file_meta,
        final(store)@.journal_path == old(store)@.journal_path,
        r matches Ok(root) ==> text_of(root) == old(store)@.journal_path,
        rename_clashes(old(store)@.metrics, prev_name@, new_name@) ==> r == Err::<Option<String>, RenameError>(
            RenameError::RecordExists,
        ) && final(store)@ == old(store)@,
        !rename_clashes(old(store)@.metrics, prev_name@, new_name@) ==> {
            let names = old(store)@.tracked_metrics;
            let both = prev_name@ != new_name@ && names.contains(prev_name@) && names.contains(new_name@);
            &&& final(store)@.metrics == renamed(old(store)@.metrics, prev_name@, new_name@)
            &&& both ==> r == Err::<Option<String>, RenameError>(RenameError::AlreadyTracked)
                && final(store)@.tracked_metrics == names
            &&& !both ==> r is Ok && final(store)@.tracked_metrics == names_renamed(names, prev_name@, new_name@)
        },
{
    match store.rename(prev_name, new_name) {
        Ok(()) => Ok(get_journal_files_path(store)),
        Err(e) => Err(e),
    }
}

/// Why a record could not be written.
#[derive(Clone, Copy, Debug, PartialEq, Eq, Structural)]
pub enum WriteError {
    /// The clock gives no moment to write the record with.
    NoClock,
}

/// Writes `metrics` to the store with the present moment, in place of the
/// record of the same file, name and date if there is one. Where the clock
/// gives no moment nothing is written.
pub fn write_metric_to_db(metrics: Metric, store: &mut MetricStore) -> (r: Result<(), WriteError>)
    requires
        old(store)@.valid(),
    ensures
        final(store)@.valid(),
        r is Ok ==> exists|at: Timestamp| final(store)@ == #[trigger] old(store)@.with_metric((RowView { metric: metrics@, updated_at: at })),
        r is Err ==> final(store)@ == old(store)@,
{
    let at = match now() {
        Some(t) => t,
        None => {
            return Err(WriteError::NoClock);
        },
    };
    let ghost before = store@;
    let ghost m = metrics@;
    store.upsert_metric(metrics, at);
    assert(store@ == before.with_metric((RowView { metric: m, updated_at: at })));
    Ok(())
}

/// Writes a copy of `metric` to the store with the present moment, in place
/// of the record of the same file, name and date if there is one. Where the
/// clock gives no moment nothing is written.
pub fn insert_metric(store: &mut MetricStore, metric: &Metric) -> (r: Result<(), WriteError>)
    requires
        old(store)@.valid(),
    ensures
        final(store)@.valid(),
        r is Ok ==> exists|at: Timestamp| final(store)@ == #[trigger] old(store)@.with_metric((RowView { metric: metric@, updated_at: at })),
        r is Err ==> final(store)@ == old(store)@,
{
    write_metric_to_db(metric.duplicate(), store)
}

/// Records `last_modified` as the fingerprint of the file `path`.
pub fn update_file_metadata(path: &str, store: &mut MetricStore, last_modified: i128)
    requires
        old(store)@.valid(),
    ensures
        final(store)@.valid(),
        final(store)@ == old(store)@.with_file((FileMetaView { file_path: path@, last_modified })),
{
    store.record_file(path, last_modified);
}

} // verus!
