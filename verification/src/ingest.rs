//! Ingestion of one journal file: the rule that decides whether the file is
//! read again, and the writing of what it records.
//!
//! A file is passed over only where it is still there, its modification time
//! is the fingerprint that the store holds for it, and the store holds a
//! metric read from it. Every other file is processed: its metrics are
//! written, and then its fingerprint.

use crate::date::{now, Timestamp};
use crate::extract::{extract_records, file_metrics, file_stem, metrics_of, ExtractError};
use crate::store::{
    fingerprint_of, has_metrics_of, text_of, texts_of, FileMetaView, Metric, MetricStore, MetricView, RowView,
    StoreView,
};
use vstd::prelude::*;

verus! {

/// How many paths the channel to the workers holds, and how many workers
/// there are.
pub const WORKER_CHANNEL_CAPACITY: usize = 4;

/// Whether the file `path`, last modified at `modified` (`None` where the
/// file is not there), has to be processed.
pub open spec fn needs_processing(store: StoreView, path: Seq<char>, modified: Option<i128>) -> bool {
    !(modified is Some && fingerprint_of(store.file_meta, path) == modified && has_metrics_of(store.metrics, path))
}

/// Whether the file `path`, last modified at `modified` (`None`
/// where the file is not there), has to be processed.
pub fn should_process(path: &str, store: &MetricStore, modified: Option<i128>) -> (r: bool)
    ensures
        r == needs_processing(store@, path@, modified),
        modified is Some && fingerprint_of(store@.file_meta, path@) == modified && has_metrics_of(
            store@.metrics,
            path@,
        ) ==> !r,
        fingerprint_of(store@.file_meta, path@) is None ==> r,
        modified is None ==> r,
        !has_metrics_of(store@.metrics, path@) ==> r,
{
    let seen: i128 = match modified {
        Some(t) => t,
        None => {
            return true;
        },
    };
    match store.fingerprint(path) {
        Some(t) => t != seen || !store.has_metrics_for(path),
        None => true,
    }
}

/// The store after `records` were written to it, one after the other, each
/// with the moment `at`.
pub open spec fn with_metrics(store: StoreView, records: Seq<MetricView>, at: Timestamp) -> StoreView
    decreases records.len(),
{
    if records.len() == 0 {
        store
    } else {
        with_metrics(store, records.drop_last(), at).with_metric(RowView { metric: records.last(), updated_at: at })
    }
}

/// The store after the file `path` was ingested: after its metrics
/// `records` were written with the moment `at`, and then its fingerprint
/// `modified`.
pub open spec fn ingested(store: StoreView, path: Seq<char>, records: Seq<MetricView>, modified: i128, at: Timestamp) -> StoreView {
    with_metrics(store, records, at).with_file(FileMetaView { file_path: path, last_modified: modified })
}

/// Writes `records` to the store, one after the other, each with the moment `at`.
pub fn write_metrics(store: &mut MetricStore, records: Vec<Metric>, at: Timestamp)
    requires
        old(store)@.valid(),
    ensures
        final(store)@.valid(),
        final(store)@ == with_metrics(old(store)@, metrics_of(records@), at),
{
    let ghost all = metrics_of(records@);
    let ghost start = store@;
    let mut rest = records;
    let mut stack: Vec<Metric> = Vec::new();
    let n: usize = rest.len();
    let mut k: usize = n;
    while k > 0
        invariant
            k <= n,
            n == all.len(),
            metrics_of(rest@) == all.take(k as int),
            rest@.len() == k,
            stack@.len() == n - k,
            forall|j: int| 0 <= j < n - k ==> (#[trigger] stack@[j])@ == all[n - 1 - j],
        decreases k,
    {
        let ghost before = metrics_of(rest@);
        let last = rest.pop();
        k -= 1;
        match last {
            Some(m) => {
                assert(before[k as int] == m@);
                stack.push(m);
                assert(metrics_of(rest@) =~= all.take(k as int));
            },
            None => {},
        }
    }
    let mut i: usize = 0;
    while i < n
        invariant
            i <= n,
            n == all.len(),
            stack@.len() == n - i,
            forall|j: int| 0 <= j < n - i ==> (#[trigger] stack@[j])@ == all[n - 1 - j],
            store@.valid(),
            store@ == with_metrics(start, all.take(i as int), at),
        decreases n - i,
    {
        let next = stack.pop();
        match next {
            Some(m) => {
                proof {
                    let t = all.take(i as int + 1);
                    assert(t.drop_last() =~= all.take(i as int));
                    assert(t.last() == m@);
                }
                store.upsert_metric(m, at);
            },
            None => {},
        }
        i += 1;
    }
    assert(all.take(n as int) =~= all);
}

/// Ingests the file `path`, whose lines are `lines`, whose name has the stem
/// `stem` and which was last modified at `modified`: writes the metrics that
/// it records, each with the moment `at`, and then its fingerprint. Where the
/// extraction fails the store is left as it was, so the file is tried again.
pub fn ingest_lines(
    store: &mut MetricStore,
    path: &str,
    needed_metrics: &Vec<String>,
    lines: &Vec<String>,
    stem: &Option<String>,
    modified: i128,
    at: Timestamp,
) -> (r: Result<usize, ExtractError>)
    requires
        old(store)@.valid(),
    ensures
        final(store)@.valid(),
        match file_metrics(texts_of(lines@), texts_of(needed_metrics@), text_of(*stem), path@) {
            Ok(records) => r == Ok::<usize, ExtractError>(records.len() as usize) && final(store)@ == ingested(
                old(store)@,
                path@,
                records,
                modified,
                at,
            ),
            Err(e) => r == Err::<usize, ExtractError>(e) && final(store)@ == old(store)@,
        },
{
    match extract_records(lines, needed_metrics, stem, path) {
        Err(e) => Err(e),
        Ok(records) => {
            let count: usize = records.len();
            assert(metrics_of(records@).len() == records@.len());
            write_metrics(store, records, at);
            store.record_file(path, modified);
            Ok(count)
        },
    }
}

/// What became of a file that was handed to a worker.
#[derive(Clone, Copy, Debug, PartialEq, Eq, Structural)]
pub enum Ingest {
    /// No metric is tracked: there is nothing to look for.
    NothingTracked,
    /// The file is as it was when it was last read: it was passed over.
    Unchanged,
    /// The file is not there: nothing was done.
    Missing,
    /// The file was read; it recorded this many metrics.
    Read(usize),
}

/// Whether `r` and `after` are what the ingestion of a file gives, from the
/// store `before`, for the stem `stem` and the moment `at`.
pub open spec fn is_ingestion(
    before: StoreView,
    after: StoreView,
    r: Result<Ingest, ExtractError>,
    path: Seq<char>,
    names: Seq<Seq<char>>,
    lines: Seq<Seq<char>>,
    modified: i128,
    stem: Option<Seq<char>>,
    at: Timestamp,
) -> bool {
    match file_metrics(lines, names, stem, path) {
        Ok(records) => r == Ok::<Ingest, ExtractError>(Ingest::Read(records.len() as usize)) && after == ingested(
            before,
            path,
            records,
            modified,
            at,
        ),
        Err(e) => r == Err::<Ingest, ExtractError>(e) && after == before,
    }
}

/// The work of a worker on one file, last modified at `modified` (`None`
/// where the file is not there) and holding `lines`. Nothing is done where no
/// metric is tracked, where the file need not be read again, or where the file
/// is not there. Else the file is ingested: its metrics are written with the
/// present moment and dated by the stem of the file's name, whatever the
/// clock and the platform say these are. Where the clock gives no moment the
/// store is left as it was, with the error `NoClock`.
pub fn read_front_matter(
    path: &str,
    needed_metrics: &Vec<String>,
    store: &mut MetricStore,
    modified: Option<i128>,
    lines: &Vec<String>,
) -> (r: Result<Ingest, ExtractError>)
    requires
        old(store)@.valid(),
    ensures
        final(store)@.valid(),
        needed_metrics@.len() == 0 ==> r == Ok::<Ingest, ExtractError>(Ingest::NothingTracked) && final(store)@
            == old(store)@,
        needed_metrics@.len() > 0 && !needs_processing(old(store)@, path@, modified) ==> r == Ok::<
            Ingest,
            ExtractError,
        >(Ingest::Unchanged) && final(store)@ == old(store)@,
        needed_metrics@.len() > 0 && modified is None ==> r == Ok::<Ingest, ExtractError>(Ingest::Missing)
            && final(store)@ == old(store)@,
        needed_metrics@.len() > 0 && modified is Some && needs_processing(old(store)@, path@, modified)
            ==> (r == Err::<Ingest, ExtractError>(ExtractError::NoClock) && final(store)@ == old(store)@) || exists|
            stem: Option<Seq<char>>,
            at: Timestamp,
        |
            is_ingestion(
                old(store)@,
                final(store)@,
                r,
                path@,
                texts_of(needed_metrics@),
                texts_of(lines@),
                modified->0,
                stem,
                at,
            ),
{
    if needed_metrics.len() == 0 {
        return Ok(Ingest::NothingTracked);
    }
    if !should_process(path, store, modified) {
        return Ok(Ingest::Unchanged);
    }
    let seen: i128 = match modified {
        Some(t) => t,
        None => {
            return Ok(Ingest::Missing);
        },
    };
    let stem = file_stem(path);
    let at = match now() {
        Some(t) => t,
        None => {
            return Err(ExtractError::NoClock);
        },
    };
    let ghost before = store@;
    let r = ingest_lines(store, path, needed_metrics, lines, &stem, seen, at);
    let out = match r {
        Ok(n) => Ok(Ingest::Read(n)),
        Err(e) => Err(e),
    };
    assert(is_ingestion(
        before,
        store@,
        out,
        path@,
        texts_of(needed_metrics@),
        texts_of(lines@),
        seen,
        text_of(stem),
        at,
    ));
    out
}

} // verus!
