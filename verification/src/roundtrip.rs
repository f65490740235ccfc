//! What holds of a file that is ingested twice.
//!
//! Once a file was ingested and recorded a metric, it is passed over for as
//! long as its modification time stays the same, so the store stays as it is.
//! Where it is ingested again all the same, the store holds the same metrics
//! in the same order afterwards; only the moment of the records of the file
//! is the new one.

use crate::date::{day_in_range, Timestamp};
use crate::extract::{
    block_metrics, dated_line_metric, ExtractError, file_metrics, front_matter, put_metric, stem_date,
};
use crate::ingest::{ingested, needs_processing, with_metrics};
use crate::seqs::{first_index, lemma_first_index};
use crate::store::{
    dates_in_range, fingerprint_of, has_metrics_of, key_index, keys_distinct, lemma_file_recorded, lemma_key_index,
    lemma_upsert_replaces, upserted, FileMetaView, MetricView, RowView, StoreView,
};
use vstd::prelude::*;

verus! {

/// Whether no two of `records` are of one file, name and date.
pub open spec fn records_distinct(records: Seq<MetricView>) -> bool {
    forall|i: int, j: int| 0 <= i < j < records.len() ==> !(#[trigger] records[i]).same_key(#[trigger] records[j])
}

/// Whether every one of `records` was read from the file `path`.
pub open spec fn records_of_file(records: Seq<MetricView>, path: Seq<char>) -> bool {
    forall|i: int| 0 <= i < records.len() ==> (#[trigger] records[i]).file_path == path
}

/// Whether the date of every one of `records` is one that a date can hold.
pub open spec fn records_in_range(records: Seq<MetricView>) -> bool {
    forall|i: int| 0 <= i < records.len() ==> day_in_range((#[trigger] records[i]).date)
}

/// Whether no record of `rows` is of the file, name and date of one of `records`.
pub open spec fn no_keys_of(rows: Seq<RowView>, records: Seq<MetricView>) -> bool {
    forall|i: int, j: int|
        0 <= i < rows.len() && 0 <= j < records.len() ==> !(#[trigger] rows[i]).metric.same_key(#[trigger] records[j])
}

/// `rows` without the record of the file, name and date of `m`.
pub open spec fn remove_key(rows: Seq<RowView>, m: MetricView) -> Seq<RowView> {
    let i = key_index(rows, m);
    if i < rows.len() {
        rows.remove(i)
    } else {
        rows
    }
}

/// `rows` without the records of the file, name and date of one of `records`.
pub open spec fn outside(rows: Seq<RowView>, records: Seq<MetricView>) -> Seq<RowView>
    decreases records.len(),
{
    if records.len() == 0 {
        rows
    } else {
        remove_key(outside(rows, records.drop_last()), records.last())
    }
}

/// `records` as the store holds them when they were written at the moment `at`.
pub open spec fn stamped(records: Seq<MetricView>, at: Timestamp) -> Seq<RowView> {
    Seq::new(records.len(), |i: int| RowView { metric: records[i], updated_at: at })
}

/// `rows` after `records` were written to them, one after the other.
pub open spec fn upserted_all(rows: Seq<RowView>, records: Seq<MetricView>, at: Timestamp) -> Seq<RowView>
    decreases records.len(),
{
    if records.len() == 0 {
        rows
    } else {
        upserted(upserted_all(rows, records.drop_last(), at), RowView { metric: records.last(), updated_at: at })
    }
}

proof fn lemma_key_index_is(rows: Seq<RowView>, m: MetricView, k: int)
    requires
        0 <= k <= rows.len(),
        forall|i: int| 0 <= i < k ==> !(#[trigger] rows[i]).metric.same_key(m),
        k < rows.len() ==> rows[k].metric.same_key(m),
    ensures
        key_index(rows, m) == k,
{
    lemma_key_index(rows, m);
}

proof fn lemma_remove_key(rows: Seq<RowView>, m: MetricView)
    requires
        keys_distinct(rows),
    ensures
        keys_distinct(remove_key(rows, m)),
        forall|i: int| 0 <= i < remove_key(rows, m).len() ==> !(#[trigger] remove_key(rows, m)[i]).metric.same_key(m),
        forall|i: int| 0 <= i < remove_key(rows, m).len() ==> rows.contains(#[trigger] remove_key(rows, m)[i]),
        dates_in_range(rows) ==> dates_in_range(remove_key(rows, m)),
{
    lemma_key_index(rows, m);
    let i = key_index(rows, m);
    let kept = remove_key(rows, m);
    assert forall|a: int| 0 <= a < kept.len() implies !(#[trigger] kept[a]).metric.same_key(m) && rows.contains(
        kept[a],
    ) by {
        if i < rows.len() && a >= i {
            assert(kept[a] == rows[a + 1]);
            assert(!rows[i].metric.same_key(rows[a + 1].metric));
        } else {
            assert(kept[a] == rows[a]);
            if i < rows.len() {
                assert(!rows[a].metric.same_key(rows[i].metric));
            }
        }
    }
    assert forall|a: int, b: int| 0 <= a < b < kept.len() implies !(#[trigger] kept[a]).metric.same_key(
        (#[trigger] kept[b]).metric,
    ) by {
        let ra = if i < rows.len() && a >= i { a + 1 } else { a };
        let rb = if i < rows.len() && b >= i { b + 1 } else { b };
        assert(kept[a] == rows[ra]);
        assert(kept[b] == rows[rb]);
    }
    if dates_in_range(rows) {
        assert forall|a: int| 0 <= a < kept.len() implies day_in_range((#[trigger] kept[a]).metric.date) by {
            let ra = if i < rows.len() && a >= i { a + 1 } else { a };
            assert(kept[a] == rows[ra]);
        }
    }
}

proof fn lemma_outside(rows: Seq<RowView>, records: Seq<MetricView>)
    requires
        keys_distinct(rows),
    ensures
        keys_distinct(outside(rows, records)),
        no_keys_of(outside(rows, records), records),
        forall|i: int| 0 <= i < outside(rows, records).len() ==> rows.contains(#[trigger] outside(rows, records)[i]),
    decreases records.len(),
{
    if records.len() > 0 {
        let init = records.drop_last();
        let m = records.last();
        lemma_outside(rows, init);
        let o = outside(rows, init);
        lemma_remove_key(o, m);
        let out = outside(rows, records);
        assert forall|i: int| 0 <= i < out.len() implies rows.contains(#[trigger] out[i]) by {
            assert(o.contains(out[i]));
            let k = choose|k: int| 0 <= k < o.len() && o[k] == out[i];
            assert(rows.contains(o[k]));
        }
        assert forall|i: int, j: int| 0 <= i < out.len() && 0 <= j < records.len() implies !(#[trigger] out[i]).metric.same_key(
            #[trigger] records[j],
        ) by {
            if j < init.len() {
                assert(o.contains(out[i]));
                let k = choose|k: int| 0 <= k < o.len() && o[k] == out[i];
                assert(!o[k].metric.same_key(init[j]));
                assert(init[j] == records[j]);
            }
        }
    }
}

/// Writing records of distinct keys takes the records of these keys out of
/// the store and puts the new ones at its end, in their order.
proof fn lemma_upserted_all(rows: Seq<RowView>, records: Seq<MetricView>, at: Timestamp)
    requires
        keys_distinct(rows),
        records_distinct(records),
    ensures
        upserted_all(rows, records, at) == outside(rows, records) + stamped(records, at),
    decreases records.len(),
{
    if records.len() == 0 {
        assert(rows + stamped(records, at) =~= rows);
    } else {
        let init = records.drop_last();
        let m = records.last();
        let row = RowView { metric: m, updated_at: at };
        assert forall|i: int, j: int| 0 <= i < j < init.len() implies !(#[trigger] init[i]).same_key(
            #[trigger] init[j],
        ) by {
            assert(init[i] == records[i]);
            assert(init[j] == records[j]);
        }
        lemma_upserted_all(rows, init, at);
        lemma_outside(rows, init);
        let o = outside(rows, init);
        let s = stamped(init, at);
        let both = o + s;
        lemma_key_index(o, m);
        let i = key_index(o, m);
        let k = if i < o.len() { i } else { both.len() as int };
        assert forall|a: int| 0 <= a < k implies !(#[trigger] both[a]).metric.same_key(m) by {
            if a < o.len() {
                assert(both[a] == o[a]);
            } else {
                assert(both[a] == s[a - o.len()]);
                assert(s[a - o.len()].metric == records[a - o.len()]);
                assert(!records[a - o.len()].same_key(records[records.len() - 1]));
            }
        }
        if i < o.len() {
            assert(both[i] == o[i]);
        }
        lemma_key_index_is(both, m, k);
        if i < o.len() {
            assert(both.remove(i).push(row) =~= o.remove(i) + s.push(row));
        } else {
            assert(both.push(row) =~= o + s.push(row));
        }
        assert(s.push(row) =~= stamped(records, at));
    }
}

/// Taking the keys of `records` out of a store that holds them only as a
/// block written in their order leaves what stands around the block.
proof fn lemma_outside_of_block(x: Seq<RowView>, records: Seq<MetricView>, at: Timestamp, t: Seq<RowView>)
    requires
        records_distinct(records),
        no_keys_of(x, records),
        no_keys_of(t, records),
    ensures
        outside(x + stamped(records, at) + t, records) == x + t,
    decreases records.len(),
{
    if records.len() == 0 {
        assert(x + stamped(records, at) + t =~= x + t);
    } else {
        let init = records.drop_last();
        let m = records.last();
        let row = RowView { metric: m, updated_at: at };
        let rest = seq![row] + t;
        assert forall|i: int, j: int| 0 <= i < j < init.len() implies !(#[trigger] init[i]).same_key(
            #[trigger] init[j],
        ) by {
            assert(init[i] == records[i]);
            assert(init[j] == records[j]);
        }
        assert forall|i: int, j: int| 0 <= i < x.len() && 0 <= j < init.len() implies !(#[trigger] x[i]).metric.same_key(
            #[trigger] init[j],
        ) by {
            assert(init[j] == records[j]);
        }
        assert forall|i: int, j: int| 0 <= i < rest.len() && 0 <= j < init.len() implies !(#[trigger] rest[i]).metric.same_key(
            #[trigger] init[j],
        ) by {
            assert(init[j] == records[j]);
            if i == 0 {
                assert(rest[0].metric == records[records.len() - 1]);
                assert(!records[j].same_key(records[records.len() - 1]));
            } else {
                assert(rest[i] == t[i - 1]);
            }
        }
        lemma_outside_of_block(x, init, at, rest);
        assert(x + stamped(records, at) + t =~= x + stamped(init, at) + rest);
        let mid = x + rest;
        assert forall|a: int| 0 <= a < x.len() implies !(#[trigger] mid[a]).metric.same_key(m) by {
            assert(mid[a] == x[a]);
            assert(!x[a].metric.same_key(records[records.len() - 1]));
        }
        assert(mid[x.len() as int] == row);
        lemma_key_index_is(mid, m, x.len() as int);
        assert(mid.remove(x.len() as int) =~= x + t);
    }
}

proof fn lemma_upserted_nonempty(rows: Seq<RowView>, records: Seq<MetricView>, at: Timestamp)
    requires
        records.len() > 0,
    ensures
        upserted_all(rows, records, at).len() > 0,
{
}

/// Writing records to a valid store keeps it valid and touches nothing but
/// its records.
pub proof fn lemma_with_metrics(store: StoreView, records: Seq<MetricView>, at: Timestamp)
    requires
        store.valid(),
        records_in_range(records),
    ensures
        with_metrics(store, records, at).valid(),
        with_metrics(store, records, at).metrics == upserted_all(store.metrics, records, at),
        with_metrics(store, records, at).file_meta == store.file_meta,
        with_metrics(store, records, at).tracked_metrics == store.tracked_metrics,
        with_metrics(store, records, at).journal_path == store.journal_path,
        records.len() > 0 ==> with_metrics(store, records, at).metrics.last().metric == records.last(),
    decreases records.len(),
{
    if records.len() > 0 {
        let init = records.drop_last();
        assert forall|i: int| 0 <= i < init.len() implies day_in_range((#[trigger] init[i]).date) by {
            assert(init[i] == records[i]);
        }
        lemma_with_metrics(store, init, at);
        let row = RowView { metric: records.last(), updated_at: at };
        assert(day_in_range(records[records.len() - 1].date));
        lemma_upsert_replaces(with_metrics(store, init, at).metrics, row);
    }
}

/// A file that was ingested and recorded a metric is passed over for as long
/// as its modification time stays the same: to ingest it again changes
/// nothing, neither a value nor a moment.
pub proof fn lemma_unchanged_file_is_skipped(
    store: StoreView,
    path: Seq<char>,
    records: Seq<MetricView>,
    modified: i128,
    at: Timestamp,
)
    requires
        store.valid(),
        records.len() > 0,
        records_of_file(records, path),
        records_in_range(records),
    ensures
        ingested(store, path, records, modified, at).valid(),
        !needs_processing(ingested(store, path, records, modified, at), path, Some(modified)),
{
    lemma_with_metrics(store, records, at);
    let written = with_metrics(store, records, at);
    lemma_file_recorded(written.file_meta, FileMetaView { file_path: path, last_modified: modified });
    let rows = written.metrics;
    assert(rows.len() > 0) by {
        lemma_upserted_nonempty(store.metrics, records, at);
    }
    assert(rows[rows.len() - 1].metric == records[records.len() - 1]);
    assert(rows[rows.len() - 1].metric.file_path == path);
    assert(has_metrics_of(rows, path));
}

/// A file that is ingested a second time at the moment `later`, unchanged,
/// leaves the store with the same metrics in the same order: the values are
/// stable. The records of the file carry the moment `later`, every other
/// record the moment it had.
pub proof fn lemma_reingest_keeps_values(
    store: StoreView,
    path: Seq<char>,
    records: Seq<MetricView>,
    modified: i128,
    at: Timestamp,
    later: Timestamp,
)
    requires
        store.valid(),
        records_distinct(records),
        records_in_range(records),
    ensures
        ({
            let once = ingested(store, path, records, modified, at);
            let twice = ingested(once, path, records, modified, later);
            let kept = outside(store.metrics, records);
            &&& twice.valid()
            &&& once.metrics == kept + stamped(records, at)
            &&& twice.metrics == kept + stamped(records, later)
            &&& twice.metrics.len() == once.metrics.len()
            &&& forall|k: int| 0 <= k < once.metrics.len() ==> (#[trigger] twice.metrics[k]).metric == once.metrics[k].metric
            &&& fingerprint_of(twice.file_meta, path) == Some(modified)
            &&& twice.tracked_metrics == store.tracked_metrics
            &&& twice.journal_path == store.journal_path
        }),
{
    let entry = FileMetaView { file_path: path, last_modified: modified };
    let once = ingested(store, path, records, modified, at);
    let twice = ingested(once, path, records, modified, later);
    let kept = outside(store.metrics, records);
    lemma_with_metrics(store, records, at);
    lemma_file_recorded(store.file_meta, entry);
    assert(once.valid());
    lemma_with_metrics(once, records, later);
    lemma_file_recorded(once.file_meta, entry);
    lemma_upserted_all(store.metrics, records, at);
    lemma_outside(store.metrics, records);
    assert(once.metrics == kept + stamped(records, at));
    lemma_upserted_all(once.metrics, records, later);
    let none = Seq::<RowView>::empty();
    lemma_outside_of_block(kept, records, at, none);
    assert(kept + stamped(records, at) + none =~= kept + stamped(records, at));
    assert(kept + none =~= kept);
    assert(twice.metrics == kept + stamped(records, later));
    assert forall|k: int| 0 <= k < once.metrics.len() implies (#[trigger] twice.metrics[k]).metric
        == once.metrics[k].metric by {
        if k >= kept.len() {
            assert(twice.metrics[k] == stamped(records, later)[k - kept.len()]);
            assert(once.metrics[k] == stamped(records, at)[k - kept.len()]);
        }
    }
}

/// The metrics that a block of lines records are of the file and of the date
/// given, and no two of them have one name.
pub proof fn lemma_block_metrics_distinct(
    block: Seq<Seq<char>>,
    wanted: Seq<Seq<char>>,
    date: Result<int, ExtractError>,
    path: Seq<char>,
)
    ensures
        block_metrics(block, wanted, date, path) matches Ok(records) ==> {
            &&& forall|i: int, j: int| 0 <= i < j < records.len() ==> (#[trigger] records[i]).name != (#[trigger] records[j]).name
            &&& forall|i: int| 0 <= i < records.len() ==> (#[trigger] records[i]).file_path == path && date == Ok::<int, ExtractError>(records[i].date)
        },
    decreases block.len(),
{
    if block.len() > 0 {
        lemma_block_metrics_distinct(block.drop_last(), wanted, date, path);
        match block_metrics(block.drop_last(), wanted, date, path) {
            Ok(before) => {
                if block_metrics(block, wanted, date, path) is Ok && before != block_metrics(block, wanted, date, path)->Ok_0 {
                    let m = dated_line_metric(block.last(), date, path)->Ok_0;
                    let same = |r: MetricView| r.name == m.name;
                    lemma_first_index(before, same);
                    let i = first_index(before, same);
                    let kept = if i < before.len() { before.remove(i) } else { before };
                    let after = put_metric(before, m);
                    assert(after == kept.push(m));
                    assert forall|a: int| 0 <= a < kept.len() implies (#[trigger] kept[a]).name != m.name && kept[a].file_path
                        == path && date == Ok::<int, ExtractError>(kept[a].date) by {
                        if i < before.len() && a >= i {
                            assert(kept[a] == before[a + 1]);
                            assert(before[i].name != before[a + 1].name);
                        } else {
                            assert(kept[a] == before[a]);
                            if i < before.len() {
                                assert(before[a].name != before[i].name);
                            } else {
                                assert(!same(before[a]));
                            }
                        }
                    }
                    assert forall|a: int, b: int| 0 <= a < b < after.len() implies (#[trigger] after[a]).name != (
                    #[trigger] after[b]).name by {
                        if b < kept.len() {
                            let ra = if i < before.len() && a >= i { a + 1 } else { a };
                            let rb = if i < before.len() && b >= i { b + 1 } else { b };
                            assert(after[a] == before[ra]);
                            assert(after[b] == before[rb]);
                        } else {
                            assert(after[a] == kept[a]);
                        }
                    }
                    assert forall|a: int| 0 <= a < after.len() implies (#[trigger] after[a]).file_path == path && date
                        == Ok::<int, ExtractError>(after[a].date) by {
                        if a < kept.len() {
                            assert(after[a] == kept[a]);
                        }
                    }
                }
            },
            Err(_) => {},
        }
    }
}

/// Round trip: what a file records can be ingested twice. The first time it
/// is written; as long as the file stays unchanged and recorded a metric it
/// is then passed over; and where it is ingested again all the same, at the
/// moment `later`, the store holds the same metrics in the same order.
pub proof fn lemma_round_trip(
    store: StoreView,
    lines: Seq<Seq<char>>,
    wanted: Seq<Seq<char>>,
    stem: Option<Seq<char>>,
    path: Seq<char>,
    modified: i128,
    at: Timestamp,
    later: Timestamp,
)
    requires
        store.valid(),
        file_metrics(lines, wanted, stem, path) is Ok,
        stem_date(stem) matches Ok(day) ==> day_in_range(day),
    ensures
        ({
            let records = file_metrics(lines, wanted, stem, path)->Ok_0;
            let once = ingested(store, path, records, modified, at);
            let twice = ingested(once, path, records, modified, later);
            &&& once.valid()
            &&& records.len() > 0 ==> !needs_processing(once, path, Some(modified))
            &&& twice.metrics.len() == once.metrics.len()
            &&& forall|k: int| 0 <= k < once.metrics.len() ==> (#[trigger] twice.metrics[k]).metric == once.metrics[k].metric
        }),
{
    let records = file_metrics(lines, wanted, stem, path)->Ok_0;
    lemma_block_metrics_distinct(front_matter(lines), wanted, stem_date(stem), path);
    assert forall|i: int, j: int| 0 <= i < j < records.len() implies !(#[trigger] records[i]).same_key(
        #[trigger] records[j],
    ) by {
        assert(records[i].name != records[j].name);
    }
    assert forall|i: int| 0 <= i < records.len() implies day_in_range((#[trigger] records[i]).date) by {
        assert(stem_date(stem) == Ok::<int, ExtractError>(records[i].date));
    }
    lemma_with_metrics(store, records, at);
    lemma_file_recorded(store.file_meta, FileMetaView { file_path: path, last_modified: modified });
    if records.len() > 0 {
        lemma_unchanged_file_is_skipped(store, path, records, modified, at);
    }
    lemma_reingest_keeps_values(store, path, records, modified, at, later);
}

} // verus!
