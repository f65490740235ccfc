//! The metric store: the records read from journal files, the fingerprint of
//! each file, the names of the tracked metrics and the journal root.
//!
//! The store keeps its records in the order in which they were last written.
//! Writing a record whose file, name and date are already there takes the
//! earlier record out and puts the new one at the end, so the store never
//! holds two records for one file, name and date.

use crate::date::{day_in_range, Date, Timestamp};
use vstd::prelude::*;

verus! {

/// One metric read from a journal file.
#[derive(Debug)]
pub struct Metric {
    pub name: String,
    pub value: u32,
    pub date: Date,
    pub file_path: String,
}

/// A [`Metric`] as the store holds it, with the moment it was last written.
#[derive(Debug)]
pub struct StoredMetric {
    pub metric: Metric,
    pub updated_at: Timestamp,
}

/// The last modification time that was seen of a file, in nanoseconds since
/// the Unix epoch: the time as the file system gives it, so that every change
/// of it shows.
#[derive(Debug)]
pub struct FileMeta {
    pub file_path: String,
    pub last_modified: i128,
}

/// What a [`Metric`] holds.
pub struct MetricView {
    pub name: Seq<char>,
    pub value: u32,
    pub date: int,
    pub file_path: Seq<char>,
}

/// What a [`StoredMetric`] holds.
pub struct RowView {
    pub metric: MetricView,
    pub updated_at: Timestamp,
}

/// What a [`FileMeta`] holds.
pub struct FileMetaView {
    pub file_path: Seq<char>,
    pub last_modified: i128,
}

impl View for Metric {
    type V = MetricView;

    open spec fn view(&self) -> MetricView {
        MetricView { name: self.name@, value: self.value, date: self.date@, file_path: self.file_path@ }
    }
}

impl View for StoredMetric {
    type V = RowView;

    open spec fn view(&self) -> RowView {
        RowView { metric: self.metric@, updated_at: self.updated_at }
    }
}

impl View for FileMeta {
    type V = FileMetaView;

    open spec fn view(&self) -> FileMetaView {
        FileMetaView { file_path: self.file_path@, last_modified: self.last_modified }
    }
}

impl Metric {
    /// A copy of this metric.
    pub fn duplicate(&self) -> (r: Metric)
        ensures
            r@ == self@,
    {
        Metric {
            name: self.name.clone(),
            value: self.value,
            date: self.date,
            file_path: self.file_path.clone(),
        }
    }
}

impl MetricView {
    /// Whether this metric and `other` are of one file, name and date.
    pub open spec fn same_key(self, other: MetricView) -> bool {
        self.file_path == other.file_path && self.name == other.name && self.date == other.date
    }
}

/// The index of the first record of `rows` with the file, name and date of
/// `m`; the length of `rows` where there is none.
pub open spec fn key_index(rows: Seq<RowView>, m: MetricView) -> int
    decreases rows.len(),
{
    if rows.len() == 0 || rows[0].metric.same_key(m) {
        0
    } else {
        1 + key_index(rows.skip(1), m)
    }
}

/// Whether no two records of `rows` are of one file, name and date.
pub open spec fn keys_distinct(rows: Seq<RowView>) -> bool {
    forall|i: int, j: int|
        0 <= i < j < rows.len() ==> !(#[trigger] rows[i]).metric.same_key((#[trigger] rows[j]).metric)
}

/// Whether the date of every record of `rows` is one that a [`Date`] can hold.
pub open spec fn dates_in_range(rows: Seq<RowView>) -> bool {
    forall|i: int| 0 <= i < rows.len() ==> day_in_range((#[trigger] rows[i]).metric.date)
}

/// `rows` after `row` was written: without the record of the same file, name
/// and date, and with `row` at the end.
pub open spec fn upserted(rows: Seq<RowView>, row: RowView) -> Seq<RowView> {
    let i = key_index(rows, row.metric);
    if i < rows.len() {
        rows.remove(i).push(row)
    } else {
        rows.push(row)
    }
}

/// The index of the first entry of `files` for `path`; the length of `files`
/// where there is none.
pub open spec fn file_index(files: Seq<FileMetaView>, path: Seq<char>) -> int
    decreases files.len(),
{
    if files.len() == 0 || files[0].file_path == path {
        0
    } else {
        1 + file_index(files.skip(1), path)
    }
}

/// Whether no two entries of `files` are for one path.
pub open spec fn paths_distinct(files: Seq<FileMetaView>) -> bool {
    forall|i: int, j: int|
        0 <= i < j < files.len() ==> (#[trigger] files[i]).file_path != (#[trigger] files[j]).file_path
}

/// `files` after `entry` was written: without the entry for the same path,
/// and with `entry` at the end.
pub open spec fn file_recorded(files: Seq<FileMetaView>, entry: FileMetaView) -> Seq<FileMetaView> {
    let i = file_index(files, entry.file_path);
    if i < files.len() {
        files.remove(i).push(entry)
    } else {
        files.push(entry)
    }
}

/// The fingerprint that `files` holds for `path`.
pub open spec fn fingerprint_of(files: Seq<FileMetaView>, path: Seq<char>) -> Option<i128> {
    let i = file_index(files, path);
    if i < files.len() {
        Some(files[i].last_modified)
    } else {
        None
    }
}

/// Whether `rows` holds a record read from the file `path`.
pub open spec fn has_metrics_of(rows: Seq<RowView>, path: Seq<char>) -> bool {
    exists|i: int| 0 <= i < rows.len() && (#[trigger] rows[i]).metric.file_path == path
}

/// The index of the first `name` in `names`; the length of `names` where
/// there is none.
pub open spec fn name_index(names: Seq<Seq<char>>, name: Seq<char>) -> int
    decreases names.len(),
{
    if names.len() == 0 || names[0] == name {
        0
    } else {
        1 + name_index(names.skip(1), name)
    }
}

/// The records of `rows` whose name is not `name`, in their order.
pub open spec fn without_name(rows: Seq<RowView>, name: Seq<char>) -> Seq<RowView>
    decreases rows.len(),
{
    if rows.len() == 0 {
        rows
    } else if rows.last().metric.name == name {
        without_name(rows.drop_last(), name)
    } else {
        without_name(rows.drop_last(), name).push(rows.last())
    }
}

/// The record `r` with the name `new` where its name is `prev`.
pub open spec fn renamed_row(r: RowView, prev: Seq<char>, new: Seq<char>) -> RowView {
    if r.metric.name == prev {
        RowView { metric: MetricView { name: new, ..r.metric }, ..r }
    } else {
        r
    }
}

/// `rows` with the name `new` in place of the name `prev`.
pub open spec fn renamed(rows: Seq<RowView>, prev: Seq<char>, new: Seq<char>) -> Seq<RowView> {
    Seq::new(rows.len(), |i: int| renamed_row(rows[i], prev, new))
}

/// Whether the records at `i` and `j` would be of one file, name and date
/// were the name `prev` changed to `new`.
pub open spec fn clash_at(rows: Seq<RowView>, prev: Seq<char>, new: Seq<char>, i: int, j: int) -> bool {
    &&& 0 <= i < rows.len()
    &&& 0 <= j < rows.len()
    &&& rows[i].metric.name == prev
    &&& rows[j].metric.name == new
    &&& rows[i].metric.file_path == rows[j].metric.file_path
    &&& rows[i].metric.date == rows[j].metric.date
}

/// Whether changing the name `prev` to `new` would give two records of one
/// file, name and date.
pub open spec fn rename_clashes(rows: Seq<RowView>, prev: Seq<char>, new: Seq<char>) -> bool {
    prev != new && exists|i: int, j: int| clash_at(rows, prev, new, i, j)
}

/// `names` with `new` in place of `prev`.
pub open spec fn names_renamed(names: Seq<Seq<char>>, prev: Seq<char>, new: Seq<char>) -> Seq<Seq<char>> {
    let i = name_index(names, prev);
    if i < names.len() {
        names.update(i, new)
    } else {
        names
    }
}

/// Why a metric could not be renamed.
#[derive(Clone, Copy, Debug, PartialEq, Eq, Structural)]
pub enum RenameError {
    /// A file holds a record of the new name for a date for which it holds
    /// one of the old name. Nothing was changed.
    RecordExists,
    /// The new name is tracked already. The records were renamed; the
    /// tracked names were left as they were.
    AlreadyTracked,
}

/// Renaming without a clash keeps the keys distinct.
pub proof fn lemma_renamed_distinct(rows: Seq<RowView>, prev: Seq<char>, new: Seq<char>)
    requires
        keys_distinct(rows),
        !rename_clashes(rows, prev, new),
    ensures
        keys_distinct(renamed(rows, prev, new)),
        dates_in_range(rows) ==> dates_in_range(renamed(rows, prev, new)),
{
    let out = renamed(rows, prev, new);
    assert forall|i: int, j: int| 0 <= i < j < out.len() implies !(#[trigger] out[i]).metric.same_key(
        (#[trigger] out[j]).metric,
    ) by {
        assert(!rows[i].metric.same_key(rows[j].metric));
        if prev != new && out[i].metric.same_key(out[j].metric) {
            if rows[i].metric.name == prev && rows[j].metric.name != prev {
                assert(clash_at(rows, prev, new, i, j));
            }
            if rows[j].metric.name == prev && rows[i].metric.name != prev {
                assert(clash_at(rows, prev, new, j, i));
            }
        }
    }
    if dates_in_range(rows) {
        assert forall|i: int| 0 <= i < out.len() implies day_in_range((#[trigger] out[i]).metric.date) by {
            assert(day_in_range(rows[i].metric.date));
        }
    }
}

/// What a [`MetricStore`] holds.
pub struct StoreView {
    pub metrics: Seq<RowView>,
    pub file_meta: Seq<FileMetaView>,
    pub tracked_metrics: Seq<Seq<char>>,
    pub journal_path: Option<Seq<char>>,
}

impl StoreView {
    /// This store after `row` was written to it.
    pub open spec fn with_metric(self, row: RowView) -> StoreView {
        StoreView { metrics: upserted(self.metrics, row), ..self }
    }

    /// This store after the fingerprint `entry` was written to it.
    pub open spec fn with_file(self, entry: FileMetaView) -> StoreView {
        StoreView { file_meta: file_recorded(self.file_meta, entry), ..self }
    }

    /// This store after `name` was added to the tracked metrics.
    pub open spec fn with_tracked(self, name: Seq<char>) -> StoreView {
        if self.tracked_metrics.contains(name) {
            self
        } else {
            StoreView { tracked_metrics: self.tracked_metrics.push(name), ..self }
        }
    }

    /// This store after the metric `name` and its records were deleted.
    pub open spec fn without_metric(self, name: Seq<char>) -> StoreView {
        let i = name_index(self.tracked_metrics, name);
        StoreView {
            metrics: without_name(self.metrics, name),
            tracked_metrics: if i < self.tracked_metrics.len() {
                self.tracked_metrics.remove(i)
            } else {
                self.tracked_metrics
            },
            ..self
        }
    }

    /// Whether the store holds no key twice.
    pub open spec fn valid(self) -> bool {
        &&& keys_distinct(self.metrics)
        &&& dates_in_range(self.metrics)
        &&& paths_distinct(self.file_meta)
        &&& self.tracked_metrics.no_duplicates()
    }
}

/// The views of the records of `v`.
pub open spec fn rows_of(v: Seq<StoredMetric>) -> Seq<RowView> {
    Seq::new(v.len(), |i: int| v[i]@)
}

/// The views of the fingerprints of `v`.
pub open spec fn files_of(v: Seq<FileMeta>) -> Seq<FileMetaView> {
    Seq::new(v.len(), |i: int| v[i]@)
}

/// The texts of `v`.
pub open spec fn texts_of(v: Seq<String>) -> Seq<Seq<char>> {
    Seq::new(v.len(), |i: int| v[i]@)
}

/// The text of `s`, if there is one.
pub open spec fn text_of(s: Option<String>) -> Option<Seq<char>> {
    match s {
        Some(t) => Some(t@),
        None => None,
    }
}

/// The store.
pub struct MetricStore {
    metrics: Vec<StoredMetric>,
    file_meta: Vec<FileMeta>,
    tracked_metrics: Vec<String>,
    journal_path: Option<String>,
}

impl View for MetricStore {
    type V = StoreView;

    closed spec fn view(&self) -> StoreView {
        StoreView {
            metrics: rows_of(self.metrics@),
            file_meta: files_of(self.file_meta@),
            tracked_metrics: texts_of(self.tracked_metrics@),
            journal_path: text_of(self.journal_path),
        }
    }
}

pub proof fn lemma_key_index(rows: Seq<RowView>, m: MetricView)
    ensures
        0 <= key_index(rows, m) <= rows.len(),
        key_index(rows, m) < rows.len() ==> rows[key_index(rows, m)].metric.same_key(m),
        forall|i: int| 0 <= i < key_index(rows, m) ==> !(#[trigger] rows[i]).metric.same_key(m),
    decreases rows.len(),
{
    if rows.len() == 0 || rows[0].metric.same_key(m) {
    } else {
        let t = rows.skip(1);
        lemma_key_index(t, m);
        assert forall|i: int| 0 <= i < key_index(rows, m) implies !(#[trigger] rows[i]).metric.same_key(m) by {
            if i > 0 {
                assert(rows[i] == t[i - 1]);
            }
        }
    }
}

pub proof fn lemma_file_index(files: Seq<FileMetaView>, path: Seq<char>)
    ensures
        0 <= file_index(files, path) <= files.len(),
        file_index(files, path) < files.len() ==> files[file_index(files, path)].file_path == path,
        forall|i: int| 0 <= i < file_index(files, path) ==> (#[trigger] files[i]).file_path != path,
    decreases files.len(),
{
    if files.len() == 0 || files[0].file_path == path {
    } else {
        let t = files.skip(1);
        lemma_file_index(t, path);
        assert forall|i: int| 0 <= i < file_index(files, path) implies (#[trigger] files[i]).file_path != path by {
            if i > 0 {
                assert(files[i] == t[i - 1]);
            }
        }
    }
}

pub proof fn lemma_name_index(names: Seq<Seq<char>>, name: Seq<char>)
    ensures
        0 <= name_index(names, name) <= names.len(),
        name_index(names, name) < names.len() ==> names[name_index(names, name)] == name,
        forall|i: int| 0 <= i < name_index(names, name) ==> #[trigger] names[i] != name,
        name_index(names, name) < names.len() <==> names.contains(name),
    decreases names.len(),
{
    if names.len() == 0 || names[0] == name {
        if names.len() > 0 {
            assert(names.contains(name));
        }
    } else {
        let t = names.skip(1);
        lemma_name_index(t, name);
        assert forall|i: int| 0 <= i < name_index(names, name) implies #[trigger] names[i] != name by {
            if i > 0 {
                assert(names[i] == t[i - 1]);
            }
        }
        if t.contains(name) {
            let k = choose|k: int| 0 <= k < t.len() && t[k] == name;
            assert(names[k + 1] == name);
        }
        if names.contains(name) {
            let k = choose|k: int| 0 <= k < names.len() && names[k] == name;
            assert(t[k - 1] == name);
        }
    }
}

/// Writing a record keeps the keys distinct. The record written is in the
/// store afterwards, no other record of its file, name and date is, and every
/// record of another key is there exactly if it was there before.
pub proof fn lemma_upsert_replaces(rows: Seq<RowView>, row: RowView)
    requires
        keys_distinct(rows),
    ensures
        keys_distinct(upserted(rows, row)),
        upserted(rows, row).last() == row,
        dates_in_range(rows) && day_in_range(row.metric.date) ==> dates_in_range(upserted(rows, row)),
        forall|r: RowView| #[trigger]
            upserted(rows, row).contains(r) <==> (r == row || (rows.contains(r) && !r.metric.same_key(
                row.metric,
            ))),
{
    lemma_key_index(rows, row.metric);
    let i = key_index(rows, row.metric);
    let after = upserted(rows, row);
    let kept = if i < rows.len() { rows.remove(i) } else { rows };
    assert(after == kept.push(row));
    assert forall|a: int| 0 <= a < kept.len() implies !(#[trigger] kept[a]).metric.same_key(row.metric)
        && rows.contains(kept[a]) by {
        if i < rows.len() && a >= i {
            assert(kept[a] == rows[a + 1]);
            assert(!rows[i].metric.same_key(rows[a + 1].metric));
        } else {
            assert(kept[a] == rows[a]);
            if i < rows.len() {
                assert(!rows[a].metric.same_key(rows[i].metric));
            }
        }
    }
    assert forall|a: int, b: int| 0 <= a < b < after.len() implies !(#[trigger] after[a]).metric.same_key(
        (#[trigger] after[b]).metric,
    ) by {
        if b < kept.len() {
            let ra = if i < rows.len() && a >= i { a + 1 } else { a };
            let rb = if i < rows.len() && b >= i { b + 1 } else { b };
            assert(after[a] == rows[ra]);
            assert(after[b] == rows[rb]);
        } else {
            assert(after[a] == kept[a]);
        }
    }
    if dates_in_range(rows) && day_in_range(row.metric.date) {
        assert forall|a: int| 0 <= a < after.len() implies day_in_range((#[trigger] after[a]).metric.date) by {
            if a < kept.len() {
                let ra = if i < rows.len() && a >= i { a + 1 } else { a };
                assert(after[a] == rows[ra]);
            }
        }
    }
    assert forall|r: RowView| #[trigger]
        after.contains(r) <==> (r == row || (rows.contains(r) && !r.metric.same_key(row.metric))) by {
        if after.contains(r) {
            let k = choose|k: int| 0 <= k < after.len() && after[k] == r;
            if k < kept.len() {
                assert(after[k] == kept[k]);
            }
        }
        if r == row {
            assert(after[after.len() - 1] == r);
        }
        if rows.contains(r) && !r.metric.same_key(row.metric) {
            let k = choose|k: int| 0 <= k < rows.len() && rows[k] == r;
            if i < rows.len() && k > i {
                assert(kept[k - 1] == r);
                assert(after[k - 1] == r);
            } else {
                assert(k != i);
                assert(kept[k] == r);
                assert(after[k] == r);
            }
        }
    }
}

/// Recording a fingerprint keeps the paths distinct, and the fingerprint
/// recorded is the one found for its path afterwards.
pub proof fn lemma_file_recorded(files: Seq<FileMetaView>, entry: FileMetaView)
    requires
        paths_distinct(files),
    ensures
        paths_distinct(file_recorded(files, entry)),
        fingerprint_of(file_recorded(files, entry), entry.file_path) == Some(entry.last_modified),
        forall|p: Seq<char>|
            p != entry.file_path ==> #[trigger] fingerprint_of(file_recorded(files, entry), p)
                == fingerprint_of(files, p),
{
    lemma_file_index(files, entry.file_path);
    let i = file_index(files, entry.file_path);
    let after = file_recorded(files, entry);
    let kept = if i < files.len() { files.remove(i) } else { files };
    assert(after == kept.push(entry));
    assert forall|a: int| 0 <= a < kept.len() implies (#[trigger] kept[a]).file_path != entry.file_path by {
        if i < files.len() && a >= i {
            assert(kept[a] == files[a + 1]);
            assert(files[i].file_path != files[a + 1].file_path);
        } else {
            assert(kept[a] == files[a]);
            if i < files.len() {
                assert(files[a].file_path != files[i].file_path);
            }
        }
    }
    assert forall|a: int, b: int| 0 <= a < b < after.len() implies (#[trigger] after[a]).file_path != (
    #[trigger] after[b]).file_path by {
        if b < kept.len() {
            let ra = if i < files.len() && a >= i { a + 1 } else { a };
            let rb = if i < files.len() && b >= i { b + 1 } else { b };
            assert(after[a] == files[ra]);
            assert(after[b] == files[rb]);
        } else {
            assert(after[a] == kept[a]);
        }
    }
    lemma_file_index(after, entry.file_path);
    let j = file_index(after, entry.file_path);
    if j < kept.len() {
        assert(after[j] == kept[j]);
    }
    assert(after[kept.len() as int] == entry);
    assert forall|p: Seq<char>| p != entry.file_path implies #[trigger] fingerprint_of(after, p)
        == fingerprint_of(files, p) by {
        lemma_file_index(after, p);
        lemma_file_index(files, p);
        let x = file_index(files, p);
        let y = file_index(after, p);
        if x < files.len() {
            let kx = if i < files.len() && x > i { x - 1 } else { x };
            assert(x != i);
            assert(kept[kx] == files[x]);
            assert(after[kx] == files[x]);
            assert(y <= kx);
            let ry = if i < files.len() && y >= i { y + 1 } else { y };
            assert(after[y] == kept[y]);
            assert(kept[y] == files[ry]);
            assert(ry >= x);
        } else {
            if y < after.len() {
                if y < kept.len() {
                    let ry = if i < files.len() && y >= i { y + 1 } else { y };
                    assert(after[y] == kept[y]);
                    assert(kept[y] == files[ry]);
                } else {
                    assert(after[y] == entry);
                }
            }
        }
    }
}

/// Whether `a` and `b` hold the same text.
pub fn same_text(a: &str, b: &str) -> (r: bool)
    ensures
        r == (a@ == b@),
{
    a.to_owned() == b.to_owned()
}

impl MetricStore {
    /// An empty store.
    pub fn new() -> (r: MetricStore)
        ensures
            r@.valid(),
            r@.metrics.len() == 0,
            r@.file_meta.len() == 0,
            r@.tracked_metrics.len() == 0,
            r@.journal_path is None,
    {
        MetricStore {
            metrics: Vec::new(),
            file_meta: Vec::new(),
            tracked_metrics: Vec::new(),
            journal_path: None,
        }
    }

    /// The records of the store, in the order in which they were last written.
    pub fn metrics(&self) -> (r: &Vec<StoredMetric>)
        ensures
            rows_of(r@) == self@.metrics,
    {
        &self.metrics
    }

    /// The fingerprints of the store, in the order in which they were last written.
    pub fn file_meta(&self) -> (r: &Vec<FileMeta>)
        ensures
            files_of(r@) == self@.file_meta,
    {
        &self.file_meta
    }

    /// The names of the tracked metrics, in the order in which they were added.
    pub fn tracked_metrics(&self) -> (r: &Vec<String>)
        ensures
            texts_of(r@) == self@.tracked_metrics,
    {
        &self.tracked_metrics
    }

    /// The journal root, if one is set.
    pub fn journal_path(&self) -> (r: &Option<String>)
        ensures
            text_of(*r) == self@.journal_path,
    {
        &self.journal_path
    }

    fn find_metric(&self, metric: &Metric) -> (i: usize)
        ensures
            i == key_index(self@.metrics, metric@),
            i <= self.metrics.len(),
    {
        let ghost rows = rows_of(self.metrics@);
        let mut i: usize = 0;
        while i < self.metrics.len()
            invariant
                i <= self.metrics.len(),
                rows_of(self.metrics@) == rows,
                forall|j: int| 0 <= j < i ==> !(#[trigger] rows[j]).metric.same_key(metric@),
            decreases self.metrics.len() - i,
        {
            let r = &self.metrics[i];
            assert(rows[i as int] == self.metrics@[i as int]@);
            if r.metric.file_path == metric.file_path && r.metric.name == metric.name
                && r.metric.date.days() == metric.date.days() {
                proof {
                    lemma_key_index(rows, metric@);
                }
                return i;
            }
            i += 1;
        }
        proof {
            lemma_key_index(rows, metric@);
        }
        i
    }

    fn find_file(&self, path: &String) -> (i: usize)
        ensures
            i == file_index(self@.file_meta, path@),
            i <= self.file_meta.len(),
    {
        let ghost files = files_of(self.file_meta@);
        let mut i: usize = 0;
        while i < self.file_meta.len()
            invariant
                i <= self.file_meta.len(),
                files_of(self.file_meta@) == files,
                forall|j: int| 0 <= j < i ==> (#[trigger] files[j]).file_path != path@,
            decreases self.file_meta.len() - i,
        {
            assert(files[i as int] == self.file_meta@[i as int]@);
            if self.file_meta[i].file_path == *path {
                proof {
                    lemma_file_index(files, path@);
                }
                return i;
            }
            i += 1;
        }
        proof {
            lemma_file_index(files, path@);
        }
        i
    }

    fn find_tracked(&self, name: &String) -> (i: usize)
        ensures
            i == name_index(self@.tracked_metrics, name@),
            i <= self.tracked_metrics.len(),
    {
        let ghost names = texts_of(self.tracked_metrics@);
        let mut i: usize = 0;
        while i < self.tracked_metrics.len()
            invariant
                i <= self.tracked_metrics.len(),
                texts_of(self.tracked_metrics@) == names,
                forall|j: int| 0 <= j < i ==> #[trigger] names[j] != name@,
            decreases self.tracked_metrics.len() - i,
        {
            assert(names[i as int] == self.tracked_metrics@[i as int]@);
            if self.tracked_metrics[i] == *name {
                proof {
                    lemma_name_index(names, name@);
                }
                return i;
            }
            i += 1;
        }
        proof {
            lemma_name_index(names, name@);
        }
        i
    }

    /// Writes `metric` with the moment `updated_at`, in place of the record of
    /// the same file, name and date if there is one.
    pub fn upsert_metric(&mut self, metric: Metric, updated_at: Timestamp)
        requires
            old(self)@.valid(),
        ensures
            final(self)@.valid(),
            final(self)@ == old(self)@.with_metric((RowView { metric: metric@, updated_at })),
    {
        let ghost row = RowView { metric: metric@, updated_at };
        let ghost before = rows_of(self.metrics@);
        let _ = metric.date.days();
        let i = self.find_metric(&metric);
        proof {
            lemma_upsert_replaces(before, row);
        }
        if i < self.metrics.len() {
            self.metrics.remove(i);
            assert(rows_of(self.metrics@) =~= before.remove(i as int));
        }
        let ghost kept = rows_of(self.metrics@);
        self.metrics.push(StoredMetric { metric, updated_at });
        assert(rows_of(self.metrics@) =~= kept.push(row));
    }

    /// Records `last_modified` as the fingerprint of the file `path`, in place
    /// of the one recorded before if there is one.
    pub fn record_file(&mut self, path: &str, last_modified: i128)
        requires
            old(self)@.valid(),
        ensures
            final(self)@.valid(),
            final(self)@ == old(self)@.with_file((FileMetaView { file_path: path@, last_modified })),
    {
        let ghost entry = FileMetaView { file_path: path@, last_modified };
        let ghost before = files_of(self.file_meta@);
        let owned = path.to_owned();
        let i = self.find_file(&owned);
        proof {
            lemma_file_recorded(before, entry);
        }
        if i < self.file_meta.len() {
            self.file_meta.remove(i);
            assert(files_of(self.file_meta@) =~= before.remove(i as int));
        }
        let ghost kept = files_of(self.file_meta@);
        self.file_meta.push(FileMeta { file_path: owned, last_modified });
        assert(files_of(self.file_meta@) =~= kept.push(entry));
    }

    /// The fingerprint recorded for the file `path`.
    pub fn fingerprint(&self, path: &str) -> (r: Option<i128>)
        ensures
            r == fingerprint_of(self@.file_meta, path@),
    {
        let owned = path.to_owned();
        let i = self.find_file(&owned);
        if i < self.file_meta.len() {
            assert(files_of(self.file_meta@)[i as int] == self.file_meta@[i as int]@);
            Some(self.file_meta[i].last_modified)
        } else {
            None
        }
    }

    /// Whether the store holds a record read from the file `path`.
    pub fn has_metrics_for(&self, path: &str) -> (r: bool)
        ensures
            r == has_metrics_of(self@.metrics, path@),
    {
        let ghost rows = rows_of(self.metrics@);
        let owned = path.to_owned();
        let mut i: usize = 0;
        while i < self.metrics.len()
            invariant
                i <= self.metrics.len(),
                rows_of(self.metrics@) == rows,
                owned@ == path@,
                forall|j: int| 0 <= j < i ==> (#[trigger] rows[j]).metric.file_path != path@,
            decreases self.metrics.len() - i,
        {
            assert(rows[i as int] == self.metrics@[i as int]@);
            if self.metrics[i].metric.file_path == owned {
                return true;
            }
            i += 1;
        }
        false
    }

    /// Adds `name` to the tracked metrics, unless it is tracked already.
    pub fn track(&mut self, name: &str)
        requires
            old(self)@.valid(),
        ensures
            final(self)@.valid(),
            final(self)@ == old(self)@.with_tracked(name@),
    {
        let ghost names = texts_of(self.tracked_metrics@);
        let owned = name.to_owned();
        let i = self.find_tracked(&owned);
        proof {
            lemma_name_index(names, name@);
        }
        if i == self.tracked_metrics.len() {
            self.tracked_metrics.push(owned);
            assert(texts_of(self.tracked_metrics@) =~= names.push(name@));
            assert(names.push(name@).no_duplicates());
        }
    }

    /// Deletes the metric `name`: every record of that name, and the name
    /// among the tracked metrics.
    pub fn forget(&mut self, name: &str)
        requires
            old(self)@.valid(),
        ensures
            final(self)@.valid(),
            final(self)@ == old(self)@.without_metric(name@),
    {
        let ghost names = texts_of(self.tracked_metrics@);
        let ghost rows = rows_of(self.metrics@);
        let owned = name.to_owned();
        let i = self.find_tracked(&owned);
        if i < self.tracked_metrics.len() {
            self.tracked_metrics.remove(i);
            assert(texts_of(self.tracked_metrics@) =~= names.remove(i as int));
            proof {
                let after = names.remove(i as int);
                assert forall|a: int, b: int| 0 <= a < after.len() && 0 <= b < after.len() && a != b implies after[a]
                    != after[b] by {
                    let ra = if a >= i { a + 1 } else { a };
                    let rb = if b >= i { b + 1 } else { b };
                    assert(after[a] == names[ra]);
                    assert(after[b] == names[rb]);
                }
            }
        }
        let mut kept: Vec<StoredMetric> = Vec::new();
        let mut k: usize = 0;
        while k < self.metrics.len()
            invariant
                k <= self.metrics.len(),
                rows_of(self.metrics@) == rows,
                owned@ == name@,
                rows_of(kept@) == without_name(rows.take(k as int), name@),
            decreases self.metrics.len() - k,
        {
            let r = &self.metrics[k];
            let ghost prev = rows_of(kept@);
            proof {
                assert(rows[k as int] == r@);
                let t = rows.take(k as int + 1);
                assert(t.drop_last() =~= rows.take(k as int));
                assert(t.last() == rows[k as int]);
            }
            if !(r.metric.name == owned) {
                kept.push(StoredMetric { metric: r.metric.duplicate(), updated_at: r.updated_at });
                assert(rows_of(kept@) =~= prev.push(rows[k as int]));
            }
            k += 1;
        }
        proof {
            assert(rows.take(rows.len() as int) =~= rows);
            lemma_without_name_keeps_distinct(rows, name@);
        }
        self.metrics = kept;
    }

    /// Renames the metric `prev` to `new`, in the records and among the
    /// tracked names. Where a file holds a record of the new name for a date
    /// for which it holds one of the old name, nothing is changed. Where the
    /// records can be renamed but both names are tracked, the records are
    /// renamed and the tracked names are left as they were.
    pub fn rename(&mut self, prev: &str, new: &str) -> (r: Result<(), RenameError>)
        requires
            old(self)@.valid(),
        ensures
            final(self)@.valid(),
            final(self)@.file_meta == old(self)@.file_meta,
            final(self)@.journal_path == old(self)@.journal_path,
            rename_clashes(old(self)@.metrics, prev@, new@) ==> r == Err::<(), RenameError>(RenameError::RecordExists)
                && final(self)@ == old(self)@,
            !rename_clashes(old(self)@.metrics, prev@, new@) ==> {
                let names = old(self)@.tracked_metrics;
                let both = prev@ != new@ && names.contains(prev@) && names.contains(new@);
                &&& final(self)@.metrics == renamed(old(self)@.metrics, prev@, new@)
                &&& both ==> r == Err::<(), RenameError>(RenameError::AlreadyTracked) && final(self)@.tracked_metrics
                    == old(self)@.tracked_metrics
                &&& !both ==> r is Ok && final(self)@.tracked_metrics == names_renamed(
                    old(self)@.tracked_metrics,
                    prev@,
                    new@,
                )
            },
    {
        let ghost rows = rows_of(self.metrics@);
        let ghost names = texts_of(self.tracked_metrics@);
        let old_name = prev.to_owned();
        let new_name = new.to_owned();
        let differ: bool = !(old_name == new_name);
        let mut i: usize = 0;
        while differ && i < self.metrics.len()
            invariant
                i <= self.metrics.len(),
                rows_of(self.metrics@) == rows,
                self@.valid(),
                self@ == old(self)@,
                old_name@ == prev@,
                new_name@ == new@,
                differ == (prev@ != new@),
                forall|a: int, b: int| 0 <= a < i ==> !clash_at(rows, prev@, new@, a, b),
            decreases self.metrics.len() - i,
        {
            let r = &self.metrics[i];
            assert(rows[i as int] == r@);
            if r.metric.name == old_name {
                let probe = Metric {
                    name: new_name.clone(),
                    value: 0,
                    date: r.metric.date,
                    file_path: r.metric.file_path.clone(),
                };
                let j = self.find_metric(&probe);
                proof {
                    lemma_key_index(rows, probe@);
                }
                if j < self.metrics.len() {
                    assert(clash_at(rows, prev@, new@, i as int, j as int));
                    return Err(RenameError::RecordExists);
                }
                assert forall|b: int| !clash_at(rows, prev@, new@, i as int, b) by {
                    if clash_at(rows, prev@, new@, i as int, b) {
                        assert(rows[b].metric.same_key(probe@));
                    }
                }
            }
            i += 1;
        }
        proof {
            lemma_renamed_distinct(rows, prev@, new@);
        }
        let mut out: Vec<StoredMetric> = Vec::new();
        let mut k: usize = 0;
        while k < self.metrics.len()
            invariant
                k <= self.metrics.len(),
                rows_of(self.metrics@) == rows,
                old_name@ == prev@,
                new_name@ == new@,
                out@.len() == k,
                forall|j: int| 0 <= j < k ==> (#[trigger] out@[j])@ == renamed_row(rows[j], prev@, new@),
            decreases self.metrics.len() - k,
        {
            let r = &self.metrics[k];
            assert(rows[k as int] == r@);
            let name = if r.metric.name == old_name {
                new_name.clone()
            } else {
                r.metric.name.clone()
            };
            out.push(
                StoredMetric {
                    metric: Metric { name, value: r.metric.value, date: r.metric.date, file_path: r.metric.file_path.clone() },
                    updated_at: r.updated_at,
                },
            );
            k += 1;
        }
        assert(rows_of(out@) =~= renamed(rows, prev@, new@));
        self.metrics = out;
        let at = self.find_tracked(&old_name);
        proof {
            lemma_name_index(names, prev@);
            lemma_name_index(names, new@);
        }
        if at < self.tracked_metrics.len() {
            if differ {
                let other = self.find_tracked(&new_name);
                if other < self.tracked_metrics.len() {
                    return Err(RenameError::AlreadyTracked);
                }
            }
            self.tracked_metrics.set(at, new_name);
            proof {
                let after = names.update(at as int, new@);
                assert(texts_of(self.tracked_metrics@) =~= after);
                assert forall|a: int, b: int| 0 <= a < after.len() && 0 <= b < after.len() && a != b implies after[a]
                    != after[b] by {
                    if a == at {
                        assert(names[b] != new@ || prev@ == new@);
                    } else if b == at {
                        assert(names[a] != new@ || prev@ == new@);
                    }
                }
            }
        }
        Ok(())
    }

    /// Sets the journal root to `path`.
    pub fn set_journal_path(&mut self, path: &str)
        ensures
            final(self)@ == (StoreView { journal_path: Some(path@), ..old(self)@ }),
    {
        self.journal_path = Some(path.to_owned());
    }
}

/// Deleting a metric keeps the keys distinct, and leaves a record in the
/// store exactly if it was there and is of another name.
pub proof fn lemma_without_name_keeps_distinct(rows: Seq<RowView>, name: Seq<char>)
    requires
        keys_distinct(rows),
    ensures
        keys_distinct(without_name(rows, name)),
        forall|r: RowView| #[trigger]
            without_name(rows, name).contains(r) <==> (rows.contains(r) && r.metric.name != name),
        dates_in_range(rows) ==> dates_in_range(without_name(rows, name)),
    decreases rows.len(),
{
    if dates_in_range(rows) && rows.len() > 0 {
        let init = rows.drop_last();
        assert forall|i: int| 0 <= i < init.len() implies day_in_range((#[trigger] init[i]).metric.date) by {
            assert(init[i] == rows[i]);
        }
    }
    if rows.len() > 0 {
        let init = rows.drop_last();
        assert forall|i: int, j: int| 0 <= i < j < init.len() implies !(#[trigger] init[i]).metric.same_key(
            (#[trigger] init[j]).metric,
        ) by {
            assert(init[i] == rows[i]);
            assert(init[j] == rows[j]);
        }
        lemma_without_name_keeps_distinct(init, name);
        let w = without_name(init, name);
        let out = without_name(rows, name);
        assert forall|r: RowView| #[trigger] out.contains(r) <==> (rows.contains(r) && r.metric.name != name) by {
            if out.contains(r) {
                let k = choose|k: int| 0 <= k < out.len() && out[k] == r;
                if k < w.len() {
                    assert(w[k] == r);
                    assert(w.contains(r));
                    let q = choose|q: int| 0 <= q < init.len() && init[q] == r;
                    assert(rows[q] == r);
                } else {
                    assert(rows[rows.len() - 1] == r);
                }
            }
            if rows.contains(r) && r.metric.name != name {
                let q = choose|q: int| 0 <= q < rows.len() && rows[q] == r;
                if q < init.len() {
                    assert(init[q] == r);
                    assert(init.contains(r));
                    assert(w.contains(r));
                    let k = choose|k: int| 0 <= k < w.len() && w[k] == r;
                    assert(out[k] == r);
                } else {
                    assert(out[out.len() - 1] == r);
                }
            }
        }
        if dates_in_range(rows) {
            assert forall|i: int| 0 <= i < out.len() implies day_in_range((#[trigger] out[i]).metric.date) by {
                if i < w.len() {
                    assert(out[i] == w[i]);
                } else {
                    assert(out[i] == rows[rows.len() - 1]);
                }
            }
        }
        if rows.last().metric.name != name {
            assert forall|i: int, j: int| 0 <= i < j < out.len() implies !(#[trigger] out[i]).metric.same_key(
                (#[trigger] out[j]).metric,
            ) by {
                if j < w.len() {
                    assert(out[i] == w[i]);
                    assert(out[j] == w[j]);
                } else {
                    assert(out[i] == w[i]);
                    assert(w.contains(w[i]));
                    let q = choose|q: int| 0 <= q < init.len() && init[q] == w[i];
                    assert(rows[q] == w[i]);
                    assert(!rows[q].metric.same_key(rows[rows.len() - 1].metric));
                }
            }
        }
    }
}

} // verus!
