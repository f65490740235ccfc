//! The directory scanner: which entries of the journal root are journal
//! files, and the recording of their fingerprints.
//!
//! A journal file is a regular file with the extension `md` whose name
//! begins with `202`. A journal file whose modification time could not be
//! read is passed over, like every entry that is no journal file: the scan
//! goes on with the entries that follow.

use crate::store::{FileMetaView, MetricStore, StoreView, text_of, texts_of};
use crate::text::{chars_of, starts_with};
use vstd::prelude::*;

verus! {

/// What was read of one entry of a directory.
#[derive(Debug)]
pub struct DirEntryInfo {
    /// The path of the entry.
    pub path: String,
    /// The last component of the path, where it is text.
    pub file_name: Option<String>,
    /// The extension of the path, where it has one that is text.
    pub extension: Option<String>,
    /// Whether the entry is a regular file.
    pub is_file: bool,
    /// When the entry was last modified, in nanoseconds since the Unix epoch;
    /// `None` where the time could not be read.
    pub modified: Option<i128>,
}

/// What a [`DirEntryInfo`] holds.
pub struct DirEntryView {
    pub path: Seq<char>,
    pub file_name: Option<Seq<char>>,
    pub extension: Option<Seq<char>>,
    pub is_file: bool,
    pub modified: Option<i128>,
}

impl View for DirEntryInfo {
    type V = DirEntryView;

    open spec fn view(&self) -> DirEntryView {
        DirEntryView {
            path: self.path@,
            file_name: text_of(self.file_name),
            extension: text_of(self.extension),
            is_file: self.is_file,
            modified: self.modified,
        }
    }
}

/// The views of the entries of `v`.
pub open spec fn dir_of(v: Seq<DirEntryInfo>) -> Seq<DirEntryView> {
    Seq::new(v.len(), |i: int| v[i]@)
}

/// The extension of a Markdown file.
pub open spec fn md() -> Seq<char> {
    seq!['m', 'd']
}

/// What the name of a journal file begins with.
pub open spec fn date_prefix() -> Seq<char> {
    seq!['2', '0', '2']
}

/// Whether the extension `extension` is that of a Markdown file.
pub open spec fn is_markdown(extension: Option<Seq<char>>) -> bool {
    extension == Some(md())
}

/// Whether the entry `e` is a journal file.
pub open spec fn is_journal_file(e: DirEntryView) -> bool {
    &&& e.is_file
    &&& is_markdown(e.extension)
    &&& e.file_name matches Some(name) && date_prefix().is_prefix_of(name)
}

/// Whether the entry `e` is taken by a scan: it is a journal file, and its
/// modification time could be read.
pub open spec fn is_scanned(e: DirEntryView) -> bool {
    is_journal_file(e) && e.modified is Some
}

/// The paths of the journal files among `entries` whose modification time
/// could be read, in their order.
pub open spec fn journal_paths(entries: Seq<DirEntryView>) -> Seq<Seq<char>>
    decreases entries.len(),
{
    if entries.len() == 0 {
        Seq::empty()
    } else if is_scanned(entries.last()) {
        journal_paths(entries.drop_last()).push(entries.last().path)
    } else {
        journal_paths(entries.drop_last())
    }
}

/// The store after the fingerprint of every journal file among `entries`
/// whose modification time could be read was recorded, in their order.
pub open spec fn scanned(store: StoreView, entries: Seq<DirEntryView>) -> StoreView
    decreases entries.len(),
{
    if entries.len() == 0 {
        store
    } else if is_scanned(entries.last()) {
        scanned(store, entries.drop_last()).with_file(
            FileMetaView { file_path: entries.last().path, last_modified: entries.last().modified->0 },
        )
    } else {
        scanned(store, entries.drop_last())
    }
}

/// Whether the extension `extension` is that of a Markdown file.
pub fn has_md_extension(extension: &Option<String>) -> (r: bool)
    ensures
        r == is_markdown(text_of(*extension)),
{
    match extension {
        Some(e) => {
            let cs = chars_of(e.as_str());
            let r = cs.len() == 2 && cs[0] == 'm' && cs[1] == 'd';
            assert(r == (cs@ =~= md()));
            r
        },
        None => false,
    }
}

/// Whether `entry` is a journal file.
pub fn entry_is_journal_file(entry: &DirEntryInfo) -> (r: bool)
    ensures
        r == is_journal_file(entry@),
{
    if !entry.is_file || !has_md_extension(&entry.extension) {
        return false;
    }
    match &entry.file_name {
        Some(name) => {
            let cs = chars_of(name.as_str());
            let mut prefix: Vec<char> = Vec::new();
            prefix.push('2');
            prefix.push('0');
            prefix.push('2');
            assert(prefix@ =~= date_prefix());
            starts_with(&cs, &prefix)
        },
        None => false,
    }
}

/// Looks at one entry of the journal root. Where it is a journal file whose
/// modification time could be read, its fingerprint is recorded and its path
/// handed back; every other entry is passed over, and the store stays as it is.
pub fn read_entry(entry: &DirEntryInfo, store: &mut MetricStore) -> (r: Option<String>)
    requires
        old(store)@.valid(),
    ensures
        final(store)@.valid(),
        is_scanned(entry@) ==> text_of(r) == Some(entry@.path) && final(store)@ == old(store)@.with_file(
            (FileMetaView { file_path: entry@.path, last_modified: entry@.modified->0 }),
        ),
        !is_scanned(entry@) ==> r is None && final(store)@ == old(store)@,
{
    if !entry_is_journal_file(entry) {
        return None;
    }
    match entry.modified {
        Some(modified) => {
            store.record_file(entry.path.as_str(), modified);
            Some(entry.path.clone())
        },
        None => None,
    }
}

/// Scans the entries of the journal root: records the fingerprint of every
/// journal file among them whose modification time could be read, and hands
/// back the paths of these files, in the order of the entries. An entry whose
/// time could not be read does not end the scan.
pub fn read_dailies_dir(entries: &Vec<DirEntryInfo>, store: &mut MetricStore) -> (r: Vec<String>)
    requires
        old(store)@.valid(),
    ensures
        final(store)@.valid(),
        texts_of(r@) == journal_paths(dir_of(entries@)),
        final(store)@ == scanned(old(store)@, dir_of(entries@)),
{
    let ghost all = dir_of(entries@);
    let ghost start = store@;
    let mut file_paths: Vec<String> = Vec::new();
    let mut i: usize = 0;
    assert(texts_of(file_paths@) =~= Seq::<Seq<char>>::empty());
    while i < entries.len()
        invariant
            i <= entries.len(),
            all == dir_of(entries@),
            store@.valid(),
            texts_of(file_paths@) == journal_paths(all.take(i as int)),
            store@ == scanned(start, all.take(i as int)),
        decreases entries.len() - i,
    {
        let ghost before = texts_of(file_paths@);
        proof {
            let next = all.take(i as int + 1);
            assert(next.drop_last() =~= all.take(i as int));
            assert(next.last() == entries@[i as int]@);
        }
        match read_entry(&entries[i], store) {
            Some(path) => {
                file_paths.push(path);
                assert(texts_of(file_paths@) =~= before.push(entries@[i as int]@.path));
            },
            None => {},
        }
        i += 1;
    }
    assert(all.take(all.len() as int) =~= all);
    file_paths
}

} // verus!
