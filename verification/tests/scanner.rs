use habitron::scanner::{entry_is_journal_file, has_md_extension, read_dailies_dir, read_entry, DirEntryInfo};
use habitron::store::MetricStore;
use std::path::Path;

fn entry(path: &str, is_file: bool, modified: i128) -> DirEntryInfo {
    let p = Path::new(path);
    DirEntryInfo {
        path: path.to_string(),
        file_name: p.file_name().and_then(|s| s.to_str()).map(|s| s.to_string()),
        extension: p.extension().and_then(|s| s.to_str()).map(|s| s.to_string()),
        is_file,
        modified: Some(modified),
    }
}

fn unreadable(path: &str) -> DirEntryInfo {
    let mut e = entry(path, true, 0);
    e.modified = None;
    e
}

#[test]
fn a_journal_file_is_a_dated_markdown_file() {
    assert!(entry_is_journal_file(&entry("/j/2024-03-05.md", true, 1)));
    assert!(entry_is_journal_file(&entry("/j/202.md", true, 1)));
    assert!(entry_is_journal_file(&entry("/j/2029 notes.md", true, 1)));
    assert!(!entry_is_journal_file(&entry("/j/2024-03-05.md", false, 1)));
    assert!(!entry_is_journal_file(&entry("/j/2024-03-05.txt", true, 1)));
    assert!(!entry_is_journal_file(&entry("/j/2024-03-05.MD", true, 1)));
    assert!(!entry_is_journal_file(&entry("/j/2024-03-05", true, 1)));
    assert!(!entry_is_journal_file(&entry("/j/1999-03-05.md", true, 1)));
    assert!(!entry_is_journal_file(&entry("/j/notes-2024.md", true, 1)));
    assert!(!entry_is_journal_file(&entry("/j/20.md", true, 1)));
    let nameless = DirEntryInfo {
        path: "/j/..".to_string(),
        file_name: None,
        extension: Some("md".to_string()),
        is_file: true,
        modified: Some(1),
    };
    assert!(!entry_is_journal_file(&nameless));
    assert!(has_md_extension(&Some("md".to_string())));
    assert!(!has_md_extension(&Some("mdx".to_string())));
    assert!(!has_md_extension(&Some("m".to_string())));
    assert!(!has_md_extension(&None));
}

#[test]
fn an_entry_that_is_a_journal_file_is_fingerprinted() {
    let mut store = MetricStore::new();
    assert_eq!(read_entry(&entry("/j/2024-03-05.md", true, 42), &mut store), Some("/j/2024-03-05.md".to_string()));
    assert_eq!(store.fingerprint("/j/2024-03-05.md"), Some(42));
    assert_eq!(read_entry(&entry("/j/readme.md", true, 43), &mut store), None);
    assert_eq!(store.fingerprint("/j/readme.md"), None);
    assert_eq!(store.file_meta().len(), 1);
}

#[test]
fn a_scan_hands_back_the_journal_files_in_order() {
    let mut store = MetricStore::new();
    store.record_file("/j/2024-03-05.md", 1);
    let entries = vec![
        entry("/j/2024-03-06.md", true, 10),
        entry("/j/readme.md", true, 11),
        entry("/j/2024-03-05.md", true, 12),
        entry("/j/2024", false, 13),
        entry("/j/2024-03-07.md", true, 14),
    ];
    let paths = read_dailies_dir(&entries, &mut store);
    assert_eq!(paths, vec!["/j/2024-03-06.md", "/j/2024-03-05.md", "/j/2024-03-07.md"]);
    assert_eq!(store.fingerprint("/j/2024-03-05.md"), Some(12));
    assert_eq!(store.fingerprint("/j/2024-03-06.md"), Some(10));
    assert_eq!(store.fingerprint("/j/2024-03-07.md"), Some(14));
    assert_eq!(store.file_meta().len(), 3);
    assert!(read_dailies_dir(&Vec::new(), &mut store).is_empty());
}

#[test]
fn a_journal_file_whose_time_could_not_be_read_is_passed_over() {
    let mut store = MetricStore::new();
    store.record_file("/j/2024-03-05.md", 7);
    let entries = vec![
        unreadable("/j/2024-03-05.md"),
        entry("/j/2024-03-06.md", true, 1_700_000_000_123_456_789),
        unreadable("/j/2024-03-07.md"),
    ];
    assert!(entry_is_journal_file(&entries[0]));
    let paths = read_dailies_dir(&entries, &mut store);
    assert_eq!(paths, vec!["/j/2024-03-06.md"]);
    assert_eq!(store.fingerprint("/j/2024-03-05.md"), Some(7));
    assert_eq!(store.fingerprint("/j/2024-03-06.md"), Some(1_700_000_000_123_456_789));
    assert_eq!(store.fingerprint("/j/2024-03-07.md"), None);
    assert_eq!(read_entry(&entries[2], &mut store), None);
    assert_eq!(store.file_meta().len(), 2);
}
