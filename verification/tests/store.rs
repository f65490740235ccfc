use habitron::date::{Date, Timestamp};
use habitron::settings::{
    add_metric, delete_metric, get_journal_files_path, get_tracked_metrics_from_db, insert_metric,
    is_journal_path_configured, udpate_metric,
};
use habitron::store::{same_text, Metric, MetricStore, RenameError};

fn metric(file: &str, name: &str, value: u32, day: i32) -> Metric {
    Metric { file_path: file.to_string(), name: name.to_string(), value, date: Date::from_days(day).unwrap() }
}

fn at(second: u32) -> Timestamp {
    Timestamp { day: Date::from_days(739_000).unwrap(), second }
}

fn keys(store: &MetricStore) -> Vec<(String, String, i32, u32)> {
    store
        .metrics()
        .iter()
        .map(|r| (r.metric.file_path.clone(), r.metric.name.clone(), r.metric.date.days(), r.metric.value))
        .collect()
}

fn key(file: &str, name: &str, day: i32, value: u32) -> (String, String, i32, u32) {
    (file.to_string(), name.to_string(), day, value)
}

#[test]
fn a_new_store_is_empty() {
    let store = MetricStore::new();
    assert!(store.metrics().is_empty());
    assert!(store.file_meta().is_empty());
    assert!(store.tracked_metrics().is_empty());
    assert!(store.journal_path().is_none());
    assert!(!is_journal_path_configured(&store));
}

#[test]
fn writing_a_record_of_the_same_key_replaces_it() {
    let mut store = MetricStore::new();
    store.upsert_metric(metric("a.md", "run", 1, 100), at(1));
    store.upsert_metric(metric("a.md", "read", 2, 100), at(2));
    store.upsert_metric(metric("b.md", "run", 3, 100), at(3));
    store.upsert_metric(metric("a.md", "run", 4, 101), at(4));
    assert_eq!(store.metrics().len(), 4);
    store.upsert_metric(metric("a.md", "run", 9, 100), at(5));
    assert_eq!(
        keys(&store),
        vec![key("a.md", "read", 100, 2), key("b.md", "run", 100, 3), key("a.md", "run", 101, 4), key("a.md", "run", 100, 9)]
    );
    assert_eq!(store.metrics()[3].updated_at, at(5));
    assert!(store.has_metrics_for("a.md"));
    assert!(store.has_metrics_for("b.md"));
    assert!(!store.has_metrics_for("c.md"));
}

#[test]
fn insert_metric_writes_a_copy() {
    let mut store = MetricStore::new();
    let m = metric("a.md", "run", 1, 100);
    insert_metric(&mut store, &m).expect("the clock gives a moment");
    insert_metric(&mut store, &m).expect("the clock gives a moment");
    assert_eq!(keys(&store), vec![key("a.md", "run", 100, 1)]);
    assert_eq!(m.duplicate().name, "run");
}

#[test]
fn a_fingerprint_replaces_the_one_before() {
    let mut store = MetricStore::new();
    assert_eq!(store.fingerprint("a.md"), None);
    store.record_file("a.md", 10);
    store.record_file("b.md", 20);
    store.record_file("a.md", 30);
    assert_eq!(store.fingerprint("a.md"), Some(30));
    assert_eq!(store.fingerprint("b.md"), Some(20));
    assert_eq!(store.file_meta().len(), 2);
    assert_eq!(store.file_meta()[1].file_path, "a.md");
}

#[test]
fn tracked_metrics_hold_each_name_once() {
    let mut store = MetricStore::new();
    assert_eq!(add_metric(&mut store, "run"), None);
    store.set_journal_path("/journal");
    assert_eq!(add_metric(&mut store, "read"), Some("/journal".to_string()));
    add_metric(&mut store, "run");
    assert_eq!(get_tracked_metrics_from_db(&store), vec!["run".to_string(), "read".to_string()]);
    assert_eq!(get_journal_files_path(&store), Some("/journal".to_string()));
    assert!(is_journal_path_configured(&store));
}

#[test]
fn deleting_a_metric_takes_its_records_and_its_name() {
    let mut store = MetricStore::new();
    store.track("run");
    store.track("read");
    store.upsert_metric(metric("a.md", "run", 1, 100), at(1));
    store.upsert_metric(metric("a.md", "read", 2, 100), at(2));
    store.upsert_metric(metric("b.md", "run", 3, 101), at(3));
    delete_metric(&mut store, "run");
    assert_eq!(keys(&store), vec![key("a.md", "read", 100, 2)]);
    assert_eq!(get_tracked_metrics_from_db(&store), vec!["read".to_string()]);
    delete_metric(&mut store, "swim");
    assert_eq!(keys(&store), vec![key("a.md", "read", 100, 2)]);
}

#[test]
fn renaming_a_metric_renames_its_records_in_place() {
    let mut store = MetricStore::new();
    store.set_journal_path("/journal");
    store.track("run");
    store.track("read");
    store.upsert_metric(metric("a.md", "run", 1, 100), at(1));
    store.upsert_metric(metric("a.md", "read", 2, 100), at(2));
    store.upsert_metric(metric("b.md", "run", 3, 101), at(3));
    assert_eq!(udpate_metric(&mut store, "run", "jog"), Ok(Some("/journal".to_string())));
    assert_eq!(keys(&store), vec![key("a.md", "jog", 100, 1), key("a.md", "read", 100, 2), key("b.md", "jog", 101, 3)]);
    assert_eq!(get_tracked_metrics_from_db(&store), vec!["jog".to_string(), "read".to_string()]);
    assert_eq!(udpate_metric(&mut store, "jog", "jog"), Ok(Some("/journal".to_string())));
    assert_eq!(udpate_metric(&mut store, "swim", "dive"), Ok(Some("/journal".to_string())));
    assert_eq!(store.metrics().len(), 3);
}

#[test]
fn renaming_onto_a_record_that_exists_changes_nothing() {
    let mut store = MetricStore::new();
    store.track("run");
    store.upsert_metric(metric("a.md", "run", 1, 100), at(1));
    store.upsert_metric(metric("a.md", "jog", 2, 100), at(2));
    assert_eq!(store.rename("run", "jog"), Err(RenameError::RecordExists));
    assert_eq!(keys(&store), vec![key("a.md", "run", 100, 1), key("a.md", "jog", 100, 2)]);
    assert_eq!(get_tracked_metrics_from_db(&store), vec!["run".to_string()]);
}

#[test]
fn renaming_onto_a_tracked_name_renames_the_records_only() {
    let mut store = MetricStore::new();
    store.track("run");
    store.track("jog");
    store.upsert_metric(metric("a.md", "run", 1, 100), at(1));
    store.upsert_metric(metric("b.md", "jog", 2, 100), at(2));
    assert_eq!(store.rename("run", "jog"), Err(RenameError::AlreadyTracked));
    assert_eq!(keys(&store), vec![key("a.md", "jog", 100, 1), key("b.md", "jog", 100, 2)]);
    assert_eq!(get_tracked_metrics_from_db(&store), vec!["run".to_string(), "jog".to_string()]);
}

#[test]
fn texts_are_compared_by_their_characters() {
    assert!(same_text("run", "run"));
    assert!(!same_text("run", "Run"));
    assert!(same_text("", ""));
}
