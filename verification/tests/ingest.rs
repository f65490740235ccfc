use habitron::date::{Date, Timestamp};
use habitron::extract::ExtractError;
use habitron::ingest::{
    ingest_lines, read_front_matter, should_process, write_metrics, Ingest, WORKER_CHANNEL_CAPACITY,
};
use habitron::settings::{update_file_metadata, write_metric_to_db};
use habitron::store::{Metric, MetricStore};

const PATH: &str = "/journal/2024-03-05.md";

fn lines(text: &[&str]) -> Vec<String> {
    text.iter().map(|s| s.to_string()).collect()
}

fn names(text: &[&str]) -> Vec<String> {
    text.iter().map(|s| s.to_string()).collect()
}

fn at(second: u32) -> Timestamp {
    Timestamp { day: Date::from_days(739_000).unwrap(), second }
}

fn file() -> Vec<String> {
    lines(&["---", "workout: 45", "pages: 12", "mood: fine", "---", "workout: 99"])
}

fn rows(store: &MetricStore) -> Vec<(String, String, u32, i32, u32)> {
    store
        .metrics()
        .iter()
        .map(|r| {
            (r.metric.file_path.clone(), r.metric.name.clone(), r.metric.value, r.metric.date.days(), r.updated_at.second)
        })
        .collect()
}

#[test]
fn a_file_never_fingerprinted_is_processed() {
    let store = MetricStore::new();
    assert!(should_process(PATH, &store, Some(1_700_000_000)));
    assert!(should_process(PATH, &store, None));
}

#[test]
fn an_unchanged_file_with_metrics_is_passed_over() {
    let mut store = MetricStore::new();
    let stem = Some("2024-03-05".to_string());
    let n = ingest_lines(&mut store, PATH, &names(&["workout", "pages"]), &file(), &stem, 1_700_000_000, at(1));
    assert_eq!(n, Ok(2));
    assert!(!should_process(PATH, &store, Some(1_700_000_000)));
    assert!(should_process(PATH, &store, Some(1_700_000_001)));
    assert!(should_process(PATH, &store, None));
    assert!(should_process("/journal/2024-03-06.md", &store, Some(1_700_000_000)));
}

#[test]
fn a_change_within_one_second_is_seen() {
    let mut store = MetricStore::new();
    let stem = Some("2024-03-05".to_string());
    let first: i128 = 1_700_000_000_250_000_000;
    assert_eq!(ingest_lines(&mut store, PATH, &names(&["workout"]), &file(), &stem, first, at(1)), Ok(1));
    assert!(!should_process(PATH, &store, Some(first)));
    assert!(should_process(PATH, &store, Some(first + 1)));
    assert!(should_process(PATH, &store, Some(1_700_000_000_000_000_000)));
}

#[test]
fn a_file_that_yielded_nothing_is_processed_again() {
    let mut store = MetricStore::new();
    let stem = Some("2024-03-05".to_string());
    let n = ingest_lines(&mut store, PATH, &names(&["steps"]), &file(), &stem, 1_700_000_000, at(1));
    assert_eq!(n, Ok(0));
    assert_eq!(store.fingerprint(PATH), Some(1_700_000_000));
    assert!(should_process(PATH, &store, Some(1_700_000_000)));
}

#[test]
fn ingesting_twice_gives_the_same_records() {
    let mut store = MetricStore::new();
    let wanted = names(&["workout", "pages"]);
    let first = read_front_matter(PATH, &wanted, &mut store, Some(1_700_000_000), &file());
    assert_eq!(first, Ok(Ingest::Read(2)));
    let once = rows(&store);
    assert_eq!(once.len(), 2);
    assert_eq!((once[0].1.as_str(), once[0].2, once[0].3), ("workout", 45, 738_950));
    assert_eq!((once[1].1.as_str(), once[1].2, once[1].3), ("pages", 12, 738_950));
    assert_eq!(once[0].0, PATH);

    let second = read_front_matter(PATH, &wanted, &mut store, Some(1_700_000_000), &file());
    assert_eq!(second, Ok(Ingest::Unchanged));
    assert_eq!(rows(&store), once);
}

#[test]
fn a_forced_second_ingestion_keeps_the_values_and_advances_the_moment() {
    let mut store = MetricStore::new();
    let wanted = names(&["workout", "pages"]);
    let stem = Some("2024-03-05".to_string());
    let other = Metric {
        file_path: "/journal/2024-03-04.md".to_string(),
        name: "workout".to_string(),
        value: 30,
        date: Date::from_days(738_949).unwrap(),
    };
    store.upsert_metric(other, at(0));
    assert_eq!(ingest_lines(&mut store, PATH, &wanted, &file(), &stem, 10, at(1)), Ok(2));
    let once = rows(&store);
    assert_eq!(ingest_lines(&mut store, PATH, &wanted, &file(), &stem, 10, at(2)), Ok(2));
    let twice = rows(&store);
    assert_eq!(once.len(), 3);
    assert_eq!(twice.len(), 3);
    for (a, b) in once.iter().zip(twice.iter()) {
        assert_eq!((&a.0, &a.1, a.2, a.3), (&b.0, &b.1, b.2, b.3));
    }
    assert_eq!(once.iter().map(|r| r.4).collect::<Vec<_>>(), vec![0, 1, 1]);
    assert_eq!(twice.iter().map(|r| r.4).collect::<Vec<_>>(), vec![0, 2, 2]);
    assert_eq!(store.fingerprint(PATH), Some(10));
}

#[test]
fn a_changed_file_replaces_its_records() {
    let mut store = MetricStore::new();
    let wanted = names(&["workout"]);
    assert_eq!(read_front_matter(PATH, &wanted, &mut store, Some(10), &file()), Ok(Ingest::Read(1)));
    let edited = lines(&["---", "workout: 50", "---"]);
    assert_eq!(read_front_matter(PATH, &wanted, &mut store, Some(11), &edited), Ok(Ingest::Read(1)));
    let now = rows(&store);
    assert_eq!(now.len(), 1);
    assert_eq!(now[0].2, 50);
    assert_eq!(store.fingerprint(PATH), Some(11));
}

#[test]
fn nothing_is_done_without_tracked_metrics_or_without_the_file() {
    let mut store = MetricStore::new();
    assert_eq!(read_front_matter(PATH, &Vec::new(), &mut store, Some(10), &file()), Ok(Ingest::NothingTracked));
    assert_eq!(read_front_matter(PATH, &names(&["workout"]), &mut store, None, &file()), Ok(Ingest::Missing));
    assert!(store.metrics().is_empty());
    assert!(store.file_meta().is_empty());
}

#[test]
fn a_file_that_fails_leaves_the_store_as_it_was() {
    let mut store = MetricStore::new();
    let wanted = names(&["workout"]);
    assert_eq!(read_front_matter(PATH, &wanted, &mut store, Some(10), &file()), Ok(Ingest::Read(1)));
    let before = rows(&store);
    let bad = "/journal/notes.md";
    assert_eq!(read_front_matter(bad, &wanted, &mut store, Some(10), &file()), Err(ExtractError::BadDate));
    let broken = lines(&["---", "workout 50", "---"]);
    assert_eq!(read_front_matter(PATH, &wanted, &mut store, Some(12), &broken), Err(ExtractError::MalformedLine));
    assert_eq!(rows(&store), before);
    assert_eq!(store.fingerprint(PATH), Some(10));
    assert_eq!(store.fingerprint(bad), None);
    assert!(should_process(bad, &store, Some(10)));
    assert!(should_process(PATH, &store, Some(12)));
}

#[test]
fn records_are_written_in_their_order() {
    let mut store = MetricStore::new();
    let d = Date::from_days(738_950).unwrap();
    let records: Vec<Metric> = ["a", "b", "c"]
        .iter()
        .enumerate()
        .map(|(i, n)| Metric { file_path: "f.md".to_string(), name: n.to_string(), value: i as u32, date: d })
        .collect();
    write_metrics(&mut store, records, at(5));
    let got = rows(&store);
    assert_eq!(got.iter().map(|r| r.1.as_str()).collect::<Vec<_>>(), vec!["a", "b", "c"]);
    assert_eq!(got.iter().map(|r| r.2).collect::<Vec<_>>(), vec![0, 1, 2]);
}

#[test]
fn written_metrics_carry_the_present_moment() {
    let mut store = MetricStore::new();
    let d = Date::from_days(738_950).unwrap();
    let before = chrono::Local::now().naive_local();
    let written =
        write_metric_to_db(Metric { file_path: "f.md".to_string(), name: "a".to_string(), value: 1, date: d }, &mut store);
    assert_eq!(written, Ok(()));
    let after = chrono::Local::now().naive_local();
    let stamp = store.metrics()[0].updated_at;
    let days = chrono::Datelike::num_days_from_ce(&before.date());
    let days_after = chrono::Datelike::num_days_from_ce(&after.date());
    assert!(stamp.day.days() == days || stamp.day.days() == days_after);
    assert!(stamp.second < 86_400);
    if days == days_after {
        let low = chrono::Timelike::num_seconds_from_midnight(&before.time());
        let high = chrono::Timelike::num_seconds_from_midnight(&after.time());
        assert!(low <= stamp.second && stamp.second <= high);
    }
    update_file_metadata("f.md", &mut store, 77);
    assert_eq!(store.fingerprint("f.md"), Some(77));
}

#[test]
fn the_pool_has_four_workers() {
    assert_eq!(WORKER_CHANNEL_CAPACITY, 4);
}
