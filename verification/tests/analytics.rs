use chrono::{Datelike, NaiveDate};
use habitron::analytics::{
    count_active_days, count_active_on, count_all_habits, get_all_habits_longest_streak, get_analytics_summary,
    get_completion_rate, get_weekly_activity, weekly_activity_between,
};
use habitron::date::{Date, Timestamp};
use habitron::queries::{get_metrics_by_date, QueryError};
use habitron::store::{Metric, MetricStore};

fn day(date: NaiveDate) -> Date {
    Date::from_days(date.num_days_from_ce()).expect("date in range")
}

fn ymd(y: i32, m: u32, d: u32) -> NaiveDate {
    NaiveDate::from_ymd_opt(y, m, d).unwrap()
}

fn put(store: &mut MetricStore, file_path: &str, name: &str, value: u32, date: NaiveDate) {
    let metric = Metric { file_path: file_path.to_string(), name: name.to_string(), value, date: day(date) };
    store.upsert_metric(metric, Timestamp { day: day(date), second: 0 });
}

fn sample() -> MetricStore {
    let mut store = MetricStore::new();
    put(&mut store, "1.md", "run", 3, ymd(2024, 3, 1));
    put(&mut store, "1.md", "read", 0, ymd(2024, 3, 1));
    put(&mut store, "2.md", "run", 4, ymd(2024, 3, 2));
    put(&mut store, "4.md", "read", 9, ymd(2024, 3, 4));
    put(&mut store, "4.md", "nap", 0, ymd(2024, 3, 4));
    store
}

#[test]
fn the_completion_rate_is_the_share_of_chances_taken() {
    assert_eq!(get_completion_rate(&MetricStore::new()), 0);
    // 3 records above 0, 4 days from the first to the last date, 3 habits
    assert_eq!(get_completion_rate(&sample()), 25);
    let mut one = MetricStore::new();
    put(&mut one, "1.md", "run", 3, ymd(2024, 3, 1));
    assert_eq!(get_completion_rate(&one), 100);
    put(&mut one, "other/1.md", "run", 3, ymd(2024, 3, 1));
    assert_eq!(get_completion_rate(&one), 100);
    put(&mut one, "3.md", "run", 0, ymd(2024, 3, 3));
    assert_eq!(get_completion_rate(&one), 66);
    let mut none = MetricStore::new();
    put(&mut none, "1.md", "run", 0, ymd(2024, 3, 1));
    assert_eq!(get_completion_rate(&none), 0);
}

#[test]
fn the_summary_counts_habits_days_and_the_longest_streak() {
    let store = sample();
    assert_eq!(count_all_habits(&store), 2);
    assert_eq!(count_active_days(&store), 3);
    assert_eq!(get_all_habits_longest_streak(&store), 2);
    let summary = get_analytics_summary(&store);
    assert_eq!(summary.total_habits, 2);
    assert_eq!(summary.active_days, 3);
    assert_eq!(summary.longest_streak, 2);
    assert_eq!(summary.completion_rate, 25);
    let empty = get_analytics_summary(&MetricStore::new());
    assert_eq!(
        (empty.total_habits, empty.active_days, empty.longest_streak, empty.completion_rate),
        (0, 0, 0, 0)
    );
}

#[test]
fn the_activity_of_a_day_counts_the_records_of_tracked_metrics() {
    let mut store = sample();
    let start = day(ymd(2024, 3, 1));
    let end = day(ymd(2024, 3, 4));
    assert!(weekly_activity_between(&store, start, end).is_empty());
    store.track("run");
    store.track("read");
    put(&mut store, "other/1.md", "run", 1, ymd(2024, 3, 1));
    let got: Vec<(String, i64)> =
        weekly_activity_between(&store, start, end).into_iter().map(|a| (a.date, a.value)).collect();
    assert_eq!(
        got,
        vec![("2024-03-01".to_string(), 2), ("2024-03-02".to_string(), 1), ("2024-03-04".to_string(), 1)]
    );
    assert_eq!(count_active_on(&store, start), 2);
    assert!(weekly_activity_between(&store, end, start).is_empty());
    assert!(get_weekly_activity(&store).is_empty());
    put(&mut store, "x.md", "run", 1, ymd(2025, 10, 12));
    put(&mut store, "y.md", "run", 1, ymd(2025, 10, 18));
    put(&mut store, "z.md", "run", 1, ymd(2025, 10, 19));
    let week: Vec<String> = get_weekly_activity(&store).into_iter().map(|a| a.date).collect();
    assert_eq!(week, vec!["2025-10-12".to_string(), "2025-10-18".to_string()]);
}

#[test]
fn the_records_of_a_span_come_in_the_order_of_the_store() {
    let store = sample();
    let rows = get_metrics_by_date(&store, (2024, 3, 2), (2024, 3, 4)).unwrap();
    let got: Vec<(&str, i64, &str)> = rows.iter().map(|r| (r.name.as_str(), r.value, r.date.as_str())).collect();
    assert_eq!(got, vec![("run", 4, "2024-03-02"), ("read", 9, "2024-03-04"), ("nap", 0, "2024-03-04")]);
    assert!(get_metrics_by_date(&store, (2024, 3, 5), (2024, 3, 1)).unwrap().is_empty());
    assert_eq!(get_metrics_by_date(&store, (2024, 2, 30), (2024, 3, 1)).unwrap_err(), QueryError::InvalidDate);
    assert_eq!(get_metrics_by_date(&store, (2024, 3, 1), (2024, 13, 1)).unwrap_err(), QueryError::InvalidDate);
}
