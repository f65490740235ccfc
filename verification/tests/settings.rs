use chrono::{Datelike, NaiveDate};
use habitron::dashboard::DashboardError;
use habitron::date::{Date, Timestamp, Weekday, MIN_DAY};
use habitron::settings::{get_settings, get_tracked_metrics, metric_usage, tracked_metrics_on, SettingsError};
use habitron::store::{Metric, MetricStore};
use habitron::summary::{
    get_current_streak, get_dashboard_metrics, get_habit_metrics, get_longest_streak, get_summary_metric,
    habit_metrics_on, summary_metric_on, test_command, Trend,
};

fn day(date: NaiveDate) -> Date {
    Date::from_days(date.num_days_from_ce()).expect("date in range")
}

fn ymd(y: i32, m: u32, d: u32) -> NaiveDate {
    NaiveDate::from_ymd_opt(y, m, d).unwrap()
}

fn put(store: &mut MetricStore, file_path: &str, name: &str, value: u32, date: NaiveDate, written: (NaiveDate, u32)) {
    let metric = Metric { file_path: file_path.to_string(), name: name.to_string(), value, date: day(date) };
    store.upsert_metric(metric, Timestamp { day: day(written.0), second: written.1 });
}

fn sample() -> MetricStore {
    let mut store = MetricStore::new();
    put(&mut store, "1.md", "run", 3, ymd(2024, 3, 1), (ymd(2024, 3, 1), 50));
    put(&mut store, "1.md", "read", 20, ymd(2024, 3, 1), (ymd(2024, 3, 1), 51));
    put(&mut store, "4.md", "run", 7, ymd(2024, 3, 4), (ymd(2024, 3, 9), 10));
    put(&mut store, "5.md", "run", 1, ymd(2024, 3, 5), (ymd(2024, 3, 9), 9));
    store
}

#[test]
fn the_settings_say_what_the_store_holds_of_each_metric() {
    let store = sample();
    let today = ymd(2024, 3, 10);
    let metrics = tracked_metrics_on(&store, day(today)).unwrap().unwrap();
    assert_eq!(metrics.len(), 2);
    assert_eq!(metrics[0].name, "run");
    assert_eq!(metrics[0].entries, 3);
    assert_eq!(metrics[0].last_updated, Timestamp { day: day(ymd(2024, 3, 9)), second: 10 });
    assert!(metrics[0].active);
    assert_eq!(metrics[1].name, "read");
    assert_eq!(metrics[1].entries, 1);
    assert_eq!(metrics[1].last_updated, Timestamp { day: day(ymd(2024, 3, 1)), second: 51 });
    assert!(!metrics[1].active);
    let earlier = tracked_metrics_on(&store, day(ymd(2024, 3, 8))).unwrap().unwrap();
    assert!(earlier[1].active);
    assert!(tracked_metrics_on(&MetricStore::new(), day(today)).unwrap().is_none());
    let first = Date::from_days(MIN_DAY + 6).unwrap();
    assert_eq!(tracked_metrics_on(&store, first).unwrap_err(), SettingsError::DateOutOfRange);
    assert!(tracked_metrics_on(&MetricStore::new(), first).unwrap().is_none());
    assert_eq!(metric_usage(&store, &"run".to_string()).0, 3);
    assert_eq!(metric_usage(&store, &"swim".to_string()), (0, None));
}

#[test]
fn the_metric_written_last_comes_first() {
    let mut store = sample();
    put(&mut store, "9.md", "read", 5, ymd(2024, 3, 9), (ymd(2024, 3, 9), 11));
    put(&mut store, "9.md", "nap", 1, ymd(2024, 3, 9), (ymd(2024, 3, 9), 10));
    put(&mut store, "9.md", "swim", 1, ymd(2024, 3, 9), (ymd(2024, 3, 10), 0));
    let metrics = tracked_metrics_on(&store, day(ymd(2024, 3, 10))).unwrap().unwrap();
    let names: Vec<&str> = metrics.iter().map(|m| m.name.as_str()).collect();
    assert_eq!(names, vec!["swim", "read", "run", "nap"]);
    assert_eq!(metrics[1].entries, 2);
    assert_eq!(metrics[1].last_updated, Timestamp { day: day(ymd(2024, 3, 9)), second: 11 });
}

#[test]
fn the_settings_hold_the_journal_root() {
    let mut store = sample();
    let settings = get_settings(&store).unwrap();
    assert!(settings.journal_files_path.is_none());
    assert_eq!(settings.tracked_metrics.unwrap().len(), 2);
    store.set_journal_path("/journal");
    assert_eq!(get_settings(&store).unwrap().journal_files_path, Some("/journal".to_string()));
    let empty = get_settings(&MetricStore::new()).unwrap();
    assert!(empty.tracked_metrics.is_none());
    assert_eq!(get_tracked_metrics(&store).unwrap().unwrap()[0].entries, 3);
}

#[test]
fn the_summary_of_a_habit_holds_its_figures() {
    let store = sample();
    let today = ymd(2024, 3, 6);
    let m = summary_metric_on(&store, "run", Weekday::Sun, day(today)).unwrap();
    assert_eq!(m.name, "run");
    assert_eq!(m.display_name, "run");
    assert_eq!(m.current_streak, 2);
    assert_eq!(m.longest_streak, 2);
    assert_eq!(m.weekly_average, 4);
    assert_eq!(summary_metric_on(&store, "run", Weekday::Tue, day(today)).unwrap().weekly_average, 1);
    assert_eq!(summary_metric_on(&store, "run", Weekday::Thu, day(today)).unwrap().weekly_average, 4);
    assert_eq!(m.monthly_total, 11);
    assert_eq!(m.last_updated, Timestamp { day: day(ymd(2024, 3, 9)), second: 10 });
    assert_eq!(m.trend, Trend::Stable);
    assert_eq!(summary_metric_on(&store, "swim", Weekday::Sun, day(today)).unwrap_err(), DashboardError::NoRecords);
    let first = Date::from_days(MIN_DAY).unwrap();
    assert_eq!(summary_metric_on(&store, "run", Weekday::Sun, first).unwrap_err(), DashboardError::DateOutOfRange);
    let all = habit_metrics_on(&store, Weekday::Sun, day(today)).unwrap();
    assert_eq!(all.len(), 2);
    assert_eq!(all[1].name, "read");
    assert_eq!(all[1].current_streak, 0);
    assert_eq!(all[1].monthly_total, 20);
    assert!(habit_metrics_on(&MetricStore::new(), Weekday::Sun, day(today)).unwrap().is_empty());
}

#[test]
fn the_dashboard_is_empty_without_habits() {
    let empty = MetricStore::new();
    assert!(get_dashboard_metrics(&empty, Weekday::Sun).unwrap().is_none());
    assert_eq!(get_longest_streak(&empty, "run"), None);
    assert_eq!(get_current_streak(&empty, "run"), Ok(None));
    let store = sample();
    assert_eq!(get_dashboard_metrics(&store, Weekday::Sun).unwrap().unwrap().len(), 2);
    assert_eq!(get_habit_metrics(&store, Weekday::Mon).unwrap().len(), 2);
    assert_eq!(get_summary_metric(&store, "run", Weekday::Sun).unwrap().longest_streak, 2);
    assert_eq!(get_longest_streak(&store, "run"), Some(2));
    assert_eq!(get_longest_streak(&store, "swim"), Some(0));
    assert_eq!(get_current_streak(&store, "run"), Ok(Some(0)));
}

#[test]
fn a_message_is_answered() {
    assert_eq!(test_command("hello".to_string()), "Message received: hello");
    assert_eq!(test_command(String::new()), "Message received: ");
}
