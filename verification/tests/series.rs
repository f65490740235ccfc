use chrono::{Datelike, Days, Months, NaiveDate};
use habitron::date::{Date, Timestamp, MIN_DAY};
use habitron::series::{
    dense_series, get_acitivity_data, get_all_habits, get_month_range_data, get_recent_activity, intensity_levels,
    recent_activity_on, trend_series, value_for, DataPoint, SeriesError,
};
use habitron::store::{Metric, MetricStore};
use habitron::summary::get_current_streak_data;

fn day(date: NaiveDate) -> Date {
    Date::from_days(date.num_days_from_ce()).expect("date in range")
}

fn ymd(y: i32, m: u32, d: u32) -> NaiveDate {
    NaiveDate::from_ymd_opt(y, m, d).unwrap()
}

fn put(store: &mut MetricStore, file_path: &str, name: &str, value: u32, date: NaiveDate) {
    let metric = Metric { file_path: file_path.to_string(), name: name.to_string(), value, date: day(date) };
    store.upsert_metric(metric, Timestamp { day: day(date), second: 0 });
}

fn sample() -> MetricStore {
    let mut store = MetricStore::new();
    put(&mut store, "2024-03-01.md", "run", 3, ymd(2024, 3, 1));
    put(&mut store, "2024-03-01.md", "read", 20, ymd(2024, 3, 1));
    put(&mut store, "2024-03-04.md", "run", 7, ymd(2024, 3, 4));
    store
}

#[test]
fn trend_series_has_one_entry_for_each_day() {
    let store = sample();
    let today = ymd(2024, 3, 5);
    for days in [0u32, 1, 4, 30, 400] {
        let series = trend_series(&store, "run", day(today), days).unwrap();
        assert_eq!(series.len(), days as usize + 1);
        for (i, point) in series.iter().enumerate() {
            let date = today.checked_sub_days(Days::new((days as usize - i) as u64)).unwrap();
            assert_eq!(point.date, date.format("%Y-%m-%d").to_string());
        }
        assert_eq!(series.last().unwrap().date, "2024-03-05");
    }
    let series = trend_series(&store, "run", day(today), 4).unwrap();
    let values: Vec<i64> = series.iter().map(|p| p.value).collect();
    assert_eq!(values, vec![3, 0, 0, 7, 0]);
}

#[test]
fn trend_series_fails_before_the_first_date() {
    let store = sample();
    let early = Date::from_days(MIN_DAY + 3).unwrap();
    assert_eq!(trend_series(&store, "run", early, 4).unwrap_err(), SeriesError::DateOutOfRange);
    assert_eq!(trend_series(&store, "run", early, 3).unwrap().len(), 4);
}

#[test]
fn dense_series_is_empty_for_a_span_that_ends_before_it_begins() {
    let store = sample();
    assert!(dense_series(&store, "run", day(ymd(2024, 3, 5)), day(ymd(2024, 3, 4))).is_empty());
    let one = dense_series(&store, "run", day(ymd(2024, 3, 4)), day(ymd(2024, 3, 4)));
    assert_eq!(one.len(), 1);
    assert_eq!(one[0].value, 7);
    assert_eq!(one[0].date, "2024-03-04");
}

#[test]
fn dates_are_written_as_chrono_writes_them() {
    let store = MetricStore::new();
    let start = ymd(1999, 12, 30);
    let series = dense_series(&store, "run", day(start), day(ymd(2000, 1, 2)));
    let dates: Vec<&str> = series.iter().map(|p| p.date.as_str()).collect();
    assert_eq!(dates, vec!["1999-12-30", "1999-12-31", "2000-01-01", "2000-01-02"]);
}

#[test]
fn value_of_a_day_is_that_of_the_record_written_last() {
    let mut store = sample();
    assert_eq!(value_for(&store, "run", day(ymd(2024, 3, 1))), 3);
    assert_eq!(value_for(&store, "run", day(ymd(2024, 3, 2))), 0);
    assert_eq!(value_for(&store, "swim", day(ymd(2024, 3, 1))), 0);
    put(&mut store, "other/2024-03-01.md", "run", 11, ymd(2024, 3, 1));
    assert_eq!(value_for(&store, "run", day(ymd(2024, 3, 1))), 11);
    put(&mut store, "2024-03-01.md", "run", 4, ymd(2024, 3, 1));
    assert_eq!(value_for(&store, "run", day(ymd(2024, 3, 1))), 4);
}

#[test]
fn habits_come_in_the_order_in_which_they_first_occur() {
    let store = sample();
    assert_eq!(get_all_habits(&store), vec!["run".to_string(), "read".to_string()]);
    assert!(get_all_habits(&MetricStore::new()).is_empty());
}

#[test]
fn activity_has_a_series_for_each_habit() {
    let store = sample();
    let data = get_acitivity_data(&store, day(ymd(2024, 2, 29)), day(ymd(2024, 3, 4)));
    assert_eq!(data.len(), 2);
    assert_eq!(data[0].habit_name, "run");
    assert_eq!(data[1].habit_name, "read");
    let run: Vec<i64> = data[0].data.iter().map(|p| p.value).collect();
    let read: Vec<i64> = data[1].data.iter().map(|p| p.value).collect();
    assert_eq!(run, vec![0, 3, 0, 0, 7]);
    assert_eq!(read, vec![0, 20, 0, 0, 0]);
    assert_eq!(data[1].data[0].date, "2024-02-29");
}

#[test]
fn recent_activity_covers_the_month_up_to_today() {
    let store = sample();
    let today = ymd(2024, 3, 31);
    let data = recent_activity_on(&store, day(today)).unwrap().unwrap();
    let start = today.checked_sub_months(Months::new(1)).unwrap();
    assert_eq!(start, ymd(2024, 2, 29));
    assert_eq!(data[0].data.len(), 32);
    assert_eq!(data[0].data[0].date, "2024-02-29");
    assert_eq!(data[0].data[31].date, "2024-03-31");
    assert!(recent_activity_on(&MetricStore::new(), day(today)).unwrap().is_none());
    assert!(get_recent_activity(&MetricStore::new()).unwrap().is_none());
    let now = get_recent_activity(&store).unwrap().unwrap();
    assert_eq!(now.len(), 2);
    assert!(now[0].data.len() >= 29 && now[0].data.len() <= 32);
    let first = Date::from_days(MIN_DAY + 5).unwrap();
    assert_eq!(recent_activity_on(&store, first).unwrap_err(), SeriesError::DateOutOfRange);
}

#[test]
fn month_range_runs_a_week_past_either_end() {
    let store = sample();
    let first = ymd(2024, 3, 1);
    let data = get_month_range_data(day(first), &store).unwrap();
    assert_eq!(data[0].data.first().unwrap().date, "2024-02-23");
    assert_eq!(data[0].data.last().unwrap().date, "2024-04-07");
    let next = first.checked_add_months(Months::new(1)).unwrap();
    assert_eq!(next, ymd(2024, 4, 1));
    let by_month = get_current_streak_data(&store, 2024, 3).unwrap();
    assert_eq!(by_month[0].data.len(), data[0].data.len());
    assert_eq!(by_month[0].data[7].value, 3);
    assert_eq!(get_current_streak_data(&store, 2024, 13).unwrap_err(), SeriesError::DateOutOfRange);
    let early = Date::from_days(MIN_DAY + 6).unwrap();
    assert_eq!(get_month_range_data(early, &store).unwrap_err(), SeriesError::DateOutOfRange);
    let jan31 = get_month_range_data(day(ymd(2024, 1, 31)), &store).unwrap();
    assert_eq!(jan31[0].data.last().unwrap().date, "2024-03-06");
}

#[test]
fn intensity_is_the_quarter_of_the_largest_value() {
    let series: Vec<DataPoint> = [0i64, 1, 25, 26, 50, 51, 75, 76, 100]
        .iter()
        .map(|v| DataPoint { value: *v, date: String::new() })
        .collect();
    assert_eq!(intensity_levels(&series), vec![0, 1, 1, 2, 2, 3, 3, 4, 4]);
    let flat: Vec<DataPoint> = [0i64, 0].iter().map(|v| DataPoint { value: *v, date: String::new() }).collect();
    assert_eq!(intensity_levels(&flat), vec![0, 0]);
    let one: Vec<DataPoint> = vec![DataPoint { value: 7, date: String::new() }];
    assert_eq!(intensity_levels(&one), vec![4]);
    assert!(intensity_levels(&Vec::new()).is_empty());
}
