use chrono::{Datelike, Days, Local, NaiveDate};
use habitron::date::{Date, MAX_DAY, MIN_DAY};
use habitron::settings::insert_metric;
use habitron::store::{Metric, MetricStore};
use habitron::streaks::{
    get_habit_streak, get_longest_habit_streak, habit_streak_on, is_logged, logged_days, longest_streak, StreakError,
};
use rand::Rng;

const MAX_DATE: i32 = 20;
const METRIC_NAME: &str = "dsa_solved";
const DB_DATE_FORMAT: &str = "%Y-%m-%d";

fn day(date: NaiveDate) -> Date {
    Date::from_days(date.num_days_from_ce()).expect("date in range")
}

fn setup_test_db() -> MetricStore {
    MetricStore::new()
}

fn put(store: &mut MetricStore, file_path: String, name: &str, value: u32, date: NaiveDate) {
    let metric = Metric { file_path, name: name.to_string(), value, date: day(date) };
    insert_metric(store, &metric).expect("the clock gives a moment");
}

fn seed_test_data(store: &mut MetricStore, metric_name: &str, days: i32) {
    let current_date = Local::now().date_naive();
    for i in 0..=days {
        let value: u32 = rand::rng().random_range(1..=10);
        let days_back = i as u64;
        let date = current_date.checked_sub_days(Days::new(days_back)).expect("Invalid date for seeding");
        put(store, format!("test_file_{}.md", date.format("%Y-%m-%d")), metric_name, value, date);
    }
}

fn seed_database(store: &mut MetricStore) {
    seed_test_data(store, METRIC_NAME, MAX_DATE)
}

fn seed_database_by_index(store: &mut MetricStore) {
    let current_date = Local::now().date_naive();
    for i in 0..=MAX_DATE {
        let value: u32 = rand::rng().random_range(1..=10);
        let date = current_date.checked_sub_days(Days::new(i as u64)).expect("Invalid date for seeding");
        put(store, format!("file_{}.md", i), METRIC_NAME, value, date);
    }
}

#[test]
fn streaks_test_get_habit_streak() {
    let mut db = setup_test_db();
    seed_database(&mut db);
    let streak = get_habit_streak(&db, METRIC_NAME).expect("Failed to get habit streak");
    assert_eq!(streak, 20);
}

#[test]
fn streaks_test_broken_habit_streak() {
    let mut db = setup_test_db();
    seed_database(&mut db);

    let two_days_ago = Local::now().date_naive().checked_sub_days(Days::new(2)).expect("Invalid date");

    // Break 2 days ago: set to zero
    put(&mut db, format!("test_file_{}.md", two_days_ago.format(DB_DATE_FORMAT)), METRIC_NAME, 0, two_days_ago);

    let streak = get_habit_streak(&db, METRIC_NAME).expect("Failed to get streak");

    assert_eq!(streak, 1);
}

#[test]
fn streaks_test_missed_yesterday_resets_streak() {
    let mut db = setup_test_db();
    seed_database(&mut db);

    let yesterday = Local::now().date_naive().checked_sub_days(Days::new(1)).unwrap();

    put(&mut db, format!("test_file_{}.md", yesterday.format(DB_DATE_FORMAT)), METRIC_NAME, 0, yesterday);

    let streak = get_habit_streak(&db, METRIC_NAME).unwrap();
    assert_eq!(streak, 0);
}

#[test]
fn queries_test_get_habit_streak() {
    let mut db = setup_test_db();
    seed_database_by_index(&mut db);
    let streak = get_habit_streak(&db, METRIC_NAME).expect("Failed to get habit streak");
    assert_eq!(streak, 20);
}

#[test]
fn queries_test_broken_habit_streak() {
    let mut db = setup_test_db();
    seed_database_by_index(&mut db);

    let two_days_ago = Local::now().date_naive().checked_sub_days(Days::new(2)).expect("Invalid date");

    // Break 2 days ago: set to zero
    put(&mut db, "file_2.md".to_string(), METRIC_NAME, 0, two_days_ago);

    let streak = get_habit_streak(&db, METRIC_NAME).expect("Failed to get streak");

    assert_eq!(streak, 1);
}

#[test]
fn queries_test_missed_yesterday_resets_streak() {
    let mut db = setup_test_db();
    seed_database_by_index(&mut db);

    let yesterday = Local::now().date_naive().checked_sub_days(Days::new(1)).unwrap();

    put(&mut db, "file_1.md".to_string(), METRIC_NAME, 0, yesterday);

    let streak = get_habit_streak(&db, METRIC_NAME).unwrap();
    assert_eq!(streak, 0);
}

#[test]
fn test_get_longest_habit_streak_continuous() {
    let mut db = setup_test_db();
    seed_database(&mut db);

    let longest_streak = get_longest_habit_streak(&db, METRIC_NAME);
    assert_eq!(longest_streak, 21); // MAX_DATE + 1 (0 to 20 inclusive)
}

#[test]
fn test_get_longest_habit_streak_with_gaps() {
    let mut db = setup_test_db();

    // Create a pattern: 3 days, gap, 5 days, gap, 2 days
    let current_date = Local::now().date_naive();

    // First streak: 3 days (days 0, 1, 2)
    for i in 0..3 {
        let date = current_date.checked_sub_days(Days::new(i)).unwrap();
        put(&mut db, format!("file_{}.md", i), METRIC_NAME, 1, date);
    }

    // Second streak: 5 days (days 5, 6, 7, 8, 9)
    for i in 5..10 {
        let date = current_date.checked_sub_days(Days::new(i)).unwrap();
        put(&mut db, format!("file_{}.md", i), METRIC_NAME, 1, date);
    }

    // Third streak: 2 days (days 12, 13)
    for i in 12..14 {
        let date = current_date.checked_sub_days(Days::new(i)).unwrap();
        put(&mut db, format!("file_{}.md", i), METRIC_NAME, 1, date);
    }

    let longest_streak = get_longest_habit_streak(&db, METRIC_NAME);
    assert_eq!(longest_streak, 5); // Should find the longest streak of 5 days
}

#[test]
fn test_get_longest_habit_streak_no_entries() {
    let db = setup_test_db();

    let longest_streak = get_longest_habit_streak(&db, "nonexistent_habit");
    assert_eq!(longest_streak, 0);
}

#[test]
fn test_get_longest_habit_streak_single_entry() {
    let mut db = setup_test_db();

    let current_date = Local::now().date_naive();

    put(&mut db, "single_file.md".to_string(), METRIC_NAME, 1, current_date);

    let longest_streak = get_longest_habit_streak(&db, METRIC_NAME);
    assert_eq!(longest_streak, 1);
}

#[test]
fn a_record_of_today_does_not_extend_the_streak() {
    let mut db = setup_test_db();
    let today = NaiveDate::from_ymd_opt(2024, 3, 10).unwrap();
    put(&mut db, "a.md".to_string(), "run", 5, today);
    assert_eq!(habit_streak_on(&db, Some("run"), day(today)), Ok(0));
    put(&mut db, "b.md".to_string(), "run", 5, today.pred_opt().unwrap());
    assert_eq!(habit_streak_on(&db, Some("run"), day(today)), Ok(1));
    assert_eq!(habit_streak_on(&db, Some("walk"), day(today)), Ok(0));
    assert_eq!(habit_streak_on(&db, None, day(today)), Ok(1));
}

#[test]
fn there_is_no_streak_on_the_first_date() {
    let db = setup_test_db();
    let first = Date::from_days(MIN_DAY).unwrap();
    assert_eq!(habit_streak_on(&db, Some("run"), first), Err(StreakError::NoYesterday));
}

#[test]
fn a_streak_that_reaches_the_first_date_ends_there() {
    let mut db = setup_test_db();
    for n in 0..3 {
        let d = Date::from_days(MIN_DAY + n).unwrap();
        db.upsert_metric(
            Metric { file_path: format!("f{}.md", n), name: "run".to_string(), value: 1, date: d },
            habitron::date::Timestamp { day: d, second: 0 },
        );
    }
    let today = Date::from_days(MIN_DAY + 3).unwrap();
    assert_eq!(habit_streak_on(&db, Some("run"), today), Ok(3));
    assert_eq!(longest_streak(&db, Some("run")), 3);
}

#[test]
fn longest_streak_counts_a_day_once_whatever_the_number_of_files() {
    let mut db = setup_test_db();
    let base = NaiveDate::from_ymd_opt(2024, 2, 27).unwrap();
    for (file, offset) in [("a", 0u64), ("b", 1), ("c", 1), ("d", 2), ("e", 3)] {
        put(&mut db, format!("{}.md", file), "run", 1, base.checked_add_days(Days::new(offset)).unwrap());
    }
    put(&mut db, "z.md".to_string(), "run", 0, base.checked_add_days(Days::new(4)).unwrap());
    put(&mut db, "y.md".to_string(), "walk", 9, base.checked_add_days(Days::new(4)).unwrap());
    assert_eq!(get_longest_habit_streak(&db, "run"), 4);
    assert_eq!(longest_streak(&db, None), 5);
    let days = logged_days(&db, Some("run"));
    let first = base.num_days_from_ce();
    assert_eq!(days, vec![first, first + 1, first + 2, first + 3]);
    assert!(is_logged(&db, Some("run"), day(base)));
    assert!(!is_logged(&db, Some("run"), day(base.checked_add_days(Days::new(4)).unwrap())));
    assert!(is_logged(&db, None, day(base.checked_add_days(Days::new(4)).unwrap())));
}

#[test]
fn the_calendar_is_that_of_chrono() {
    assert_eq!(NaiveDate::MIN.num_days_from_ce(), MIN_DAY);
    assert_eq!(NaiveDate::MAX.num_days_from_ce(), MAX_DAY);
    assert!(NaiveDate::from_num_days_from_ce_opt(MIN_DAY - 1).is_none());
    assert!(NaiveDate::from_num_days_from_ce_opt(MAX_DAY + 1).is_none());
    assert!(Date::from_days(MIN_DAY - 1).is_none());
    assert!(Date::from_days(MAX_DAY + 1).is_none());
    assert_eq!(Date::from_days(MIN_DAY).unwrap().days(), MIN_DAY);
    assert_eq!(Date::from_days(MAX_DAY).unwrap().days(), MAX_DAY);
}

#[test]
fn day_arithmetic_is_that_of_chrono() {
    let base = NaiveDate::from_ymd_opt(2024, 2, 28).unwrap();
    let d = day(base);
    assert_eq!(d.succ_opt().unwrap(), day(base.succ_opt().unwrap()));
    assert_eq!(d.pred_opt().unwrap(), day(base.pred_opt().unwrap()));
    assert_eq!(d.checked_add_days(400).unwrap(), day(base.checked_add_days(Days::new(400)).unwrap()));
    assert_eq!(d.checked_sub_days(400).unwrap(), day(base.checked_sub_days(Days::new(400)).unwrap()));
    assert_eq!(d.checked_add_days(2).unwrap().days_since(d), 2);
    assert_eq!(d.days_since(d.checked_add_days(2).unwrap()), -2);
    assert!(d.checked_add_days(u64::MAX).is_none());
    assert!(d.checked_sub_days(u64::MAX).is_none());
    let last = Date::from_days(MAX_DAY).unwrap();
    let first = Date::from_days(MIN_DAY).unwrap();
    assert!(last.succ_opt().is_none());
    assert!(NaiveDate::MAX.succ_opt().is_none());
    assert!(first.pred_opt().is_none());
    assert!(NaiveDate::MIN.pred_opt().is_none());
    assert_eq!(last.checked_sub_days(1).unwrap().checked_add_days(1), Some(last));
    assert_eq!(last.days_since(first), MAX_DAY as i64 - MIN_DAY as i64);
}
