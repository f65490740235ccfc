use chrono::{Datelike, Days, NaiveDate, Weekday as ChronoWeekday};
use habitron::dashboard::{
    days_up_to, get_days, get_monthly_metric_total, get_weekly_data, get_weekly_metric_avg,
    get_weekly_metric_avg_from, get_weekly_metric_stats,
    monthly_metric_total_on, week_of, weekly_avg_from, weekly_metric_avg_on, weekly_metric_stats, weekly_stats_on,
    window_totals, DashboardError,
};
use habitron::date::{Date, Timestamp, Weekday, MAX_DAY, MIN_DAY};
use habitron::store::{Metric, MetricStore};

fn day(date: NaiveDate) -> Date {
    Date::from_days(date.num_days_from_ce()).expect("date in range")
}

fn ymd(y: i32, m: u32, d: u32) -> NaiveDate {
    NaiveDate::from_ymd_opt(y, m, d).unwrap()
}

fn put(store: &mut MetricStore, file_path: &str, name: &str, value: u32, date: NaiveDate) {
    let metric = Metric { file_path: file_path.to_string(), name: name.to_string(), value, date: day(date) };
    store.upsert_metric(metric, Timestamp { day: day(date), second: 0 });
}

fn init_db() -> MetricStore {
    MetricStore::new()
}

#[test]
fn test_weekly_metrics() {
    let db_con = init_db();
    let res = weekly_metric_stats(&db_con, "pages_read", "Sun").unwrap();
    println!("prev week: {:#?}", res.prev_week);
    println!("current week: {:#?}", res.current_week);
}

#[test]
fn get_weekly_average() {
    let db_con = init_db();
    let result = get_weekly_metric_avg(&db_con, "dsa_problems_solved").unwrap();
    println!("result: {:#?}", result);
}

#[test]
fn the_week_is_that_of_chrono() {
    let starts = [
        (Weekday::Mon, ChronoWeekday::Mon),
        (Weekday::Tue, ChronoWeekday::Tue),
        (Weekday::Wed, ChronoWeekday::Wed),
        (Weekday::Thu, ChronoWeekday::Thu),
        (Weekday::Fri, ChronoWeekday::Fri),
        (Weekday::Sat, ChronoWeekday::Sat),
        (Weekday::Sun, ChronoWeekday::Sun),
    ];
    let base = ymd(2024, 2, 26);
    for offset in 0..14u64 {
        let date = base.checked_add_days(Days::new(offset)).unwrap();
        for (ours, theirs) in starts {
            let (first, last) = week_of(day(date), ours).unwrap();
            let week = date.week(theirs);
            assert_eq!(first, day(week.first_day()));
            assert_eq!(last, day(week.last_day()));
        }
    }
    assert_eq!(Weekday::Mon.index(), 0);
    assert_eq!(Weekday::Sun.index(), 6);
    for (ours, theirs) in starts {
        assert_eq!(ours.index() as u32, theirs.num_days_from_monday());
        assert_eq!(Weekday::from_index(ours.index()), Some(ours));
    }
    assert_eq!(Weekday::from_index(7), None);
    let mut inside = 0;
    for edge in [NaiveDate::MIN, NaiveDate::MAX] {
        for (ours, theirs) in starts {
            let week = edge.week(theirs);
            let whole = week.checked_first_day().is_some() && week.checked_last_day().is_some();
            let got = week_of(day(edge), ours);
            assert_eq!(got.is_some(), whole);
            if let Some((first, last)) = got {
                inside += 1;
                assert_eq!(first, day(week.first_day()));
                assert_eq!(last, day(week.last_day()));
            }
        }
    }
    assert_eq!(inside, 2);
    assert_eq!(day(NaiveDate::MIN).days(), MIN_DAY);
    assert_eq!(day(NaiveDate::MAX).days(), MAX_DAY);
}

#[test]
fn the_day_of_the_week_is_that_of_chrono_in_every_age() {
    let days = [MIN_DAY, MIN_DAY + 1, -1_000_000, -400, -8, -7, -6, -1, 0, 1, 2, 7, 8, 719_163, 738_950, MAX_DAY - 7, MAX_DAY];
    for d in days {
        for shift in 0..7 {
            let n = if d + shift <= MAX_DAY { d + shift } else { d - shift };
            let date = NaiveDate::from_num_days_from_ce_opt(n).unwrap();
            assert_eq!((n as i64 - 1).rem_euclid(7) as u32, date.weekday().num_days_from_monday());
            let week = date.week(ChronoWeekday::Mon);
            let got = week_of(day(date), Weekday::Mon);
            let whole = week.checked_first_day().is_some() && week.checked_last_day().is_some();
            assert_eq!(got.is_some(), whole);
            if let Some((first, _)) = got {
                assert_eq!(day(date).days_since(first) as u32, date.weekday().num_days_from_monday());
            }
        }
    }
}

#[test]
fn the_weekly_average_of_today_takes_the_first_day_of_the_week() {
    let mut store = MetricStore::new();
    let today = chrono::Local::now().date_naive();
    let yesterday = today.pred_opt().unwrap();
    put(&mut store, "a.md", "run", 10, today);
    put(&mut store, "b.md", "run", 20, yesterday);
    let names = [
        (Weekday::Mon, ChronoWeekday::Mon),
        (Weekday::Tue, ChronoWeekday::Tue),
        (Weekday::Wed, ChronoWeekday::Wed),
        (Weekday::Thu, ChronoWeekday::Thu),
        (Weekday::Fri, ChronoWeekday::Fri),
        (Weekday::Sat, ChronoWeekday::Sat),
        (Weekday::Sun, ChronoWeekday::Sun),
    ];
    for (ours, theirs) in names {
        let expected = if today.weekday() == theirs { 10 } else { 15 };
        assert_eq!(get_weekly_metric_avg_from(&store, "run", ours), Ok(expected));
    }
    assert_eq!(get_weekly_metric_avg(&store, "run"), get_weekly_metric_avg_from(&store, "run", Weekday::Sun));
}

#[test]
fn the_weekly_average_is_the_rounded_mean_of_the_records_there_are() {
    let mut store = MetricStore::new();
    let today = ymd(2024, 3, 6);
    assert_eq!(weekly_metric_avg_on(&store, "run", day(today)), Ok(0));
    put(&mut store, "a.md", "run", 10, ymd(2024, 3, 3));
    put(&mut store, "b.md", "run", 11, ymd(2024, 3, 9));
    put(&mut store, "c.md", "run", 100, ymd(2024, 3, 2));
    put(&mut store, "d.md", "run", 100, ymd(2024, 3, 10));
    put(&mut store, "e.md", "read", 100, ymd(2024, 3, 5));
    assert_eq!(weekly_metric_avg_on(&store, "run", day(today)), Ok(11));
    assert_eq!(weekly_avg_from(&store, "run", Weekday::Sun, day(today)), Ok(11));
    assert_eq!(weekly_avg_from(&store, "run", Weekday::Mon, day(today)), Ok(56));
    assert_eq!(weekly_avg_from(&store, "run", Weekday::Thu, day(today)), Ok(55));
    put(&mut store, "f.md", "run", 0, ymd(2024, 3, 5));
    assert_eq!(weekly_metric_avg_on(&store, "run", day(today)), Ok(7));
    put(&mut store, "g.md", "run", u32::MAX, ymd(2024, 3, 4));
    put(&mut store, "a.md", "run", u32::MAX, ymd(2024, 3, 3));
    put(&mut store, "b.md", "run", u32::MAX, ymd(2024, 3, 9));
    put(&mut store, "f.md", "run", u32::MAX, ymd(2024, 3, 5));
    assert_eq!(weekly_metric_avg_on(&store, "run", day(today)), Ok(i32::MAX));
    let early = Date::from_days(MIN_DAY + 1).unwrap();
    assert_eq!(weekly_metric_avg_on(&store, "run", early), Err(DashboardError::DateOutOfRange));
    assert_eq!(window_totals(&store, "read", day(ymd(2024, 3, 1)), day(ymd(2024, 3, 31))), (100, 1));
}

#[test]
fn the_monthly_total_is_the_sum_of_the_month() {
    let mut store = MetricStore::new();
    let today = ymd(2024, 2, 10);
    assert_eq!(monthly_metric_total_on(&store, "run", day(today)), Ok(0));
    put(&mut store, "a.md", "run", 10, ymd(2024, 2, 1));
    put(&mut store, "b.md", "run", 5, ymd(2024, 2, 29));
    put(&mut store, "c.md", "run", 100, ymd(2024, 1, 31));
    put(&mut store, "d.md", "run", 100, ymd(2024, 3, 1));
    put(&mut store, "e.md", "read", 100, ymd(2024, 2, 5));
    put(&mut store, "f.md", "run", 7, ymd(2024, 2, 1));
    assert_eq!(monthly_metric_total_on(&store, "run", day(today)), Ok(22));
    assert_eq!(monthly_metric_total_on(&store, "run", day(ymd(2024, 12, 31))), Ok(0));
    put(&mut store, "g.md", "run", u32::MAX, ymd(2024, 2, 2));
    assert_eq!(monthly_metric_total_on(&store, "run", day(today)), Err(DashboardError::TotalTooLarge));
    let last = Date::from_days(MAX_DAY).unwrap();
    assert_eq!(monthly_metric_total_on(&store, "run", last), Err(DashboardError::DateOutOfRange));
    assert_eq!(get_monthly_metric_total(&MetricStore::new(), "run"), Ok(0));
}

#[test]
fn the_weekly_series_cover_last_week_and_this_week_up_to_today() {
    let mut store = MetricStore::new();
    let today = ymd(2024, 3, 6);
    put(&mut store, "a.md", "run", 10, ymd(2024, 3, 3));
    put(&mut store, "b.md", "run", 6, today);
    put(&mut store, "c.md", "run", 4, ymd(2024, 2, 29));
    put(&mut store, "d.md", "run", 9, ymd(2024, 3, 7));
    let stats = weekly_stats_on(&store, "run", Weekday::Sun, day(today)).unwrap();
    let prev: Vec<(&str, i64)> = stats.prev_week.iter().map(|p| (p.date.as_str(), p.value)).collect();
    let current: Vec<(&str, i64)> = stats.current_week.iter().map(|p| (p.date.as_str(), p.value)).collect();
    assert_eq!(
        prev,
        vec![
            ("2024-02-25", 0),
            ("2024-02-26", 0),
            ("2024-02-27", 0),
            ("2024-02-28", 0),
            ("2024-02-29", 4),
            ("2024-03-01", 0),
            ("2024-03-02", 0)
        ]
    );
    assert_eq!(current, vec![("2024-03-03", 10), ("2024-03-04", 0), ("2024-03-05", 0), ("2024-03-06", 6)]);
    let monday = weekly_stats_on(&store, "run", Weekday::Mon, day(today)).unwrap();
    assert_eq!(monday.current_week.len(), 3);
    assert_eq!(monday.prev_week[0].date, "2024-02-26");
    let early = Date::from_days(MIN_DAY + 6).unwrap();
    assert_eq!(weekly_stats_on(&store, "run", Weekday::Sun, early).unwrap_err(), DashboardError::DateOutOfRange);
}

#[test]
fn the_first_day_of_the_week_is_read_as_chrono_reads_it() {
    let store = MetricStore::new();
    for text in ["Sun", "sunday", "MON", "tue", "Wednesday", "thu", "fri", "Sat"] {
        assert!(text.parse::<ChronoWeekday>().is_ok());
        let stats = get_weekly_metric_stats(&store, "run", text).unwrap();
        assert_eq!(stats.prev_week.len(), 7);
        assert!(!stats.current_week.is_empty() && stats.current_week.len() <= 7);
    }
    for text in ["", "su", "someday", "Sun "] {
        assert!(text.parse::<ChronoWeekday>().is_err());
        assert_eq!(weekly_metric_stats(&store, "run", text).unwrap_err(), DashboardError::BadWeekday);
    }
    let today = chrono::Local::now().date_naive();
    let sunday = weekly_metric_stats(&store, "run", "Sun").unwrap();
    assert_eq!(sunday.current_week.len() as u32, today.weekday().num_days_from_sunday() + 1);
    let monday = weekly_metric_stats(&store, "run", "monday").unwrap();
    assert_eq!(monday.current_week.len() as u32, today.weekday().num_days_from_monday() + 1);
}

#[test]
fn a_weekly_series_counts_only_the_days_up_to_its_end() {
    let mut store = MetricStore::new();
    put(&mut store, "a.md", "run", 10, ymd(2024, 3, 3));
    put(&mut store, "b.md", "run", 6, ymd(2024, 3, 5));
    let data = get_weekly_data(&store, "run", day(ymd(2024, 3, 3)), day(ymd(2024, 3, 4)), 4);
    let got: Vec<(&str, i64)> = data.iter().map(|p| (p.date.as_str(), p.value)).collect();
    assert_eq!(got, vec![("2024-03-03", 10), ("2024-03-04", 0), ("2024-03-05", 0), ("2024-03-06", 0)]);
    let end = Date::from_days(MAX_DAY).unwrap();
    assert_eq!(get_weekly_data(&store, "run", end.pred_opt().unwrap(), end, 7).len(), 2);
    assert!(get_weekly_data(&store, "run", end, end, 0).is_empty());
}

#[test]
fn the_days_of_the_past_week_are_named_as_chrono_names_them() {
    let labels = days_up_to(day(ymd(2024, 3, 6))).unwrap();
    assert_eq!(labels, vec!["Thu", "Fri", "Sat", "Sun", "Mon", "Tue", "Wed"]);
    assert!(days_up_to(Date::from_days(MIN_DAY + 5).unwrap()).is_none());
    assert_eq!(days_up_to(Date::from_days(MIN_DAY + 6).unwrap()).unwrap().len(), 7);
    let now = get_days().unwrap();
    assert_eq!(now.len(), 7);
    assert_eq!(now[6], chrono::Local::now().format("%a").to_string());
}
