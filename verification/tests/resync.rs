use habitron::resync::{
    init, progress_percent, set_journal_files_path, PathAction, ProgressThrottle, Resync, ResyncAction, ResyncEvent,
    ResyncPhase, PROGRESS_INTERVAL_MS,
};
use habitron::store::MetricStore;

fn show(actions: &[ResyncAction]) -> Vec<String> {
    actions.iter().map(|a| format!("{:?}", a)).collect()
}

#[test]
fn progress_is_the_rounded_share_of_files_done() {
    assert_eq!(progress_percent(0, 1), 100);
    assert_eq!(progress_percent(0, 3), 33);
    assert_eq!(progress_percent(1, 3), 67);
    assert_eq!(progress_percent(2, 3), 100);
    assert_eq!(progress_percent(0, 8), 13);
    assert_eq!(progress_percent(0, 200), 1);
    assert_eq!(progress_percent(0, 201), 0);
    assert_eq!(progress_percent(usize::MAX - 1, usize::MAX), 100);
    for total in [1usize, 2, 7, 40, 1000] {
        for index in 0..total {
            let percent = progress_percent(index, total);
            let done = 100 * (index + 1);
            assert!(2 * done + total >= 2 * total * percent as usize);
            assert!(2 * done + total < 2 * total * (percent as usize + 1));
            if (2 * done) % (2 * total) != total {
                let by_float = ((index + 1) as f64 / total as f64 * 100.0).round() as u32;
                assert_eq!(percent, by_float);
            }
        }
    }
    assert_eq!(PROGRESS_INTERVAL_MS, 500);
}

#[test]
fn the_throttle_keeps_the_latest_percentage_until_the_tick() {
    let mut throttle = ProgressThrottle::new();
    assert_eq!(throttle.tick(), None);
    throttle.record(10);
    throttle.record(10);
    throttle.record(35);
    assert_eq!(throttle.tick(), Some(35));
    assert_eq!(throttle.tick(), None);
    throttle.record(100);
    assert_eq!(throttle.tick(), Some(100));
}

#[test]
fn a_resync_does_nothing_without_tracked_metrics() {
    let mut run = Resync::new();
    assert_eq!(run.phase(), ResyncPhase::Idle);
    assert!(run.step(ResyncEvent::Begin(0)).is_empty());
    assert_eq!(run.phase(), ResyncPhase::Done);
    assert!(run.step(ResyncEvent::Scanned(vec!["a.md".to_string()])).is_empty());
    assert_eq!(run.phase(), ResyncPhase::Done);
}

#[test]
fn a_resync_submits_every_path_in_the_order_of_the_scan() {
    let mut run = Resync::new();
    assert_eq!(show(&run.step(ResyncEvent::Begin(2))), vec!["StartAndScan"]);
    assert_eq!(run.phase(), ResyncPhase::Scanning);
    assert!(run.step(ResyncEvent::Sent(true)).is_empty());
    let paths = vec!["a.md".to_string(), "b.md".to_string(), "c.md".to_string()];
    assert_eq!(show(&run.step(ResyncEvent::Scanned(paths))), vec!["Submit(\"a.md\")"]);
    assert_eq!(run.phase(), ResyncPhase::Sending(0));
    assert_eq!(show(&run.step(ResyncEvent::Sent(true))), vec!["Report(33)", "Submit(\"b.md\")"]);
    assert_eq!(show(&run.step(ResyncEvent::Sent(false))), vec!["Submit(\"c.md\")"]);
    assert_eq!(run.phase(), ResyncPhase::Sending(2));
    assert!(run.step(ResyncEvent::Begin(2)).is_empty());
    assert_eq!(show(&run.step(ResyncEvent::Sent(true))), vec!["Report(100)", "Close"]);
    assert_eq!(run.phase(), ResyncPhase::Done);
    assert!(run.step(ResyncEvent::Sent(true)).is_empty());
}

#[test]
fn a_resync_closes_after_an_empty_or_a_failed_scan() {
    let mut run = Resync::new();
    run.step(ResyncEvent::Begin(1));
    assert_eq!(show(&run.step(ResyncEvent::Scanned(Vec::new()))), vec!["Close"]);
    assert_eq!(run.phase(), ResyncPhase::Done);
    let mut run = Resync::new();
    run.step(ResyncEvent::Begin(1));
    assert_eq!(show(&run.step(ResyncEvent::ScanFailed)), vec!["Close"]);
    assert_eq!(run.phase(), ResyncPhase::Done);
}

fn show_path(actions: &[PathAction]) -> Vec<String> {
    actions.iter().map(|a| format!("{:?}", a)).collect()
}

#[test]
fn a_change_of_root_unwatches_resyncs_and_watches() {
    let mut store = MetricStore::new();
    let first = set_journal_files_path(&mut store, "/old");
    assert_eq!(show_path(&first), vec!["Resync(\"/old\")", "Watch(\"/old\")"]);
    let second = set_journal_files_path(&mut store, "/new");
    assert_eq!(show_path(&second), vec!["Unwatch(\"/old\")", "Resync(\"/new\")", "Watch(\"/new\")"]);
    assert_eq!(store.journal_path(), &Some("/new".to_string()));
}

#[test]
fn the_start_scans_only_where_something_is_tracked() {
    let mut store = MetricStore::new();
    let plan = init(&store);
    assert_eq!((plan.scan, plan.watch), (None, None));
    store.set_journal_path("/j");
    let plan = init(&store);
    assert_eq!((plan.scan, plan.watch), (None, Some("/j".to_string())));
    store.track("run");
    let plan = init(&store);
    assert_eq!((plan.scan, plan.watch), (Some("/j".to_string()), Some("/j".to_string())));
}
