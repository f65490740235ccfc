use habitron::watcher::{
    start_watcher, ChangedPath, ControlAction, EventBuffer, EventKind, Lifecycle, WatchCommand, WatcherControl,
    FLUSH_INTERVAL_MS, MAX_BUFFER_SIZE,
};

fn changed(path: &str) -> ChangedPath {
    let p = std::path::Path::new(path);
    ChangedPath {
        path: Some(path.to_string()),
        is_file: true,
        extension: p.extension().and_then(|s| s.to_str()).map(|s| s.to_string()),
    }
}

#[test]
fn rapid_events_on_one_path_give_one_submission() {
    let mut buffer = EventBuffer::new();
    for n in 0..50u64 {
        let out = buffer.on_event(EventKind::Modify, &vec![changed("/j/2024-03-05.md")], n * 10);
        assert!(out.is_empty());
    }
    assert_eq!(buffer.len(), 1);
    let out = buffer.on_event(EventKind::Modify, &vec![changed("/j/2024-03-05.md")], FLUSH_INTERVAL_MS);
    assert_eq!(out, vec!["/j/2024-03-05.md".to_string()]);
    assert!(buffer.is_empty());
    let out = buffer.on_event(EventKind::Create, &vec![changed("/j/2024-03-05.md")], 0);
    assert!(out.is_empty());
    assert_eq!(buffer.len(), 1);
}

#[test]
fn a_full_buffer_is_emptied_at_once() {
    let mut buffer = EventBuffer::new();
    for n in 0..MAX_BUFFER_SIZE - 1 {
        let out = buffer.on_event(EventKind::Create, &vec![changed(&format!("/j/{}.md", n))], 1);
        assert!(out.is_empty());
    }
    let out = buffer.on_event(EventKind::Create, &vec![changed("/j/last.md")], 1);
    assert_eq!(out.len(), MAX_BUFFER_SIZE);
    assert_eq!(out[0], "/j/0.md");
    assert_eq!(out[MAX_BUFFER_SIZE - 1], "/j/last.md");
    assert!(buffer.is_empty());
}

#[test]
fn only_markdown_files_of_creating_and_modifying_events_are_gathered() {
    let mut buffer = EventBuffer::new();
    let paths = vec![
        changed("/j/a.md"),
        changed("/j/a.txt"),
        ChangedPath { path: Some("/j/dir.md".to_string()), is_file: false, extension: Some("md".to_string()) },
        ChangedPath { path: None, is_file: true, extension: Some("md".to_string()) },
        changed("/j/b.md"),
        changed("/j/a.md"),
    ];
    assert!(buffer.on_event(EventKind::Other, &paths, 5_000).is_empty());
    assert!(buffer.is_empty());
    assert!(buffer.on_event(EventKind::Modify, &paths, 999).is_empty());
    assert_eq!(buffer.len(), 2);
    assert!(buffer.on_event(EventKind::Other, &paths, 5_000).is_empty());
    assert_eq!(buffer.len(), 2);
    assert_eq!(buffer.finish(), vec!["/j/a.md".to_string(), "/j/b.md".to_string()]);
    assert!(buffer.is_empty());
    assert!(buffer.on_event(EventKind::Modify, &Vec::new(), 5_000).is_empty());
}

#[test]
fn a_tick_empties_the_buffer_once_the_interval_has_passed() {
    let mut buffer = EventBuffer::new();
    assert!(buffer.on_tick(5_000).is_empty());
    assert!(buffer.on_event(EventKind::Modify, &vec![changed("/j/a.md")], 10).is_empty());
    assert!(buffer.on_tick(FLUSH_INTERVAL_MS - 1).is_empty());
    assert_eq!(buffer.len(), 1);
    assert_eq!(buffer.on_tick(FLUSH_INTERVAL_MS), vec!["/j/a.md".to_string()]);
    assert!(buffer.is_empty());
    assert!(buffer.on_tick(FLUSH_INTERVAL_MS).is_empty());
}

#[test]
fn insert_says_whether_the_path_is_new() {
    let mut buffer = EventBuffer::new();
    assert!(buffer.insert("a.md"));
    assert!(!buffer.insert("a.md"));
    assert!(buffer.insert("b.md"));
    assert_eq!(buffer.drain(), vec!["a.md".to_string(), "b.md".to_string()]);
    assert_eq!(buffer.len(), 0);
}

fn is_watch(action: &ControlAction, path: &str) -> bool {
    matches!(action, ControlAction::Watch(p) if p == path)
}

fn is_unwatch(action: &ControlAction, path: &str) -> bool {
    matches!(action, ControlAction::Unwatch(p) if p == path)
}

#[test]
fn the_watcher_follows_its_commands_until_it_is_stopped() {
    let mut control = start_watcher(Some("/j".to_string()));
    assert_eq!(control.state(), Lifecycle::Running);
    assert_eq!(control.watched(), &vec!["/j".to_string()]);
    assert!(is_watch(&control.handle(WatchCommand::Watch("/k".to_string())), "/k"));
    assert!(is_watch(&control.handle(WatchCommand::Watch("/k".to_string())), "/k"));
    assert_eq!(control.watched(), &vec!["/j".to_string(), "/k".to_string()]);
    assert!(is_unwatch(&control.handle(WatchCommand::Unwatch("/j".to_string())), "/j"));
    assert!(is_unwatch(&control.handle(WatchCommand::Unwatch("/x".to_string())), "/x"));
    assert_eq!(control.watched(), &vec!["/k".to_string()]);
    assert!(matches!(control.handle(WatchCommand::Stop), ControlAction::Shutdown));
    assert_eq!(control.state(), Lifecycle::Stopped);
    assert!(control.watched().is_empty());
    assert!(matches!(control.handle(WatchCommand::Watch("/k".to_string())), ControlAction::Ignore));
    assert!(matches!(control.handle(WatchCommand::Stop), ControlAction::Ignore));
    assert_eq!(control.state(), Lifecycle::Stopped);
    assert!(control.watched().is_empty());
}

#[test]
fn a_watcher_begins_created_and_runs_on_its_first_command() {
    let mut control = WatcherControl::new();
    assert_eq!(control.state(), Lifecycle::Created);
    assert!(control.watched().is_empty());
    assert!(is_watch(&control.handle(WatchCommand::Watch("/j".to_string())), "/j"));
    assert_eq!(control.state(), Lifecycle::Running);
    assert!(start_watcher(None).watched().is_empty());
}
