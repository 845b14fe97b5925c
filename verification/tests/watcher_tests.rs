use worksentry::hotkey::{hotkey_step, HotkeyStep};
use worksentry::file_watcher::{
    add_watch_folder, event_type_for, handle_notify_event, is_running, process_file_event,
    remove_watch_folder, start_watching, stop_watching, Debouncer, Dispatch, FileEventType,
    FileWatcherManager, RawEventKind, WatcherState, DEBOUNCE_DELAY_MS, SWEEP_INTERVAL_MS,
};

#[test]
fn test_event_kinds() {
    assert_eq!(event_type_for(RawEventKind::Create), Some(FileEventType::Created));
    assert_eq!(event_type_for(RawEventKind::Modify), Some(FileEventType::Modified));
    assert_eq!(event_type_for(RawEventKind::Remove), Some(FileEventType::Deleted));
    assert_eq!(event_type_for(RawEventKind::Other), None);
    assert_eq!(DEBOUNCE_DELAY_MS, 500);
    assert!(SWEEP_INTERVAL_MS <= 100);
}

#[test]
fn test_debounce_waits_for_quiet() {
    let mut pending = Debouncer::new();
    pending.record("/docs/a.txt".to_string(), FileEventType::Created, 1_000);
    assert_eq!(pending.len(), 1);
    assert!(pending.sweep(1_499).is_empty());
    assert_eq!(pending.len(), 1);
    let due = pending.sweep(1_500);
    assert_eq!(due.len(), 1);
    assert_eq!(due[0].path, "/docs/a.txt");
    assert_eq!(due[0].event_type, FileEventType::Created);
    assert_eq!(due[0].timestamp, 1_000);
    assert_eq!(pending.len(), 0);
    assert!(pending.sweep(9_000).is_empty());
}

#[test]
fn test_latest_event_wins_and_restarts_the_wait() {
    let mut pending = Debouncer::new();
    pending.record("/docs/a.txt".to_string(), FileEventType::Created, 1_000);
    pending.record("/docs/b.txt".to_string(), FileEventType::Modified, 1_100);
    pending.record("/docs/a.txt".to_string(), FileEventType::Deleted, 1_400);
    assert_eq!(pending.len(), 2);

    let due = pending.sweep(1_650);
    assert_eq!(due.len(), 1);
    assert_eq!(due[0].path, "/docs/b.txt");

    let due = pending.sweep(1_900);
    assert_eq!(due.len(), 1);
    assert_eq!(due[0].path, "/docs/a.txt");
    assert_eq!(due[0].event_type, FileEventType::Deleted);
    assert_eq!(due[0].timestamp, 1_400);
}

#[test]
fn test_clock_that_reads_earlier_counts_as_no_wait() {
    let mut pending = Debouncer::new();
    pending.record("/docs/a.txt".to_string(), FileEventType::Created, 1_000);
    assert!(pending.sweep(10).is_empty());
    assert_eq!(pending.len(), 1);
}

#[test]
fn test_raw_events_are_filtered_by_extension() {
    let mut pending = Debouncer::new();
    let paths = vec![
        "/docs/a.txt".to_string(),
        "/docs/b.dll".to_string(),
        "/docs/noextension".to_string(),
        "/docs/C.PDF".to_string(),
        "/docs/a.txt".to_string(),
    ];
    handle_notify_event(&mut pending, RawEventKind::Modify, paths.clone(), 50);
    assert_eq!(pending.len(), 2);
    handle_notify_event(&mut pending, RawEventKind::Other, paths, 60);
    assert_eq!(pending.len(), 2);
    let due = pending.sweep(550);
    let found: Vec<&str> = due.iter().map(|e| e.path.as_str()).collect();
    assert_eq!(found, vec!["/docs/C.PDF", "/docs/a.txt"]);
    assert!(due.iter().all(|e| e.event_type == FileEventType::Modified));
}

#[test]
fn test_dispatch() {
    assert_eq!(process_file_event(FileEventType::Created, true, true), Dispatch::Upsert);
    assert_eq!(process_file_event(FileEventType::Modified, true, true), Dispatch::Upsert);
    assert_eq!(process_file_event(FileEventType::Modified, false, false), Dispatch::Delete);
    assert_eq!(process_file_event(FileEventType::Created, true, false), Dispatch::Skip);
    assert_eq!(process_file_event(FileEventType::Deleted, true, true), Dispatch::Delete);
    assert_eq!(process_file_event(FileEventType::Deleted, false, false), Dispatch::Delete);
}

#[test]
fn test_manager_tracks_folders() {
    let mut manager = FileWatcherManager::new();
    assert!(!manager.add_folder("/docs", true));
    assert!(!manager.remove_folder("/docs"));
    manager.start(vec!["/a".to_string()]);
    assert!(manager.add_folder("/docs", true));
    assert!(!manager.add_folder("/file.txt", false));
    assert_eq!(manager.watched_folders, vec!["/a", "/docs"]);
    assert!(manager.remove_folder("/a"));
    assert_eq!(manager.watched_folders, vec!["/docs"]);
    manager.stop();
    assert!(manager.watched_folders.is_empty());
    assert!(!manager.active);
}

#[test]
fn test_watcher_state() {
    let mut state = WatcherState::new();
    assert!(!is_running(&state));
    assert!(!add_watch_folder(&mut state, "/docs", true));

    assert!(start_watching(&mut state, vec!["/a".to_string(), "/b".to_string()]));
    assert!(is_running(&state));
    assert!(!start_watching(&mut state, vec!["/c".to_string()]));
    assert_eq!(state.manager.watched_folders, vec!["/a", "/b"]);

    assert!(add_watch_folder(&mut state, "/docs", true));
    assert!(!add_watch_folder(&mut state, "/missing", false));
    assert!(remove_watch_folder(&mut state, "/a"));
    assert_eq!(state.manager.watched_folders, vec!["/b", "/docs"]);

    stop_watching(&mut state);
    assert!(!is_running(&state));
    assert!(state.manager.watched_folders.is_empty());
    assert!(!remove_watch_folder(&mut state, "/b"));
}

#[test]
fn test_hotkey_steps() {
    let step = |show, hide, hidden| HotkeyStep { show, hide, hidden };
    assert_eq!(hotkey_step(true, true, true, false), step(true, false, false));
    assert_eq!(hotkey_step(false, true, true, false), step(false, false, false));
    assert_eq!(hotkey_step(true, true, false, false), step(false, false, true));
    assert_eq!(hotkey_step(false, false, false, true), step(false, true, true));
    assert_eq!(hotkey_step(true, true, true, true), step(true, true, true));
    assert_eq!(hotkey_step(false, false, false, false), step(false, false, false));
}
