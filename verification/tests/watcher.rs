use coffee_break::watcher::{describe_event, watch_folder, WatchEvent, POLL_INTERVAL_MILLIS};

#[test]
fn a_change_is_shown_by_its_first_path() {
    let event = Some(WatchEvent { paths: vec!["/tmp/a.txt".to_string(), "/tmp/b.txt".to_string()] });
    assert_eq!(describe_event(&event), Some("\u{1F4C2} File changed: /tmp/a.txt".to_string()));
}

#[test]
fn what_has_no_path_is_dropped() {
    assert_eq!(describe_event(&Some(WatchEvent { paths: vec![] })), None);
    assert_eq!(describe_event(&None), None);
}

#[test]
fn the_watch_is_recursive_and_polls_every_200_ms() {
    let plan = watch_folder("./");
    assert_eq!(plan.folder, "./");
    assert!(plan.recursive);
    assert_eq!(plan.poll_interval_millis, 200);
    assert_eq!(POLL_INTERVAL_MILLIS, 200);
}
