use host_scanner::progress::{final_update, host_finished_update, host_started_update};
use host_scanner::registry::{
    cancel_task, has_progress_channel, publish_progress, register_cancel_signal,
    register_progress_channel, remove_cancel_signal, remove_progress_channel, request_shutdown,
    scan_may_start,
    subscribe_progress, subscribe_shutdown, ScanRegistry,
};
use host_scanner::task::{cancel_action, cancel_response_status, CancelAction};

fn update(i: i32) -> host_scanner::progress::ScanProgressUpdate {
    host_started_update("t", i, i, 2000, "192.0.2.1")
}

#[test]
fn a_new_channel_has_an_empty_history() {
    let mut r = ScanRegistry::new();
    assert!(subscribe_progress(&r, "t").is_none());
    let _rx = register_progress_channel(&mut r, "t");
    assert!(has_progress_channel(&r, "t"));
    let (history, _live) = subscribe_progress(&r, "t").unwrap();
    assert!(history.is_empty());
}

#[test]
fn published_updates_are_replayed_and_sent() {
    let mut r = ScanRegistry::new();
    let mut rx = register_progress_channel(&mut r, "t");
    assert!(publish_progress(&mut r, "t", update(1)));
    assert!(publish_progress(&mut r, "t", update(2)));
    let (history, _live) = subscribe_progress(&r, "t").unwrap();
    assert_eq!(history.len(), 2);
    assert_eq!(history[0].progress, 1);
    assert_eq!(history[1].progress, 2);
    assert_eq!(history[1].status, "scanning");
    assert_eq!(rx.try_recv().unwrap().progress, 1);
    assert_eq!(rx.try_recv().unwrap().progress, 2);
}

#[test]
fn history_keeps_the_latest_1024_updates() {
    let mut r = ScanRegistry::new();
    let _rx = register_progress_channel(&mut r, "t");
    for i in 0..1500 {
        publish_progress(&mut r, "t", update(i));
    }
    let (history, _live) = subscribe_progress(&r, "t").unwrap();
    assert_eq!(history.len(), 1024);
    assert_eq!(history[0].progress, 1500 - 1024);
    assert_eq!(history[1023].progress, 1499);
}

#[test]
fn publishing_without_a_channel_changes_nothing() {
    let mut r = ScanRegistry::new();
    let _rx = register_progress_channel(&mut r, "a");
    assert!(!publish_progress(&mut r, "b", update(1)));
    assert!(subscribe_progress(&r, "b").is_none());
    assert!(subscribe_progress(&r, "a").unwrap().0.is_empty());
}

#[test]
fn removed_channels_cannot_be_subscribed() {
    let mut r = ScanRegistry::new();
    let _a = register_progress_channel(&mut r, "a");
    let _b = register_progress_channel(&mut r, "b");
    publish_progress(&mut r, "b", update(7));
    remove_progress_channel(&mut r, "a");
    assert!(subscribe_progress(&r, "a").is_none());
    assert_eq!(subscribe_progress(&r, "b").unwrap().0[0].progress, 7);
    remove_progress_channel(&mut r, "missing");
    assert!(has_progress_channel(&r, "b"));
}

#[test]
fn registering_again_resets_the_history() {
    let mut r = ScanRegistry::new();
    let _a = register_progress_channel(&mut r, "a");
    publish_progress(&mut r, "a", update(1));
    let _a2 = register_progress_channel(&mut r, "a");
    assert!(subscribe_progress(&r, "a").unwrap().0.is_empty());
}

#[test]
fn cancel_signals_reach_a_listening_scan() {
    let mut r = ScanRegistry::new();
    assert!(!cancel_task(&mut r, "t"));
    let rx = register_cancel_signal(&mut r, "t");
    assert!(!*rx.borrow());
    assert!(cancel_task(&mut r, "t"));
    assert!(*rx.borrow());
    assert!(cancel_task(&mut r, "t"));
    drop(rx);
    assert!(!cancel_task(&mut r, "t"));
    let _rx = register_cancel_signal(&mut r, "u");
    remove_cancel_signal(&mut r, "u");
    assert!(!cancel_task(&mut r, "u"));
}

#[test]
fn cancel_requests_are_decided_by_status_and_signal() {
    assert_eq!(cancel_action("completed", false), CancelAction::AlreadyFinished);
    assert_eq!(cancel_action("failed", true), CancelAction::AlreadyFinished);
    assert_eq!(cancel_action("canceled", true), CancelAction::AlreadyFinished);
    assert_eq!(cancel_action("scanning", false), CancelAction::MarkCanceled);
    assert_eq!(cancel_action("pending", true), CancelAction::Signaled);
    let mut r = ScanRegistry::new();
    let _rx = register_cancel_signal(&mut r, "t");
    let delivered = cancel_task(&mut r, "t");
    assert_eq!(cancel_action("scanning", delivered), CancelAction::Signaled);
    let delivered = cancel_task(&mut r, "other");
    assert_eq!(cancel_action("scanning", delivered), CancelAction::MarkCanceled);
    assert_eq!(cancel_response_status("failed", &CancelAction::AlreadyFinished), "failed");
    assert_eq!(cancel_response_status("scanning", &CancelAction::Signaled), "canceling");
    assert_eq!(cancel_response_status("pending", &CancelAction::MarkCanceled), "canceled");
}

#[test]
fn updates_are_not_taken_without_a_listener() {
    let mut r = ScanRegistry::new();
    let rx = register_progress_channel(&mut r, "t");
    drop(rx);
    assert!(!publish_progress(&mut r, "t", update(3)));
    let (history, mut live) = subscribe_progress(&r, "t").unwrap();
    assert_eq!(history.len(), 1);
    assert_eq!(history[0].progress, 3);
    assert!(publish_progress(&mut r, "t", update(4)));
    assert_eq!(live.try_recv().unwrap().progress, 4);
}

#[test]
fn shutdown_without_a_listener_is_not_delivered() {
    let mut r = ScanRegistry::new();
    let _a = register_progress_channel(&mut r, "a");
    assert!(!request_shutdown(&mut r));
    assert!(!*subscribe_shutdown(&r).borrow());
    assert!(subscribe_progress(&r, "a").is_none());
}

#[test]
fn shutdown_forgets_everything_and_signals() {
    let mut r = ScanRegistry::new();
    let shutdown = subscribe_shutdown(&r);
    let _a = register_progress_channel(&mut r, "a");
    let _c = register_cancel_signal(&mut r, "a");
    assert!(request_shutdown(&mut r));
    assert!(*shutdown.borrow());
    assert!(*subscribe_shutdown(&r).borrow());
    assert!(subscribe_progress(&r, "a").is_none());
    assert!(!cancel_task(&mut r, "a"));
}

#[test]
fn updates_carry_their_fields() {
    let u = host_finished_update("t", 50, 1, 2, "192.0.2.13", "alive-with-port".to_string(), vec![22], None);
    assert_eq!(u.task_id, "t");
    assert_eq!(u.progress, 50);
    assert_eq!(u.current_host, "192.0.2.13");
    assert_eq!(u.host_status.as_deref(), Some("alive-with-port"));
    assert_eq!(u.open_ports, vec![22]);
    let f = final_update("t", 100, 2, 2, "completed");
    assert_eq!(f.current_host, "finished");
    assert_eq!(f.status, "completed");
    assert!(f.host_status.is_none());
}

#[test]
fn a_scan_starts_only_while_its_channel_is_open() {
    let mut r = ScanRegistry::new();
    let cancel = register_cancel_signal(&mut r, "t");
    assert!(!scan_may_start(&mut r, "t"));
    assert!(!cancel_task(&mut r, "t"));
    drop(cancel);
    let _progress = register_progress_channel(&mut r, "u");
    let cancel = register_cancel_signal(&mut r, "u");
    assert!(scan_may_start(&mut r, "u"));
    assert!(cancel_task(&mut r, "u"));
    assert!(*cancel.borrow());
}

#[test]
fn a_subscriber_gets_the_updates_that_follow() {
    let mut r = ScanRegistry::new();
    let _first = register_progress_channel(&mut r, "t");
    assert!(publish_progress(&mut r, "t", update(1)));
    let (history, mut live) = subscribe_progress(&r, "t").unwrap();
    assert_eq!(history.len(), 1);
    assert!(live.try_recv().is_err());
    assert!(publish_progress(&mut r, "t", update(2)));
    assert_eq!(live.try_recv().unwrap().progress, 2);
}
