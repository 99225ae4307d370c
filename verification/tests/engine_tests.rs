use hls_capture::engine::{next_wait_millis, on_poller_exit, should_stop_consuming};

#[test]
fn failing_poller_stops_capture_under_fail_fast() {
    let action = on_poller_exit(true, true);
    assert!(action.stop_all);
    assert!(action.mark_failed);
}

#[test]
fn failing_poller_is_contained_without_fail_fast() {
    let action = on_poller_exit(true, false);
    assert!(!action.stop_all);
    assert!(!action.mark_failed);
}

#[test]
fn successful_poller_never_stops_others() {
    assert!(!on_poller_exit(false, true).stop_all);
    assert!(!on_poller_exit(false, false).stop_all);
}

#[test]
fn consumer_stops_only_on_recorded_failure() {
    assert!(should_stop_consuming(true, true));
    assert!(!should_stop_consuming(true, false));
    assert!(!should_stop_consuming(false, true));
    assert!(!should_stop_consuming(false, false));
}

#[test]
fn wait_halves_when_nothing_new_was_found() {
    assert_eq!(next_wait_millis(6, true), 6000);
    assert_eq!(next_wait_millis(6, false), 3000);
    assert_eq!(next_wait_millis(5, false), 2500);
    assert_eq!(next_wait_millis(0, true), 0);
}
