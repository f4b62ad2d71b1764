use sb_agent_core::buffer::{log_status_change, Backoff, OfflineBuffer, StatusChange};

#[test]
fn offline_buffer_drops_oldest_when_full() {
    let mut buf = OfflineBuffer::new(2);
    buf.push(1);
    buf.push(2);
    buf.push(3);
    assert_eq!(buf.drain_all(), vec![2, 3]);
}

#[test]
fn backoff_doubles_then_caps() {
    let mut b = Backoff::new(10); // max_ticks = 3
    assert!(b.should_check());
    b.on_failure();
    assert_eq!(b.current_ticks(), 2);
    b.on_failure();
    assert_eq!(b.current_ticks(), 3); // capped at max_ticks
    b.on_success();
    assert_eq!(b.current_ticks(), 1);
}

#[test]
fn offline_buffer_len_and_empty_track_contents() {
    let mut buf = OfflineBuffer::new(3);
    assert!(buf.is_empty());
    assert_eq!(buf.len(), 0);
    buf.push("a");
    buf.push("b");
    assert_eq!(buf.len(), 2);
    assert!(!buf.is_empty());
    assert_eq!(buf.drain_all(), vec!["a", "b"]);
    assert!(buf.is_empty());
    assert_eq!(buf.drain_all(), Vec::<&str>::new());
}

#[test]
fn offline_buffer_keeps_newest_run() {
    let mut buf = OfflineBuffer::new(3);
    for i in 0..10 {
        buf.push(i);
    }
    assert_eq!(buf.len(), 3);
    assert_eq!(buf.drain_all(), vec![7, 8, 9]);
}

#[test]
fn offline_buffer_of_size_zero_keeps_latest() {
    let mut buf = OfflineBuffer::new(0);
    buf.push(1);
    buf.push(2);
    assert_eq!(buf.len(), 1);
    assert_eq!(buf.drain_all(), vec![2]);
}

#[test]
fn backoff_skips_the_current_wait_after_failure() {
    let mut b = Backoff::new(5); // max_ticks = 6
    b.on_failure(); // wait 1 tick, next wait 2
    assert!(!b.should_check());
    assert!(b.should_check());
    b.on_failure(); // wait 2 ticks, next wait 4
    assert_eq!(b.current_ticks(), 4);
    assert!(!b.should_check());
    assert!(!b.should_check());
    assert!(b.should_check());
    b.on_failure(); // wait 4, next capped at 6
    assert_eq!(b.current_ticks(), 6);
    for _ in 0..4 {
        assert!(!b.should_check());
    }
    assert!(b.should_check());
    b.on_success();
    assert!(b.should_check());
    assert_eq!(b.current_ticks(), 1);
}

#[test]
fn backoff_ceiling_for_long_and_zero_intervals() {
    let mut long = Backoff::new(120);
    long.on_failure();
    long.on_failure();
    assert_eq!(long.current_ticks(), 1);
    let mut zero = Backoff::new(0); // treated as 1s: ceiling 30 ticks
    for _ in 0..10 {
        zero.on_failure();
    }
    assert_eq!(zero.current_ticks(), 30);
}

#[test]
fn status_change_reports_transitions_only() {
    assert!(matches!(log_status_change(false, true, 5), StatusChange::WentOffline));
    assert!(matches!(log_status_change(true, false, 5), StatusChange::Reconnected { flushing: 5 }));
    assert!(matches!(log_status_change(true, true, 5), StatusChange::Unchanged));
    assert!(matches!(log_status_change(false, false, 0), StatusChange::Unchanged));
}

#[test]
fn zero_sized_buffer_is_always_full() {
    let mut buf: OfflineBuffer<u8> = OfflineBuffer::new(0);
    assert!(buf.is_full());
    assert_eq!(buf.size_limit(), 0);
    buf.push(1);
    assert!(buf.is_full());
    let mut two = OfflineBuffer::new(2);
    two.push(1);
    assert!(!two.is_full());
    two.push(2);
    assert!(two.is_full());
}
