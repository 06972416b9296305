use openbook_offchain_services::scheduler::{backoff_ms, CrashWindow};

#[test]
fn backoff_doubles_up_to_the_cap() {
    assert_eq!(backoff_ms(0), 1000);
    assert_eq!(backoff_ms(1), 2000);
    assert_eq!(backoff_ms(4), 16000);
    assert_eq!(backoff_ms(5), 30000);
    assert_eq!(backoff_ms(1000), 30000);
}

#[test]
fn fourth_crash_within_a_minute_stops() {
    let mut w = CrashWindow::new();
    assert!(!w.record_crash(0));
    assert!(!w.record_crash(10));
    assert!(!w.record_crash(20));
    assert!(w.record_crash(30));
    assert_eq!(w.crashes.len(), 4);
}

#[test]
fn old_crashes_are_forgotten() {
    let mut w = CrashWindow::new();
    for t in [0, 10, 20] {
        assert!(!w.record_crash(t));
    }
    assert!(!w.record_crash(75));
    assert_eq!(w.crashes, vec![20, 75]);
    assert!(!w.record_crash(200));
    assert_eq!(w.crashes, vec![200]);
}
