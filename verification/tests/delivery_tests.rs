use iot_pipeline::delivery::{heartbeat_due, Next, Outcome, PublishHealth, RetryPolicy};

#[test]
fn sensor_backoff_is_200_then_400() {
    let p = RetryPolicy::sensor_publish();
    assert_eq!(p.backoff_ms(1), 200);
    assert_eq!(p.backoff_ms(2), 400);
    assert_eq!(p.backoff_ms(3), 800);
}

#[test]
fn report_backoff_doubles_up_to_fifth_attempt() {
    let p = RetryPolicy::edge_report();
    let waits: Vec<u64> = (1..=5).map(|a| p.backoff_ms(a)).collect();
    assert_eq!(waits, vec![200, 400, 800, 1600, 3200]);
    for a in 1..5 {
        assert_eq!(p.backoff_ms(a + 1), 2 * p.backoff_ms(a));
    }
}

#[test]
fn heartbeat_backoff_starts_at_500() {
    let p = RetryPolicy::edge_heartbeat();
    assert_eq!(p.after_attempt(1, Outcome::Unreachable), Next::RetryAfter(500));
    assert_eq!(p.after_attempt(2, Outcome::Unreachable), Next::RetryAfter(1000));
    assert_eq!(p.after_attempt(3, Outcome::Unreachable), Next::GiveUp);
}

#[test]
fn delivered_is_done() {
    let p = RetryPolicy::sensor_publish();
    assert_eq!(p.after_attempt(1, Outcome::Delivered), Next::Done);
    assert_eq!(p.after_attempt(3, Outcome::Delivered), Next::Done);
}

#[test]
fn sensor_retries_error_status_but_edge_does_not() {
    let sensor = RetryPolicy::sensor_publish();
    assert_eq!(sensor.after_attempt(1, Outcome::Rejected), Next::RetryAfter(200));
    assert_eq!(sensor.after_attempt(3, Outcome::Rejected), Next::GiveUp);
    let report = RetryPolicy::edge_report();
    assert_eq!(report.after_attempt(1, Outcome::Rejected), Next::Done);
}

#[test]
fn report_gives_up_after_five_attempts() {
    let p = RetryPolicy::edge_report();
    let mut attempt = 1;
    let mut total_wait = 0;
    loop {
        match p.after_attempt(attempt, Outcome::Unreachable) {
            Next::RetryAfter(d) => {
                total_wait += d;
                attempt += 1;
            }
            Next::GiveUp => break,
            Next::Done => panic!("no success happened"),
        }
    }
    assert_eq!(attempt, 5);
    assert_eq!(total_wait, 200 + 400 + 800 + 1600);
}

#[test]
fn pause_after_ten_drops_in_a_row() {
    let mut h = PublishHealth::new();
    for _ in 0..9 {
        assert!(!h.dropped());
    }
    assert!(h.dropped());
    // the count restarts after the pause
    for _ in 0..9 {
        assert!(!h.dropped());
    }
    assert!(h.dropped());
}

#[test]
fn delivery_resets_drop_count() {
    let mut h = PublishHealth::new();
    for _ in 0..9 {
        assert!(!h.dropped());
    }
    h.delivered();
    for _ in 0..9 {
        assert!(!h.dropped());
    }
    assert!(h.dropped());
}

#[test]
fn heartbeat_every_tenth_reading() {
    assert!(!heartbeat_due(1));
    assert!(!heartbeat_due(9));
    assert!(heartbeat_due(10));
    assert!(heartbeat_due(20));
    assert!(!heartbeat_due(21));
}
