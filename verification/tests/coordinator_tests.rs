use iot_pipeline::coordinator::CoordState;

fn s(x: &str) -> String {
    x.to_string()
}

#[test]
fn first_report_of_a_sensor_loses_nothing() {
    let mut c = CoordState::new();
    let r = c.record_report(&s("edge-1"), &s("sensor-1"), 1000, 7, false, 1010);
    assert_eq!(r.lost, 0);
    assert_eq!(r.expected_sequence, None);
    assert_eq!(r.e2e_latency_ms, 10);
    assert_eq!(c.total_readings_count(), 1);
    assert_eq!(c.messages_lost_count(), 0);
}

#[test]
fn sequence_gap_counts_missing_messages() {
    let mut c = CoordState::new();
    let e = s("edge-1");
    let sn = s("sensor-1");
    c.record_report(&e, &sn, 0, 1, false, 100);
    let r = c.record_report(&e, &sn, 0, 2, false, 200);
    assert_eq!((r.lost, r.expected_sequence), (0, Some(2)));
    let r = c.record_report(&e, &sn, 0, 5, false, 300);
    assert_eq!((r.lost, r.expected_sequence), (2, Some(3)));
    assert_eq!(c.messages_lost_count(), 2);
    // a repeated number is no loss
    let r = c.record_report(&e, &sn, 0, 5, false, 400);
    assert_eq!(r.lost, 0);
    // a run from 5 to 9 with 6 and 8 missing
    c.record_report(&e, &sn, 0, 7, false, 500);
    c.record_report(&e, &sn, 0, 9, false, 600);
    assert_eq!(c.messages_lost_count(), 4);
}

#[test]
fn sequences_are_tracked_per_edge_and_sensor() {
    let mut c = CoordState::new();
    c.record_report(&s("edge-1"), &s("sensor-1"), 0, 10, false, 100);
    let r = c.record_report(&s("edge-2"), &s("sensor-1"), 0, 20, false, 100);
    assert_eq!(r.lost, 0);
    let r = c.record_report(&s("edge-1"), &s("sensor-2"), 0, 30, false, 100);
    assert_eq!(r.lost, 0);
    let r = c.record_report(&s("edge-1"), &s("sensor-1"), 0, 12, false, 100);
    assert_eq!(r.lost, 1);
}

#[test]
fn edge_clock_ahead_gives_zero_latency() {
    let mut c = CoordState::new();
    let r = c.record_report(&s("e"), &s("x"), 5000, 1, false, 4000);
    assert_eq!(r.e2e_latency_ms, 0);
}

#[test]
fn anomalies_are_counted() {
    let mut c = CoordState::new();
    c.record_report(&s("e"), &s("x"), 0, 1, true, 100_000);
    c.record_report(&s("e"), &s("x"), 0, 2, false, 100_000);
    c.record_report(&s("e"), &s("x"), 0, 3, true, 100_000);
    assert_eq!(c.anomalies_total_count(), 2);
    let st = c.status_counts(100_000);
    assert_eq!(st.anomalies_last_min, 2);
    assert_eq!(st.anomalies_total, 2);
    assert_eq!(st.total_readings, 3);
    c.prune(100_000);
    let st = c.status_counts(100_000);
    assert_eq!(st.anomalies_last_min, 0);
    assert_eq!(st.anomalies_total, 2);
}

#[test]
fn heartbeat_registers_node_once() {
    let mut c = CoordState::new();
    assert!(c.record_heartbeat(&s("edge-1"), 1000));
    assert!(!c.record_heartbeat(&s("edge-1"), 4000));
    assert!(c.record_heartbeat(&s("edge-2"), 4000));
    let rows = c.edge_rows(5000);
    assert_eq!(rows.len(), 2);
    assert_eq!(rows[0].edge_id, "edge-1");
    assert_eq!(rows[0].last_seen_s, 1);
    assert_eq!(rows[1].edge_id, "edge-2");
}

#[test]
fn edge_is_lost_after_ten_seconds_of_silence() {
    let mut c = CoordState::new();
    c.record_heartbeat(&s("a"), 100_000);
    c.record_heartbeat(&s("b"), 100_000 - 9_999);
    c.record_heartbeat(&s("c"), 100_000 - 10_000);
    c.record_heartbeat(&s("d"), 100_000 - 10_500);
    assert_eq!(c.active_edges(100_000), 2);
    let rows = c.edge_rows(100_000);
    assert!(rows[0].active);
    assert!(rows[1].active);
    assert_eq!(rows[1].last_seen_s, 9);
    assert!(!rows[2].active);
    assert_eq!(rows[2].last_seen_s, 10);
    assert!(!rows[3].active);
    assert_eq!(rows[3].last_seen_s, 10);
}

#[test]
fn uptime_counts_from_first_report() {
    let mut c = CoordState::new();
    c.record_heartbeat(&s("edge-1"), 90_000);
    c.record_heartbeat(&s("edge-2"), 90_000);
    c.record_report(&s("edge-1"), &s("x"), 0, 1, false, 30_000);
    c.record_report(&s("edge-1"), &s("x"), 0, 2, false, 80_000);
    let rows = c.edge_rows(95_500);
    assert_eq!(rows[0].uptime_s, 65);
    assert_eq!(rows[1].uptime_s, 0);
}

#[test]
fn status_uses_last_minute_only() {
    let mut c = CoordState::new();
    // received at 10_000 with latency 500: outside the window at 100_000
    c.record_report(&s("e"), &s("x"), 9_500, 1, false, 10_000);
    c.record_report(&s("e"), &s("x"), 50_000, 2, false, 50_040);
    c.record_report(&s("e"), &s("x"), 60_000, 3, false, 60_010);
    c.record_report(&s("e"), &s("x"), 70_000, 4, false, 70_030);
    let st = c.status_counts(100_000);
    assert_eq!(st.recent_readings, 3);
    // latencies 40, 10, 30: ranks 1 and 2 of [10, 30, 40]
    assert_eq!((st.latency_p50_ms, st.latency_p99_ms), (30, 40));
    assert_eq!(st.total_readings, 4);
}

#[test]
fn prune_drops_old_samples() {
    let mut c = CoordState::new();
    c.record_report(&s("e"), &s("x"), 0, 1, false, 10_000);
    c.record_report(&s("e"), &s("x"), 0, 2, false, 90_000);
    c.prune(100_000);
    let st = c.status_counts(200_000);
    assert_eq!(st.recent_readings, 0);
    assert_eq!((st.latency_p50_ms, st.latency_p99_ms), (0, 0));
    let st = c.status_counts(100_000);
    assert_eq!(st.recent_readings, 1);
}

#[test]
fn future_heartbeat_makes_clock_inconsistent() {
    let mut c = CoordState::new();
    c.record_heartbeat(&s("a"), 5000);
    assert!(c.heartbeats_settled_at(5000));
    assert!(c.consistent_at(5000));
    assert!(!c.heartbeats_settled_at(4999));
    assert!(!c.consistent_at(4999));
}

#[test]
fn future_first_report_matters_only_for_listed_edges() {
    let mut c = CoordState::new();
    c.record_report(&s("b"), &s("x"), 0, 1, false, 9000);
    c.record_heartbeat(&s("a"), 1000);
    assert!(c.consistent_at(5000));
    c.record_heartbeat(&s("b"), 1000);
    assert!(c.heartbeats_settled_at(5000));
    assert!(!c.consistent_at(5000));
}

#[test]
fn stale_edges_are_listed_with_their_silence() {
    let mut c = CoordState::new();
    c.record_heartbeat(&s("a"), 100_000);
    c.record_heartbeat(&s("b"), 80_000);
    c.record_heartbeat(&s("c"), 90_001);
    c.record_heartbeat(&s("d"), 90_000);
    assert_eq!(c.stale_edges(100_000), vec![(s("b"), 20), (s("d"), 10)]);
}

#[test]
fn listing_agrees_with_status() {
    let mut c = CoordState::new();
    c.record_heartbeat(&s("a"), 100_000);
    c.record_heartbeat(&s("b"), 85_000);
    c.record_heartbeat(&s("c"), 95_000);
    let active_rows = c.edge_rows(100_000).iter().filter(|r| r.active).count();
    assert_eq!(active_rows, c.status_counts(100_000).active_edges);
    assert_eq!(active_rows, 2);
}

#[test]
fn repeated_heartbeat_changes_nothing() {
    let mut c = CoordState::new();
    c.record_heartbeat(&s("a"), 1000);
    c.record_heartbeat(&s("b"), 2000);
    assert!(!c.record_heartbeat(&s("a"), 1000));
    let rows = c.edge_rows(3000);
    assert_eq!(rows.len(), 2);
    assert_eq!((rows[0].edge_id.as_str(), rows[0].last_seen_s), ("a", 2));
}

#[test]
fn lost_edge_counts_again_after_heartbeat() {
    let mut c = CoordState::new();
    c.record_heartbeat(&s("a"), 70_000);
    c.record_heartbeat(&s("b"), 99_000);
    assert_eq!(c.active_edges(100_000), 1);
    c.record_heartbeat(&s("a"), 100_000);
    assert_eq!(c.active_edges(100_000), 2);
    c.record_heartbeat(&s("b"), 100_000);
    assert_eq!(c.active_edges(100_000), 2);
    c.record_heartbeat(&s("n"), 100_000);
    assert_eq!(c.active_edges(100_000), 3);
}
