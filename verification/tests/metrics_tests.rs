use iot_pipeline::metrics::{role_is_edge, Metrics};

fn s(x: &str) -> String {
    x.to_string()
}

#[test]
fn first_report_of_an_edge_loses_nothing() {
    let mut m = Metrics::new(0);
    assert_eq!(m.record_report(100, 42, 0, false, 10), 0);
    assert_eq!(m.record_report(100, 43, 0, false, 10), 0);
    assert_eq!(m.record_report(100, 47, 0, false, 10), 3);
    assert_eq!(m.record_report(100, 46, 0, false, 10), 0);
    let snap = m.tick(20);
    assert_eq!(snap.lost_messages, 3);
}

#[test]
fn tick_summarises_and_restarts_the_period() {
    let mut m = Metrics::new(1_000);
    m.record_report(100, 1, 1_000, false, 2_000);
    m.record_report(101, 1, 1_500, true, 2_100);
    m.record_report(100, 2, 2_000, false, 2_200);
    let snap = m.tick(6_000);
    assert_eq!(snap.elapsed_ms, 5_000);
    assert_eq!(snap.readings_since_last, 3);
    assert_eq!(snap.edge_readings, vec![(100, 2), (101, 1)]);
    assert_eq!(snap.status.total_readings, 3);
    assert_eq!(snap.status.anomalies_last_min, 1);
    assert_eq!(snap.status.uptime_s, 5);
    assert_eq!(snap.total_anomalies, 1);
    // latencies 1000, 600, 200: ranks 1 and 2 of [200, 600, 1000]
    assert_eq!((snap.latency_p50_ms, snap.latency_p99_ms), (600, 1000));
    let snap = m.tick(7_000);
    assert_eq!(snap.readings_since_last, 0);
    assert!(snap.edge_readings.is_empty());
    assert_eq!(snap.elapsed_ms, 1_000);
    assert_eq!(snap.status.total_readings, 3);
}

#[test]
fn samples_older_than_a_minute_leave_the_window() {
    let mut m = Metrics::new(0);
    m.record_report(1, 1, 0, true, 10_000);
    m.record_report(1, 2, 69_000, true, 70_000);
    let snap = m.tick(75_000);
    assert_eq!(snap.status.anomalies_last_min, 1);
    assert_eq!((snap.latency_p50_ms, snap.latency_p99_ms), (1_000, 1_000));
    assert_eq!(snap.total_anomalies, 2);
}

#[test]
fn only_recent_edge_nodes_are_active() {
    let mut m = Metrics::new(0);
    m.record_heartbeat(&s("edge"), 100, 90_000);
    m.record_heartbeat(&s("edge"), 101, 85_001);
    m.record_heartbeat(&s("edge"), 102, 85_000);
    m.record_heartbeat(&s("sensor"), 1, 99_000);
    m.record_heartbeat(&s("edg"), 7, 99_000);
    let snap = m.tick(100_000);
    assert_eq!(snap.status.active_edges, 2);
}

#[test]
fn node_uptime_counts_from_first_heartbeat() {
    let mut m = Metrics::new(0);
    m.record_heartbeat(&s("edge"), 100, 10_000);
    m.record_heartbeat(&s("sensor"), 1, 20_000);
    m.record_heartbeat(&s("edge"), 100, 50_000);
    let snap = m.tick(60_500);
    assert_eq!(snap.node_uptimes.len(), 2);
    assert_eq!(snap.node_uptimes[0].role, "edge");
    assert_eq!(snap.node_uptimes[0].node_id, 100);
    assert_eq!(snap.node_uptimes[0].uptime_s, 50);
    assert_eq!(snap.node_uptimes[1].role, "sensor");
    assert_eq!(snap.node_uptimes[1].uptime_s, 40);
}

#[test]
fn edge_role_is_recognised_by_prefix() {
    assert!(role_is_edge(&s("edge")));
    assert!(role_is_edge(&s("edge-gateway")));
    assert!(!role_is_edge(&s("edg")));
    assert!(!role_is_edge(&s("sensor")));
    assert!(!role_is_edge(&s("")));
}

#[test]
fn new_metrics_are_empty() {
    let mut m = Metrics::new(500);
    let snap = m.tick(500);
    assert!(snap.node_uptimes.is_empty());
    assert!(snap.edge_readings.is_empty());
    assert_eq!(snap.status.active_edges, 0);
}

#[test]
fn clock_consistency_detects_future_stamps() {
    let mut m = Metrics::new(1_000);
    assert!(m.consistent_at(1_000));
    assert!(!m.consistent_at(999));
    m.record_heartbeat(&s("sensor"), 1, 5_000);
    assert!(!m.consistent_at(4_000));
    assert!(m.accepts_report(1, 1, true));
}
