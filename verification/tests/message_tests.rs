use iot_pipeline::common::{CoordStatus, Heartbeat};
use iot_pipeline::pipeline::Heartbeat as NamedHeartbeat;

#[test]
fn heartbeats_carry_their_fields() {
    let hb = Heartbeat { node_id: 100, role: "edge".to_string(), timestamp_ms: 5 };
    assert_eq!((hb.node_id, hb.role.as_str(), hb.timestamp_ms), (100, "edge", 5));
    let hb = NamedHeartbeat { node_id: "edge-1".to_string(), role: "edge".to_string(), timestamp_ms: 7 };
    assert_eq!(hb.node_id, "edge-1");
    let st = CoordStatus { active_edges: 1, total_readings: 2, anomalies_last_min: 3, uptime_s: 4 };
    assert_eq!(st.total_readings, 2);
}
