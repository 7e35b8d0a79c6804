//! Messages exchanged by the nodes of the TCP pipeline (sensors, edges and
//! the coordinator), and the coordinator's status record.
use vstd::prelude::*;

verus! {

/// The current wall-clock time in milliseconds since the Unix epoch, or
/// nothing when the clock is set before the epoch.
pub fn current_timestamp_ms() -> Option<u64> {
    crate::clock::epoch_millis()
}

/// A liveness signal sent periodically by a node.
#[derive(Clone, Debug)]
pub struct Heartbeat {
    pub node_id: u32,
    pub role: String,
    pub timestamp_ms: u64,
}

/// The coordinator's periodic summary.
#[derive(Clone, Copy, Debug)]
pub struct CoordStatus {
    pub active_edges: u32,
    pub total_readings: u64,
    pub anomalies_last_min: u32,
    pub uptime_s: u64,
}

} // verus!
