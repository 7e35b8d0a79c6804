//! Messages exchanged by the nodes of the HTTP pipeline.
use vstd::prelude::*;

verus! {

/// The current wall-clock time in milliseconds since the Unix epoch, or
/// nothing when the clock is set before the epoch.
pub fn now_ms() -> Option<u64> {
    crate::clock::epoch_millis()
}

/// A liveness signal sent periodically by a node.
#[derive(Clone, Debug)]
pub struct Heartbeat {
    pub node_id: String,
    pub role: String,
    pub timestamp_ms: u64,
}

} // verus!
