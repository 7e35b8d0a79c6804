//! Verified core of a distributed IoT pipeline: sensors publish readings to
//! edge nodes, which keep per-sensor sliding windows and forward reports to a
//! coordinator that aggregates metrics and watches node heartbeats.
pub mod clock;
pub mod common;
pub mod coordinator;
pub mod delivery;
pub mod metrics;
pub mod pem;
pub mod pipeline;
pub mod stats;
pub mod table;
pub mod window;
