//! Per-flow TCP measurements (throughput, bytes in flight, round-trip time)
//! computed from captured Ethernet/IPv4/TCP frames.
pub mod text;
pub mod pattern;
pub mod packet;
pub mod direction;
pub mod throughput;
pub mod inflight;
pub mod rtt;
pub mod measure;
pub mod measurements;
pub mod report;
pub mod selection;

pub use inflight::InflightState;
pub use measurements::FlowMeasurements;
pub use packet::{parse, Pkts};
pub use rtt::RTTState;
pub use throughput::ThroughputState;
