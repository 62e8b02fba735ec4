//! Network-performance measurement library: a reliable-UDP transport (STP)
//! with BBR-style congestion control and pacing, measurement aggregation with
//! derived statistics, and the decision logic of the TCP/UDP/HTTP test
//! clients and servers.
//!
//! Everything here is verified; the surrounding binary supplies the sockets,
//! the async runtime and the serialization, and hands this crate plain values.

pub mod bandwidth;
pub mod config;
pub mod congestion;
pub mod driver;
pub mod http_logic;
pub mod latency;
pub mod measurement;
pub mod pacing;
pub mod protocol;
pub mod results;
pub mod stp_client;
pub mod stp_server;
pub mod tcp_logic;
pub mod throughput;
