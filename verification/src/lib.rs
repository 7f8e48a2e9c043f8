//! The decision-making core of a small UDP bridge and of its latency benchmark.
//!
//! Sockets, timers, channels and logging belong to the programs built on top;
//! what they decide, encode and count is here, together with its contracts.

pub mod args;
pub mod bench_client;
pub mod bench_server;
pub mod bridge;
pub mod client;
pub mod clock;
pub mod csv;
pub mod double;
pub mod history;
pub mod ranks;
pub mod session;
pub mod stats;
pub mod wire;
