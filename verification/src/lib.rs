//! A load-generation and measurement harness.
//!
//! The harness drives a number of concurrent workers against an operation for
//! a fixed window, records the outcome and latency of each invocation,
//! samples the footprint of the driving process, and reduces the observations
//! to throughput and latency statistics.
//!
//! Everything here is plain data and decisions: the program around this
//! library performs the waiting, the network calls and the printing, and asks
//! the library what to do next and what the collected numbers mean.
//!
//! Units used throughout: time in nanoseconds, memory in bytes, CPU load in
//! hundredths of a percent.

pub mod config;
pub mod driver;
pub mod duration;
pub mod results;
pub mod retry;
pub mod sampler;
pub mod sink;
pub mod stats;
pub mod text;
pub mod worker;
