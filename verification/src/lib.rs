//! A DNS load generator's query engine: query templates, rate-limited
//! production, response accounting, latency histograms, and the decisions of
//! the per-socket event loop, with their contracts.

pub mod runner;
pub mod utils;
pub mod workers;
