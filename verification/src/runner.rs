//! The production and consumption pipeline and its reports.

pub mod cache;
pub mod consumer;
pub mod histogram;
pub mod limiter;
pub mod producer;
pub mod report;
pub mod runner;
