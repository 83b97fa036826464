//! Aggregation of exchange order books into a single ranked summary.

pub mod binary64;
pub mod config;
pub mod feeds;
pub mod instrument;
pub mod json;
pub mod manager;
pub mod model;
pub mod nanos;
pub mod publisher;
pub mod ranking;
pub mod sources;
