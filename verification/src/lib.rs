//! Core of a query gateway that routes block-range queries to a fleet of
//! storage workers: chunk index, worker registry, dispatch decisions.

pub mod allocations;
pub mod cli;
pub mod dispatch;
pub mod json;
pub mod latency;
pub mod messages;
pub mod network;
pub mod request;
pub mod server;
pub mod table;
pub mod text;
pub mod types;
pub mod version;
