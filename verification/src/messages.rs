//! The messages that the gateway exchanges with workers and with the metrics
//! collector.

use vstd::prelude::*;
use crate::types::{PeerId, Range};

verus! {

/// The ranges of one dataset that a worker reports as stored.
#[derive(Clone, Debug, PartialEq, Eq)]
pub struct StoredRanges {
    pub url: String,
    pub ranges: Vec<Range>,
}

/// A worker's periodic report: its version and what it stores.
#[derive(Clone, Debug, PartialEq, Eq)]
pub struct Ping {
    pub version: Option<String>,
    pub stored_ranges: Vec<StoredRanges>,
}

/// A query as it is sent to a worker.
#[derive(Clone, Debug, PartialEq, Eq)]
pub struct Query {
    pub query_id: String,
    pub dataset: String,
    pub query: String,
    pub client_state_json: String,
    pub profiling: Option<bool>,
    pub signature: Vec<u8>,
    pub block_range: Option<Range>,
}

/// What a worker answers to a query.
#[derive(Clone, Debug, PartialEq, Eq)]
pub enum WorkerReply {
    Success(Vec<u8>),
    BadRequest(String),
    ServerError(String),
    NoAllocation,
    Timeout,
}

/// A worker's answer as it arrives: the query it belongs to and the reply,
/// which a malformed message may lack.
#[derive(Clone, Debug, PartialEq, Eq)]
pub struct QueryResult {
    pub query_id: String,
    pub result: Option<WorkerReply>,
}

/// What arrives from the network.
#[derive(Clone, Debug, PartialEq, Eq)]
pub enum GatewayEvent {
    Ping { peer_id: PeerId, ping: Ping },
    QueryResult { peer_id: PeerId, result: QueryResult },
    QueryDropped { query_id: String },
}

/// Metrics: a query was sent to a worker.
#[derive(Clone, Debug, PartialEq, Eq)]
pub struct QuerySubmitted {
    pub client_id: String,
    pub worker_id: String,
    pub query_id: String,
    pub dataset: String,
    pub query: String,
}

/// How a query ended, as the metrics report it.
#[derive(Clone, Debug, PartialEq, Eq)]
pub enum FinishedResult {
    /// The worker answered; its reply is handed out beside the metrics.
    Replied,
    /// The gateway stopped waiting, with its reason.
    Timeout(String),
}

/// Metrics: a query ended.
#[derive(Clone, Debug, PartialEq, Eq)]
pub struct QueryFinished {
    pub client_id: String,
    pub worker_id: String,
    pub query_id: String,
    pub exec_time_ms: u32,
    pub result: FinishedResult,
}

} // verus!
