//! What the gateway knows of the network: the chunks of each dataset and the
//! state of each worker.

pub mod client;
pub mod datasets;
pub mod state;
pub mod storage;

pub use client::NetworkClient;
pub use state::NetworkState;
pub use storage::StorageClient;
