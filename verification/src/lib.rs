pub mod block_store;
pub mod bsv_tx;
pub mod bump;
pub mod chunks;
pub mod codec;
pub mod config;
pub mod engine;
pub mod hashing;
pub mod laws;
pub mod orders;
pub mod spv;
pub mod sync;
pub mod trades;
pub mod types;
