//! Verified core logic of a storage-provider client: peer bookkeeping and
//! selection, download state tracking, chunk batching and the decisions that
//! the provider tasks take between their calls to the outside world.

pub mod bytes;
pub mod keyed;
pub mod peer_stats;
pub mod peer_manager;
pub mod download_state;
pub mod download;
pub mod chunk_stream;
pub mod hex_key;
pub mod upload;
pub mod forest_cache;
pub mod pqueue;
pub mod shuffle;
pub mod lru_cache;
pub mod capacity;
pub mod proof_submit;
pub mod volunteer;
pub mod deletion;
pub mod msp_response;
pub mod fees;
pub mod config;
pub mod bucket_check;
pub mod confirm_storing;
pub mod laws;
