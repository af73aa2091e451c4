//! Verified building blocks: ordered collections, a deque with map lookups,
//! byte-size text, chunked message framing, error kinds and builders.
pub mod order;
pub mod heap;
pub mod binary_heap;
pub mod priority_queue;
pub mod bytesize;
pub mod dequemap;
pub mod transfer;
pub mod chunked;
pub mod queue_ext;
pub mod client;
pub mod wrapper;
pub mod std_ext;
pub mod task_exec_queue;
pub mod task_executor;
pub mod cache_map;
pub mod channel;
pub mod counter;
pub mod service;
pub mod server;
