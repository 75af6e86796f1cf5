//! DNS answer cache: entries, keys, the in-memory backend, the durable
//! value layout and the serve-time helpers.

pub mod entry;
pub mod inflight;
pub mod key;
pub mod lmdb;
pub mod layout;
pub mod lmdb_policy;
pub mod memory;
pub mod reconcile;
pub mod registry;
pub mod response;
pub mod serve;
pub mod shard;
