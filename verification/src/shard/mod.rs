pub mod codec;
pub mod deserialize;
pub mod entry;
pub mod expiration;
pub mod expiry;
pub mod format;
pub mod laws;
pub mod serialize;
pub mod shard;
pub mod snapshot_laws;
pub mod table;
pub mod worker;
