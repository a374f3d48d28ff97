pub mod constants;
pub mod hash;
pub mod shard_id;
pub mod text;
pub mod threads;
pub mod time;
pub mod types;
