use vstd::prelude::*;

verus! {

/// Number of shards; a power of two, so that a key's shard is its hash masked.
pub const SHARD_COUNT: usize = 64;

pub const FRONTEND_THREADS: usize = 4;

/// Seconds between two snapshots of a shard.
pub const SNAPSHOT_INTERVAL_SECS: u64 = 60;

/// Milliseconds between two sweeps of the expiry queue.
pub const TTL_CHECK_INTERVAL_MS: u64 = 100;

/// Most keys one sweep of the expiry queue deletes.
pub const TTL_KEYS_PER_CHECK: usize = 20;

pub const MAX_KEY_SIZE: usize = 512;

/// 512 MiB.
pub const MAX_VALUE_SIZE: usize = 512 * 1024 * 1024;

pub const MAX_KEYS_PER_SHARD: usize = 100_000_000;

/// 20 GiB; a `u64`, since it does not fit a 32-bit `usize`.
pub const MAX_MEMORY_PER_SHARD: u64 = 20 * 1024 * 1024 * 1024;

pub const SNAPSHOT_CHANNEL_CAPACITY: usize = 1;

pub const DRAIN_TIMEOUT_SECS: u64 = 10;

pub const SNAPSHOT_TIMEOUT_SECS: u64 = 30;

} // verus!
