use vstd::prelude::*;

use std::sync::Arc;

use crate::common::time::now_millis;
use crate::shard::shard::{uptime_of, ShardMetrics};

verus! {

/// Counters of the whole server.
pub struct GlobalMetrics {
    /// Milliseconds since the epoch when the server started.
    pub uptime_start: u64,
    pub connections_total: u64,
    pub connections_active: usize,
    pub commands_total: u64,
    pub command_errors_total: u64,
}

impl GlobalMetrics {
    /// Counters at zero, started at `now`.
    pub fn new_at(now: u64) -> (r: Arc<Self>)
        ensures
            *r == (GlobalMetrics {
                uptime_start: now,
                connections_total: 0,
                connections_active: 0,
                commands_total: 0,
                command_errors_total: 0,
            }),
    {
        Arc::new(
            GlobalMetrics {
                uptime_start: now,
                connections_total: 0,
                connections_active: 0,
                commands_total: 0,
                command_errors_total: 0,
            },
        )
    }

    /// Counters at zero, started now.
    pub fn new() -> (r: Arc<Self>)
        ensures
            r.connections_total == 0,
            r.connections_active == 0,
            r.commands_total == 0,
            r.command_errors_total == 0,
    {
        let now = now_millis();
        GlobalMetrics::new_at(now)
    }

    /// Whole seconds since the server started, read at `now`; none when the
    /// clock reads earlier.
    pub fn uptime_seconds_at(&self, now: u64) -> (r: u64)
        ensures
            r == uptime_of(self.uptime_start, now),
    {
        if now >= self.uptime_start {
            (now - self.uptime_start) / 1000
        } else {
            0
        }
    }

    /// Whole seconds since the server started.
    pub fn uptime_seconds(&self) -> (r: u64)
        ensures
            exists|now: u64| r == uptime_of(self.uptime_start, now),
    {
        let now = now_millis();
        self.uptime_seconds_at(now)
    }
}

/// Totals over all shards.
pub struct AggregatedMetrics {
    pub total_commands: u64,
    pub total_keys: usize,
    /// Bytes, as `u64` like the shards count them.
    pub total_memory: u64,
    pub total_expired: u64,
}

/// A counter of a shard.
#[derive(Clone, Copy)]
pub enum Counter {
    CommandsProcessed,
    KeyCount,
    MemoryBytes,
    KeysExpired,
    SnapshotsWritten,
    SnapshotWriteErrors,
}

/// The value of a shard's counter.
pub open spec fn counter_value(m: ShardMetrics, c: Counter) -> nat {
    match c {
        Counter::CommandsProcessed => m.commands_processed as nat,
        Counter::KeyCount => m.key_count as nat,
        Counter::MemoryBytes => m.memory_bytes as nat,
        Counter::KeysExpired => m.keys_expired as nat,
        Counter::SnapshotsWritten => m.snapshots_written as nat,
        Counter::SnapshotWriteErrors => m.snapshot_write_errors as nat,
    }
}

/// A counter summed over shards.
pub open spec fn counter_sum(shards: Seq<Arc<ShardMetrics>>, c: Counter) -> nat
    decreases shards.len(),
{
    if shards.len() == 0 {
        0
    } else {
        counter_sum(shards.drop_last(), c) + counter_value(*shards.last(), c)
    }
}

/// A sum over fewer shards is no larger.
pub proof fn lemma_counter_sum_prefix(shards: Seq<Arc<ShardMetrics>>, c: Counter, i: int)
    requires
        0 <= i <= shards.len(),
    ensures
        counter_sum(shards.take(i), c) <= counter_sum(shards, c),
    decreases shards.len(),
{
    if i < shards.len() {
        assert(shards.drop_last().take(i) =~= shards.take(i));
        lemma_counter_sum_prefix(shards.drop_last(), c, i);
    } else {
        assert(shards.take(i) =~= shards);
    }
}

/// The counters summed over the shards.
pub fn aggregate_shard_metrics(shards: &[Arc<ShardMetrics>]) -> (r: AggregatedMetrics)
    requires
        counter_sum(shards@, Counter::CommandsProcessed) <= u64::MAX,
        counter_sum(shards@, Counter::KeyCount) <= usize::MAX,
        counter_sum(shards@, Counter::MemoryBytes) <= u64::MAX,
        counter_sum(shards@, Counter::KeysExpired) <= u64::MAX,
    ensures
        r.total_commands == counter_sum(shards@, Counter::CommandsProcessed),
        r.total_keys == counter_sum(shards@, Counter::KeyCount),
        r.total_memory == counter_sum(shards@, Counter::MemoryBytes),
        r.total_expired == counter_sum(shards@, Counter::KeysExpired),
{
    let ghost all = shards@;
    let mut total_commands: u64 = 0;
    let mut total_keys: usize = 0;
    let mut total_memory: u64 = 0;
    let mut total_expired: u64 = 0;
    let mut i: usize = 0;
    while i < shards.len()
        invariant
            all == shards@,
            i <= all.len(),
            counter_sum(all, Counter::CommandsProcessed) <= u64::MAX,
            counter_sum(all, Counter::KeyCount) <= usize::MAX,
            counter_sum(all, Counter::MemoryBytes) <= u64::MAX,
            counter_sum(all, Counter::KeysExpired) <= u64::MAX,
            total_commands == counter_sum(all.take(i as int), Counter::CommandsProcessed),
            total_keys == counter_sum(all.take(i as int), Counter::KeyCount),
            total_memory == counter_sum(all.take(i as int), Counter::MemoryBytes),
            total_expired == counter_sum(all.take(i as int), Counter::KeysExpired),
        decreases all.len() - i,
    {
        proof {
            let next = all.take(i + 1);
            assert(next.drop_last() =~= all.take(i as int));
            lemma_counter_sum_prefix(all, Counter::CommandsProcessed, i + 1);
            lemma_counter_sum_prefix(all, Counter::KeyCount, i + 1);
            lemma_counter_sum_prefix(all, Counter::MemoryBytes, i + 1);
            lemma_counter_sum_prefix(all, Counter::KeysExpired, i + 1);
        }
        let shard = &shards[i];
        total_commands = total_commands + shard.commands_processed;
        total_keys = total_keys + shard.key_count;
        total_memory = total_memory + shard.memory_bytes;
        total_expired = total_expired + shard.keys_expired;
        i = i + 1;
    }
    assert(all.take(all.len() as int) =~= all);
    AggregatedMetrics { total_commands, total_keys, total_memory, total_expired }
}

} // verus!
