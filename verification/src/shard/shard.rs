use vstd::prelude::*;

use vstd::wrapping::u64_specs::{wrapping_add, wrapping_sub};

use crate::common::constants::{MAX_KEYS_PER_SHARD, MAX_KEY_SIZE, MAX_MEMORY_PER_SHARD, MAX_VALUE_SIZE};
use crate::common::shard_id::ShardId;
use crate::common::text::{decimal_digits, is_text, push_decimal, push_str_bytes, text};
use crate::common::time::now_millis;
use crate::common::types::{copy_bytes, Key, Value};
use crate::protocol::command::{Command, CommandModel, key_views};
use crate::protocol::response::{Response, ResponseModel};
use crate::shard::entry::{Entry, Stored, expired_at};
use crate::shard::expiry::{Expiry, ExpiryQueue, queue_insert, lemma_queue_insert};
use crate::shard::table::EntryTable;

verus! {

/// Counters of a shard.
pub struct ShardMetrics {
    pub commands_processed: u64,
    pub keys_expired: u64,
    pub snapshots_written: u64,
    pub snapshots_skipped: u64,
    pub snapshot_write_errors: u64,
    pub key_count: usize,
    /// Bytes counted for the entries, as `u64` (20 GiB do not fit a 32-bit `usize`).
    pub memory_bytes: u64,
    pub queue_depth: usize,
    /// Milliseconds since the epoch when the counters were made.
    pub start_time: u64,
}

impl ShardMetrics {
    /// Milliseconds since the epoch when the counters were made.
    pub open spec fn started_at(self) -> u64 {
        self.start_time
    }

    /// Counters at zero, started at `now`.
    pub fn new_at(now: u64) -> (r: Self)
        ensures
            r.commands_processed == 0,
            r.keys_expired == 0,
            r.snapshots_written == 0,
            r.snapshots_skipped == 0,
            r.snapshot_write_errors == 0,
            r.key_count == 0,
            r.memory_bytes == 0,
            r.queue_depth == 0,
            r.started_at() == now,
    {
        ShardMetrics {
            commands_processed: 0,
            keys_expired: 0,
            snapshots_written: 0,
            snapshots_skipped: 0,
            snapshot_write_errors: 0,
            key_count: 0,
            memory_bytes: 0,
            queue_depth: 0,
            start_time: now,
        }
    }

    /// Counters at zero, started now.
    pub fn new() -> (r: Self)
        ensures
            r.commands_processed == 0,
            r.keys_expired == 0,
            r.snapshots_written == 0,
            r.snapshots_skipped == 0,
            r.snapshot_write_errors == 0,
            r.key_count == 0,
            r.memory_bytes == 0,
            r.queue_depth == 0,
    {
        let now = now_millis();
        ShardMetrics::new_at(now)
    }

    /// Counts one more command; the latency is not kept.
    pub fn record_command(&mut self, latency_millis: u64)
        ensures
            *final(self) == (ShardMetrics {
                commands_processed: wrapping_add(old(self).commands_processed, 1),
                ..*old(self)
            }),
    {
        self.commands_processed = self.commands_processed.wrapping_add(1);
    }

    /// Whole seconds since the counters started, read at `now`; none when the
    /// clock reads earlier.
    pub fn uptime_seconds_at(&self, now: u64) -> (r: u64)
        ensures
            r == uptime_of(self.started_at(), now),
    {
        if now >= self.start_time {
            (now - self.start_time) / 1000
        } else {
            0
        }
    }

    /// Whole seconds since the counters started.
    pub fn uptime_seconds(&self) -> (r: u64)
        ensures
            exists|now: u64| r == uptime_of(self.started_at(), now),
    {
        let now = now_millis();
        self.uptime_seconds_at(now)
    }
}

/// Whole seconds from `start` to `now`, none when `now` is earlier.
pub open spec fn uptime_of(start: u64, now: u64) -> u64 {
    if now >= start {
        ((now - start) / 1000) as u64
    } else {
        0
    }
}

/// A shard as contracts see it.
pub struct ShardState {
    pub id: ShardId,
    pub data: Map<Seq<u8>, Stored>,
    /// Keys waiting to expire, latest first.
    pub queue: Seq<(u128, Seq<u8>)>,
    pub metrics: ShardMetrics,
    pub max_memory_bytes: u64,
    pub max_keys: usize,
}

/// The bytes an entry counts for in a shard's memory: its key, its value and the entry.
pub open spec fn size_in_memory(key_len: nat, value_len: nat) -> nat {
    key_len + value_len + vstd::layout::size_of::<Entry>()
}

/// The instant `secs` seconds after `now`, in milliseconds.
pub open spec fn deadline(now: u64, secs: u64) -> u128 {
    (now + secs * 1000) as u128
}

/// Every key of `data` that expires waits in `queue` with its instant.
pub open spec fn covered_by(data: Map<Seq<u8>, Stored>, queue: Seq<(u128, Seq<u8>)>) -> bool {
    forall|k: Seq<u8>|
        #![trigger data[k]]
        data.contains_key(k) && data[k].expiry is Some ==> queue.contains((data[k].expiry->0, k))
}

/// Every key that expires waits in the queue with its instant.
pub open spec fn covered(s: ShardState) -> bool {
    covered_by(s.data, s.queue)
}

/// What holds of every shard: finitely many keys, counted by the key count;
/// keys and values short enough for a snapshot's 32-bit lengths; and every
/// expiring key in the queue.
pub open spec fn state_wf(s: ShardState) -> bool {
    &&& s.data.dom().finite()
    &&& s.metrics.key_count == s.data.dom().len()
    &&& forall|k: Seq<u8>| #[trigger] s.data.contains_key(k) ==> k.len() <= u32::MAX && s.data[k].value.len() <= u32::MAX
    &&& covered(s)
}

/// The shard after `k` is deleted, with its memory taken off (wrapping, as
/// the counter does) and the key count updated.
pub open spec fn after_remove(s: ShardState, k: Seq<u8>) -> ShardState {
    if s.data.contains_key(k) {
        ShardState {
            data: s.data.remove(k),
            metrics: ShardMetrics {
                memory_bytes: wrapping_sub(
                    s.metrics.memory_bytes,
                    size_in_memory(k.len(), s.data[k].value.len()) as u64,
                ),
                key_count: (s.data.dom().len() - 1) as usize,
                ..s.metrics
            },
            ..s
        }
    } else {
        s
    }
}

/// The shard after an expired key was found and deleted.
pub open spec fn after_expired(s: ShardState, k: Seq<u8>) -> ShardState {
    let r = after_remove(s, k);
    ShardState { metrics: ShardMetrics { keys_expired: wrapping_add(r.metrics.keys_expired, 1), ..r.metrics }, ..r }
}

/// Whether SET stays within `u64` when it works out the memory it would use.
pub open spec fn set_admissible(s: ShardState, key: Seq<u8>, value: Seq<u8>) -> bool {
    (key.len() <= MAX_KEY_SIZE && value.len() <= MAX_VALUE_SIZE && (s.data.contains_key(key)
        || s.data.dom().len() < s.max_keys)) ==> {
        let new_size = size_in_memory(key.len(), value.len());
        let old_size: nat = if s.data.contains_key(key) {
            size_in_memory(key.len(), s.data[key].value.len())
        } else {
            0
        };
        s.metrics.memory_bytes + new_size <= u64::MAX && s.metrics.memory_bytes + new_size >= old_size
    }
}

/// Whether a command can run on a shard without an arithmetic overflow.
pub open spec fn admissible(s: ShardState, cmd: CommandModel) -> bool {
    match cmd {
        CommandModel::SetKey(k, v, _) => set_admissible(s, k, v),
        CommandModel::Del(keys) => keys.len() <= i64::MAX,
        _ => true,
    }
}

pub open spec fn spec_ping(message: Option<Seq<u8>>) -> ResponseModel {
    match message {
        None => ResponseModel::Value(Some(vstd::utf8::encode_utf8("PONG"@))),
        Some(m) => ResponseModel::Value(Some(m)),
    }
}

/// SET: refused for a key over `MAX_KEY_SIZE`, a value over `MAX_VALUE_SIZE`, a
/// new key in a full shard, or memory over the limit; else stores the value,
/// with its expiry, and counts its memory.
pub open spec fn spec_set(s: ShardState, key: Seq<u8>, value: Seq<u8>, ttl: Option<u64>, now: u64) -> (
    ShardState,
    ResponseModel,
) {
    if key.len() > MAX_KEY_SIZE {
        (s, ResponseModel::Error("ERR key too large"@))
    } else if value.len() > MAX_VALUE_SIZE {
        (s, ResponseModel::Error("ERR value too large"@))
    } else if !s.data.contains_key(key) && s.data.dom().len() >= s.max_keys {
        (s, ResponseModel::Error("ERR shard full"@))
    } else {
        let expiry = match ttl {
            Some(secs) => Some(deadline(now, secs)),
            None => None,
        };
        let new_size = size_in_memory(key.len(), value.len());
        let old_size: nat = if s.data.contains_key(key) {
            size_in_memory(key.len(), s.data[key].value.len())
        } else {
            0
        };
        let projected = s.metrics.memory_bytes + new_size - old_size;
        if projected > s.max_memory_bytes {
            (s, ResponseModel::Error("ERR OOM command not allowed when used memory > 'maxmemory'"@))
        } else {
            let data = s.data.insert(key, Stored { value, expiry });
            let queue = match expiry {
                Some(t) => queue_insert(s.queue, (t, key)),
                None => s.queue,
            };
            (
                ShardState {
                    data,
                    queue,
                    metrics: ShardMetrics {
                        memory_bytes: projected as u64,
                        key_count: data.dom().len() as usize,
                        ..s.metrics
                    },
                    ..s
                },
                ResponseModel::Okay,
            )
        }
    }
}

/// GET: the value, unless the key is absent or expired; an expired key is deleted.
pub open spec fn spec_get(s: ShardState, key: Seq<u8>, now: u64) -> (ShardState, ResponseModel) {
    if !s.data.contains_key(key) {
        (s, ResponseModel::Value(None))
    } else if expired_at(s.data[key], now) {
        (after_expired(s, key), ResponseModel::Value(None))
    } else {
        (s, ResponseModel::Value(Some(s.data[key].value)))
    }
}

/// DEL: deletes each key in turn; how many were there.
pub open spec fn spec_del(s: ShardState, keys: Seq<Seq<u8>>) -> (ShardState, int)
    decreases keys.len(),
{
    if keys.len() == 0 {
        (s, 0)
    } else {
        let found: int = if s.data.contains_key(keys[0]) {
            1
        } else {
            0
        };
        let (t, n) = spec_del(after_remove(s, keys[0]), keys.drop_first());
        (t, found + n)
    }
}

/// EXPIRE: sets a present key to expire `seconds` from now (expired or not)
/// and queues it: 1; else 0.
pub open spec fn spec_expire(s: ShardState, key: Seq<u8>, seconds: u64, now: u64) -> (ShardState, ResponseModel) {
    if s.data.contains_key(key) {
        let t = deadline(now, seconds);
        (
            ShardState {
                data: s.data.insert(key, Stored { value: s.data[key].value, expiry: Some(t) }),
                queue: queue_insert(s.queue, (t, key)),
                ..s
            },
            ResponseModel::Integer(1),
        )
    } else {
        (s, ResponseModel::Integer(0))
    }
}

/// TTL: -2 for an absent key, -1 for one that does not expire, the whole
/// seconds left for one that has not expired; an expired key is deleted, -2.
pub open spec fn spec_ttl(s: ShardState, key: Seq<u8>, now: u64) -> (ShardState, ResponseModel) {
    if !s.data.contains_key(key) {
        (s, ResponseModel::Integer(-2i64))
    } else {
        match s.data[key].expiry {
            None => (s, ResponseModel::Integer(-1i64)),
            Some(exp) => {
                if now >= exp {
                    (after_expired(s, key), ResponseModel::Integer(-2i64))
                } else {
                    (s, ResponseModel::Integer((((exp - now) / 1000) as u64) as i64))
                }
            },
        }
    }
}

/// The text of a line `name:number`.
pub open spec fn info_line(name: Seq<char>, n: nat) -> Seq<u8> {
    vstd::utf8::encode_utf8(name) + decimal_digits(n) + vstd::utf8::encode_utf8("\r\n"@)
}

/// INFO: the server, stats or memory section; the server section by default.
pub open spec fn spec_info(s: ShardState, section: Option<Seq<char>>, now: u64) -> ResponseModel {
    let server = section is None || section == Some("server"@);
    if server {
        ResponseModel::Value(
            Some(
                vstd::utf8::encode_utf8("# Server\r\n"@) + info_line("shard_id:"@, s.id.0 as nat) + info_line(
                    "uptime_seconds:"@,
                    uptime_of(s.metrics.started_at(), now) as nat,
                ),
            ),
        )
    } else if section == Some("stats"@) {
        ResponseModel::Value(
            Some(
                vstd::utf8::encode_utf8("# Stats\r\n"@) + info_line(
                    "total_commands_processed:"@,
                    s.metrics.commands_processed as nat,
                ) + info_line("keys_expired:"@, s.metrics.keys_expired as nat),
            ),
        )
    } else if section == Some("memory"@) {
        ResponseModel::Value(
            Some(
                vstd::utf8::encode_utf8("# Memory\r\n"@) + info_line("used_memory:"@, s.metrics.memory_bytes as nat)
                    + info_line("key_count:"@, s.metrics.key_count as nat),
            ),
        )
    } else {
        ResponseModel::Error("ERR unknown section"@)
    }
}

/// What a command does to a shard, and the response, before it is counted.
pub open spec fn spec_apply(s: ShardState, cmd: CommandModel, now: u64) -> (ShardState, ResponseModel) {
    match cmd {
        CommandModel::Ping(message) => (s, spec_ping(message)),
        CommandModel::SetKey(key, value, ttl) => spec_set(s, key, value, ttl, now),
        CommandModel::Get(key) => spec_get(s, key, now),
        CommandModel::Del(keys) => {
            let (t, n) = spec_del(s, keys);
            (t, ResponseModel::Integer(n as i64))
        },
        CommandModel::Expire(key, seconds) => spec_expire(s, key, seconds, now),
        CommandModel::Ttl(key) => spec_ttl(s, key, now),
        CommandModel::Info(section) => (s, spec_info(s, section, now)),
    }
}

/// What a command does to a shard, counted, and the response.
pub open spec fn spec_execute(s: ShardState, cmd: CommandModel, now: u64) -> (ShardState, ResponseModel) {
    let (t, r) = spec_apply(s, cmd, now);
    (
        ShardState {
            metrics: ShardMetrics { commands_processed: wrapping_add(t.metrics.commands_processed, 1), ..t.metrics },
            ..t
        },
        r,
    )
}

/// One shard of the key space: its entries, the keys waiting to expire, and
/// its counters.
pub struct Shard {
    pub id: ShardId,
    pub data: EntryTable,
    pub ttl_queue: ExpiryQueue,
    pub metrics: ShardMetrics,
    pub max_memory_bytes: u64,
    pub max_keys: usize,
}

impl Shard {
    pub open spec fn view(&self) -> ShardState {
        ShardState {
            id: self.id,
            data: self.data@,
            queue: self.ttl_queue@,
            metrics: self.metrics,
            max_memory_bytes: self.max_memory_bytes,
            max_keys: self.max_keys,
        }
    }

    pub open spec fn wf(&self) -> bool {
        &&& self.data.wf()
        &&& self.ttl_queue.wf()
        &&& state_wf(self@)
    }

    /// An empty shard whose counters start at `now`.
    pub fn new_at(id: ShardId, now: u64) -> (r: Self)
        ensures
            r.wf(),
            r@.id == id,
            r@.data == Map::<Seq<u8>, Stored>::empty(),
            r@.queue == Seq::<(u128, Seq<u8>)>::empty(),
            r@.metrics == ShardMetrics::new_at_spec(now),
            r@.max_memory_bytes == MAX_MEMORY_PER_SHARD,
            r@.max_keys == MAX_KEYS_PER_SHARD,
    {
        Shard {
            id,
            data: EntryTable::new(),
            ttl_queue: ExpiryQueue::new(),
            metrics: ShardMetrics::new_at(now),
            max_memory_bytes: MAX_MEMORY_PER_SHARD,
            max_keys: MAX_KEYS_PER_SHARD,
        }
    }

    /// An empty shard.
    pub fn new(id: ShardId) -> (r: Self)
        ensures
            r.wf(),
            r@.id == id,
            r@.data == Map::<Seq<u8>, Stored>::empty(),
            r@.queue == Seq::<(u128, Seq<u8>)>::empty(),
            r@.max_memory_bytes == MAX_MEMORY_PER_SHARD,
            r@.max_keys == MAX_KEYS_PER_SHARD,
            exists|now: u64| r@.metrics == ShardMetrics::new_at_spec(now),
    {
        let now = now_millis();
        Shard::new_at(id, now)
    }
}

/// The bytes an entry counts for in a shard's memory.
fn entry_size_bytes(key: &[u8], value: &Value) -> (r: u64)
    requires
        key@.len() <= u32::MAX,
        value.bytes().len() <= u32::MAX,
    ensures
        r == size_in_memory(key@.len(), value.bytes().len()),
{
    vstd::layout::layout_for_type_is_valid::<Entry>();
    key.len() as u64 + value.size_bytes() as u64 + core::mem::size_of::<Entry>() as u64
}

/// An error response with the given text.
fn error_response(t: &str) -> (r: Response)
    ensures
        r.model() == ResponseModel::Error(t@),
{
    Response::Error(text(t))
}

impl Shard {
    /// Deletes `key`, taking its memory off and updating the key count.
    fn remove_key_update_metrics(&mut self, key: &[u8]) -> (r: bool)
        requires
            old(self).wf(),
        ensures
            final(self).wf(),
            final(self)@ == after_remove(old(self)@, key@),
            r == old(self)@.data.contains_key(key@),
    {
        proof {
            old(self).data.lemma_ordered();
        }
        match self.data.remove(key) {
            Some(old_entry) => {
                let old_size = entry_size_bytes(key, &old_entry.value);
                self.metrics.memory_bytes = self.metrics.memory_bytes.wrapping_sub(old_size);
                self.metrics.key_count = self.data.len();
                proof {
                    assert(self@.data == old(self)@.data.remove(key@));
                    assert(self@ == after_remove(old(self)@, key@));
                }
                true
            },
            None => {
                assert(self@.data =~= old(self)@.data);
                false
            },
        }
    }

    /// Counts a key found expired.
    fn count_expired(&mut self)
        ensures
            *final(self) == (Shard {
                metrics: ShardMetrics {
                    keys_expired: wrapping_add(old(self).metrics.keys_expired, 1),
                    ..old(self).metrics
                },
                ..*old(self)
            }),
    {
        self.metrics.keys_expired = self.metrics.keys_expired.wrapping_add(1);
    }
}

impl Shard {
    fn cmd_ping(&self, message: Option<Vec<u8>>) -> (r: Response)
        ensures
            r.model() == spec_ping(
                match message {
                    None => None,
                    Some(m) => Some(m@),
                },
            ),
    {
        match message {
            None => {
                let mut pong: Vec<u8> = Vec::new();
                push_str_bytes(&mut pong, "PONG");
                Response::Value(Some(Value::String(pong)))
            },
            Some(msg) => Response::Value(Some(Value::String(msg))),
        }
    }

    fn cmd_set(&mut self, key: Key, value: Value, ttl: Option<u64>, now: u64) -> (r: Response)
        requires
            old(self).wf(),
            set_admissible(old(self)@, key@, value.bytes()),
        ensures
            final(self).wf(),
            (final(self)@, r.model()) == spec_set(old(self)@, key@, value.bytes(), ttl, now),
    {
        let ghost s = self@;
        let ghost k = key@;
        let ghost v = value.bytes();
        if key.len() > MAX_KEY_SIZE {
            return error_response("ERR key too large");
        }
        if value.size_bytes() > MAX_VALUE_SIZE {
            return error_response("ERR value too large");
        }
        let present = self.data.get(key.as_slice()).is_some();
        if !present && self.data.len() >= self.max_keys {
            return error_response("ERR shard full");
        }
        let expiry: Option<u128> = match ttl {
            Some(secs) => Some(now as u128 + secs as u128 * 1000),
            None => None,
        };
        let new_size = entry_size_bytes(key.as_slice(), &value);
        let old_size: u64 = match self.data.get(key.as_slice()) {
            Some(e) => entry_size_bytes(key.as_slice(), &e.value),
            None => 0,
        };
        let current = self.metrics.memory_bytes;
        let projected = current + new_size - old_size;
        if projected > self.max_memory_bytes {
            return error_response("ERR OOM command not allowed when used memory > 'maxmemory'");
        }
        let queued_key = copy_bytes(key.as_slice());
        let entry = Entry::new_at(value, expiry, now);
        self.data.insert(key, entry);
        match expiry {
            Some(t) => {
                proof {
                    lemma_queue_insert(s.queue, (t, k));
                }
                self.ttl_queue.push(Expiry { expiry_time: t, key: queued_key });
            },
            None => {},
        }
        if old_size > 0 {
            self.metrics.memory_bytes = self.metrics.memory_bytes.wrapping_sub(old_size);
        }
        self.metrics.memory_bytes = self.metrics.memory_bytes.wrapping_add(new_size);
        self.metrics.key_count = self.data.len();
        proof {
            let t = self@;
            assert(t.data == s.data.insert(k, Stored { value: v, expiry }));
            assert forall|k2: Seq<u8>|
                #![trigger t.data[k2]]
                t.data.contains_key(k2) && t.data[k2].expiry is Some implies t.queue.contains((t.data[k2].expiry->0, k2)) by {
                if k2 != k {
                    assert(s.queue.contains((s.data[k2].expiry->0, k2)));
                }
            }
        }
        Response::Okay
    }

    fn cmd_get(&mut self, key: &Key, now: u64) -> (r: Response)
        requires
            old(self).wf(),
        ensures
            final(self).wf(),
            (final(self)@, r.model()) == spec_get(old(self)@, key@, now),
    {
        let expired = match self.data.get(key.as_slice()) {
            Some(entry) => entry.is_expired_at(now),
            None => return Response::Value(None),
        };
        if expired {
            self.remove_key_update_metrics(key.as_slice());
            self.count_expired();
            return Response::Value(None);
        }
        let entry = self.data.get(key.as_slice()).unwrap();
        let bytes = copy_bytes(entry.value.as_bytes());
        Response::Value(Some(Value::String(bytes)))
    }

    fn cmd_del(&mut self, keys: &Vec<Key>) -> (r: Response)
        requires
            old(self).wf(),
            keys@.len() <= i64::MAX,
        ensures
            final(self).wf(),
            ({
                let (t, n) = spec_del(old(self)@, key_views(keys@));
                final(self)@ == t && r.model() == ResponseModel::Integer(n as i64)
            }),
    {
        let ghost all = key_views(keys@);
        let mut deleted: i64 = 0;
        let mut i: usize = 0;
        assert(all.skip(0) =~= all);
        while i < keys.len()
            invariant
                i <= keys@.len() <= i64::MAX,
                0 <= deleted <= i,
                self.wf(),
                all == key_views(keys@),
                ({
                    let (t, n) = spec_del(old(self)@, all);
                    let (t2, n2) = spec_del(self@, all.skip(i as int));
                    t == t2 && n == deleted + n2
                }),
            decreases keys@.len() - i,
        {
            proof {
                assert(all.skip(i as int).drop_first() =~= all.skip(i + 1));
                assert(all.skip(i as int)[0] == keys@[i as int]@);
            }
            if self.remove_key_update_metrics(keys[i].as_slice()) {
                deleted = deleted + 1;
            }
            i = i + 1;
        }
        proof {
            assert(all.skip(i as int) =~= Seq::<Seq<u8>>::empty());
        }
        Response::Integer(deleted)
    }

    fn cmd_expire(&mut self, key: &Key, seconds: u64, now: u64) -> (r: Response)
        requires
            old(self).wf(),
        ensures
            final(self).wf(),
            (final(self)@, r.model()) == spec_expire(old(self)@, key@, seconds, now),
    {
        let ghost s = self@;
        let ghost k = key@;
        let expiry_time: u128 = now as u128 + seconds as u128 * 1000;
        if self.data.set_expiry(key.as_slice(), Some(expiry_time)) {
            proof {
                lemma_queue_insert(s.queue, (expiry_time, k));
            }
            self.ttl_queue.push(Expiry { expiry_time, key: copy_bytes(key.as_slice()) });
            proof {
                let t = self@;
                assert forall|k2: Seq<u8>|
                    #![trigger t.data[k2]]
                    t.data.contains_key(k2) && t.data[k2].expiry is Some implies t.queue.contains((t.data[k2].expiry->0, k2)) by {
                    if k2 != k {
                        assert(s.queue.contains((s.data[k2].expiry->0, k2)));
                    }
                }
            }
            Response::Integer(1)
        } else {
            Response::Integer(0)
        }
    }

    fn cmd_ttl(&mut self, key: &Key, now: u64) -> (r: Response)
        requires
            old(self).wf(),
        ensures
            final(self).wf(),
            (final(self)@, r.model()) == spec_ttl(old(self)@, key@, now),
    {
        let expiry = match self.data.get(key.as_slice()) {
            None => return Response::Integer(-2),
            Some(entry) => entry.expiry,
        };
        match expiry {
            None => Response::Integer(-1),
            Some(exp) => {
                if now as u128 >= exp {
                    self.remove_key_update_metrics(key.as_slice());
                    self.count_expired();
                    Response::Integer(-2)
                } else {
                    let remaining: u128 = (exp - now as u128) / 1000;
                    Response::Integer(remaining as u64 as i64)
                }
            },
        }
    }
}

/// Appends a line `name:number`.
fn push_info_line(buf: &mut Vec<u8>, name: &str, n: u64)
    ensures
        final(buf)@ == old(buf)@ + info_line(name@, n as nat),
{
    push_str_bytes(buf, name);
    push_decimal(buf, n);
    push_str_bytes(buf, "\r\n");
    assert(final(buf)@ =~= old(buf)@ + info_line(name@, n as nat));
}

impl Shard {
    fn cmd_info(&self, section: Option<String>, now: u64) -> (r: Response)
        ensures
            r.model() == spec_info(
                self@,
                match section {
                    None => None,
                    Some(s) => Some(s@),
                },
                now,
            ),
    {
        let which: u8 = match &section {
            None => 0,
            Some(s) => {
                if is_text(s, "server") {
                    0
                } else if is_text(s, "stats") {
                    1
                } else if is_text(s, "memory") {
                    2
                } else {
                    3
                }
            },
        };
        let mut info: Vec<u8> = Vec::new();
        if which == 0 {
            push_str_bytes(&mut info, "# Server\r\n");
            push_info_line(&mut info, "shard_id:", self.id.0 as u64);
            let uptime = self.metrics.uptime_seconds_at(now);
            push_info_line(&mut info, "uptime_seconds:", uptime);
        } else if which == 1 {
            push_str_bytes(&mut info, "# Stats\r\n");
            push_info_line(&mut info, "total_commands_processed:", self.metrics.commands_processed);
            push_info_line(&mut info, "keys_expired:", self.metrics.keys_expired);
        } else if which == 2 {
            push_str_bytes(&mut info, "# Memory\r\n");
            push_info_line(&mut info, "used_memory:", self.metrics.memory_bytes);
            push_info_line(&mut info, "key_count:", self.metrics.key_count as u64);
        } else {
            return error_response("ERR unknown section");
        }
        proof {
            assert(info@ =~= spec_info(
                self@,
                match section {
                    None => None,
                    Some(s) => Some(s@),
                },
                now,
            )->Value_0->0);
        }
        Response::Value(Some(Value::String(info)))
    }

    /// Runs a command at `now`, before it is counted.
    fn apply_at(&mut self, command: Command, now: u64) -> (r: Response)
        requires
            old(self).wf(),
            admissible(old(self)@, command.model()),
        ensures
            final(self).wf(),
            (final(self)@, r.model()) == spec_apply(old(self)@, command.model(), now),
    {
        match command {
            Command::Ping { message } => self.cmd_ping(message),
            Command::SetKey { key, value, ttl } => self.cmd_set(key, value, ttl, now),
            Command::Get { key } => self.cmd_get(&key, now),
            Command::Del { keys } => self.cmd_del(&keys),
            Command::Expire { key, seconds } => self.cmd_expire(&key, seconds, now),
            Command::Ttl { key } => self.cmd_ttl(&key, now),
            Command::Info { section } => self.cmd_info(section, now),
        }
    }

    /// Runs a command at `now` and counts it.
    pub fn execute_at(&mut self, command: Command, now: u64) -> (r: Response)
        requires
            old(self).wf(),
            admissible(old(self)@, command.model()),
        ensures
            final(self).wf(),
            (final(self)@, r.model()) == spec_execute(old(self)@, command.model(), now),
    {
        let response = self.apply_at(command, now);
        self.metrics.record_command(0);
        response
    }

    /// Runs a command now and counts it.
    pub fn execute(&mut self, command: Command) -> (r: Response)
        requires
            old(self).wf(),
            admissible(old(self)@, command.model()),
        ensures
            final(self).wf(),
            exists|now: u64| (final(self)@, r.model()) == spec_execute(old(self)@, command.model(), now),
    {
        let ghost cm = command.model();
        let start = now_millis();
        let response = self.apply_at(command, start);
        let end = now_millis();
        let latency: u64 = if end >= start { end - start } else { 0 };
        self.metrics.record_command(latency);
        assert((self@, response.model()) == spec_execute(old(self)@, cm, start));
        response
    }

    /// Whether `command` can run on this shard without an arithmetic overflow
    /// (a SET whose memory count would leave `u64`, or a DEL of more keys than
    /// an `i64` counts).
    pub fn admits(&self, command: &Command) -> (r: bool)
        requires
            self.wf(),
        ensures
            r == admissible(self@, command.model()),
    {
        match command {
            Command::SetKey { key, value, ttl: _ } => {
                let present = self.data.get(key.as_slice()).is_some();
                if key.len() > MAX_KEY_SIZE || value.size_bytes() > MAX_VALUE_SIZE || (!present
                    && self.data.len() >= self.max_keys) {
                    return true;
                }
                let new_size = entry_size_bytes(key.as_slice(), value);
                let old_size: u64 = match self.data.get(key.as_slice()) {
                    Some(e) => {
                        proof {
                            self.data.lemma_ordered();
                        }
                        entry_size_bytes(key.as_slice(), &e.value)
                    },
                    None => 0,
                };
                let current = self.metrics.memory_bytes;
                new_size <= u64::MAX - current && current + new_size >= old_size
            },
            Command::Del { keys } => keys.len() as u128 <= i64::MAX as u128,
            _ => true,
        }
    }
}

impl ShardMetrics {
    /// The counters `new_at(now)` makes.
    pub open spec fn new_at_spec(now: u64) -> ShardMetrics {
        ShardMetrics {
            commands_processed: 0,
            keys_expired: 0,
            snapshots_written: 0,
            snapshots_skipped: 0,
            snapshot_write_errors: 0,
            key_count: 0,
            memory_bytes: 0,
            queue_depth: 0,
            start_time: now,
        }
    }
}

} // verus!
