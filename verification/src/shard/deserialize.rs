use vstd::prelude::*;

use crate::common::constants::{MAX_KEYS_PER_SHARD, MAX_MEMORY_PER_SHARD};
use crate::common::shard_id::ShardId;
use crate::common::time::{instant_of_unix_seconds, now_millis, unix_timestamp_to_instant_at};
use crate::common::types::{copy_bytes, Value};
use crate::shard::codec::{crc64_checksum, crc64_ecma182, le_u32_at, le_u64_at, le_value};
use crate::shard::entry::{Entry, Stored};
use crate::shard::expiry::{lemma_queue_insert, queue_insert, Expiry};
use crate::shard::format::{magic_seq, SnapshotHeader, HEADER_SIZE, MAGIC, VERSION};
use crate::shard::shard::{Shard, ShardMetrics, ShardState};

verus! {

#[verifier::external_type_specification]
#[verifier::external_body]
pub struct ExIoError(std::io::Error);

/// `std::io::Error::new` with `ErrorKind::UnexpectedEof` and the words that
/// `read_exact` uses: the error of a read that runs past the end of the bytes.
#[verifier::external_body]
fn unexpected_eof() -> std::io::Error {
    std::io::Error::new(std::io::ErrorKind::UnexpectedEof, "failed to fill whole buffer")
}

/// Why a snapshot could not be loaded.
#[derive(Debug)]
pub enum SnapshotError {
    TooSmall,
    InvalidMagic,
    UnsupportedVersion(u32),
    HeaderChecksumMismatch,
    DataChecksumMismatch,
    Io(std::io::Error),
}

impl From<std::io::Error> for SnapshotError {
    fn from(e: std::io::Error) -> (r: Self) {
        SnapshotError::Io(e)
    }
}

impl vstd::std_specs::convert::FromSpecImpl<std::io::Error> for SnapshotError {
    open spec fn obeys_from_spec() -> bool {
        true
    }

    open spec fn from_spec(e: std::io::Error) -> Self {
        SnapshotError::Io(e)
    }
}

/// One entry as a snapshot stores it; the expiry is in Unix seconds.
pub struct RecordModel {
    pub key: Seq<u8>,
    pub value: Seq<u8>,
    pub expiry: Option<u64>,
}

/// The record that starts at `pos` and where the next one starts; none when
/// the bytes end before the record does. A flag byte other than 1 means that
/// the entry does not expire.
pub open spec fn record_at(data: Seq<u8>, pos: int) -> Option<(RecordModel, int)> {
    if pos < 0 || pos + 4 > data.len() {
        None
    } else {
        let k0 = pos + 4;
        let klen = le_value(data.subrange(pos, k0)) as int;
        if k0 + klen + 4 > data.len() {
            None
        } else {
            let key = data.subrange(k0, k0 + klen);
            let v0 = k0 + klen + 4;
            let vlen = le_value(data.subrange(k0 + klen, v0)) as int;
            if v0 + vlen + 1 > data.len() {
                None
            } else {
                let value = data.subrange(v0, v0 + vlen);
                let f = v0 + vlen;
                if data[f] == 1u8 {
                    if f + 9 > data.len() {
                        None
                    } else {
                        Some((RecordModel { key, value, expiry: Some(le_value(data.subrange(f + 1, f + 9)) as u64) }, f + 9))
                    }
                } else {
                    Some((RecordModel { key, value, expiry: None }, f + 1))
                }
            }
        }
    }
}

/// The first `n` records from `start` on and where they end; none when the
/// bytes end first.
pub open spec fn records_from(data: Seq<u8>, start: int, n: nat) -> Option<(Seq<RecordModel>, int)>
    decreases n,
{
    if n == 0 {
        Some((Seq::empty(), start))
    } else {
        match records_from(data, start, (n - 1) as nat) {
            None => None,
            Some((recs, pos)) => match record_at(data, pos) {
                None => None,
                Some((r, next)) => Some((recs.push(r), next)),
            },
        }
    }
}

/// The entries and the waiting keys that loading the records gives on a clock
/// showing `now` (milliseconds): a later record of a key replaces an earlier
/// one; a record whose expiry is not after the current second is skipped.
pub open spec fn restored(recs: Seq<RecordModel>, now: u64) -> (Map<Seq<u8>, Stored>, Seq<(u128, Seq<u8>)>)
    decreases recs.len(),
{
    if recs.len() == 0 {
        (Map::empty(), Seq::empty())
    } else {
        let (data, queue) = restored(recs.drop_last(), now);
        let r = recs.last();
        match r.expiry {
            None => (data.insert(r.key, Stored { value: r.value, expiry: None }), queue),
            Some(ts) => if ts <= now / 1000 {
                (data, queue)
            } else {
                let at = instant_of_unix_seconds(ts, now);
                (data.insert(r.key, Stored { value: r.value, expiry: Some(at) }), queue_insert(queue, (at, r.key)))
            },
        }
    }
}

/// The shard that loading the records gives: a new shard made at `now` that
/// holds them.
pub open spec fn restored_state(id: u16, recs: Seq<RecordModel>, now: u64) -> ShardState {
    let (data, queue) = restored(recs, now);
    ShardState {
        id: ShardId(id),
        data,
        queue,
        metrics: ShardMetrics { key_count: data.dom().len() as usize, ..ShardMetrics::new_at_spec(now) },
        max_memory_bytes: MAX_MEMORY_PER_SHARD,
        max_keys: MAX_KEYS_PER_SHARD,
    }
}

/// What loading a snapshot comes to.
pub enum LoadModel {
    TooSmall,
    InvalidMagic,
    UnsupportedVersion(u32),
    HeaderChecksumMismatch,
    DataChecksumMismatch,
    /// The bytes end inside a record.
    Truncated,
    Loaded(ShardState),
}

/// What loading the snapshot `data` on a clock showing `now` comes to, the
/// checks in order: size, magic, version, the header checksum (stored at
/// offset 36, over the first 56 bytes), the data checksum (stored at offset 28,
/// over everything after the header), then the records that the header counts.
/// The writer puts the checksums at offsets 32 and 40, so a snapshot that
/// `serialize_shard` wrote is refused here.
pub open spec fn spec_load(data: Seq<u8>, now: u64) -> LoadModel {
    if data.len() < HEADER_SIZE {
        LoadModel::TooSmall
    } else if data.subrange(0, 4) != magic_seq() {
        LoadModel::InvalidMagic
    } else if le_value(data.subrange(4, 8)) != VERSION {
        LoadModel::UnsupportedVersion(le_value(data.subrange(4, 8)) as u32)
    } else if le_value(data.subrange(36, 44)) != crc64_ecma182(data.subrange(0, 56)) as nat {
        LoadModel::HeaderChecksumMismatch
    } else if le_value(data.subrange(28, 36)) != crc64_ecma182(data.subrange(64, data.len() as int)) as nat {
        LoadModel::DataChecksumMismatch
    } else {
        match records_from(data, 64, le_value(data.subrange(12, 20))) {
            None => LoadModel::Truncated,
            Some((recs, _)) => LoadModel::Loaded(restored_state(le_value(data.subrange(8, 10)) as u16, recs, now)),
        }
    }
}

/// What a result of loading comes to.
pub open spec fn load_model(r: &Result<Shard, SnapshotError>) -> LoadModel {
    match r {
        Ok(s) => LoadModel::Loaded(s@),
        Err(SnapshotError::TooSmall) => LoadModel::TooSmall,
        Err(SnapshotError::InvalidMagic) => LoadModel::InvalidMagic,
        Err(SnapshotError::UnsupportedVersion(v)) => LoadModel::UnsupportedVersion(*v),
        Err(SnapshotError::HeaderChecksumMismatch) => LoadModel::HeaderChecksumMismatch,
        Err(SnapshotError::DataChecksumMismatch) => LoadModel::DataChecksumMismatch,
        Err(SnapshotError::Io(_)) => LoadModel::Truncated,
    }
}

/// Once the bytes end inside a record, asking for more records does not help.
proof fn lemma_records_stay_short(data: Seq<u8>, start: int, n: nat, m: nat)
    requires
        n <= m,
        records_from(data, start, n) is None,
    ensures
        records_from(data, start, m) is None,
    decreases m,
{
    if m > n {
        lemma_records_stay_short(data, start, n, (m - 1) as nat);
    }
}

/// The record at `pos`: key, value, expiry in Unix seconds, and where the next
/// record starts.
fn read_record(data: &[u8], pos: usize) -> (r: Option<(Vec<u8>, Vec<u8>, Option<u64>, usize)>)
    ensures
        match r {
            None => record_at(data@, pos as int) is None,
            Some((key, value, expiry, next)) => {
                &&& record_at(data@, pos as int) == Some(
                    (RecordModel { key: key@, value: value@, expiry }, next as int),
                )
                &&& key@.len() <= u32::MAX
                &&& value@.len() <= u32::MAX
            },
        },
{
    let len = data.len();
    if pos > len || len - pos < 4 {
        return None;
    }
    let k0 = pos + 4;
    let klen = le_u32_at(data, pos) as usize;
    if len - k0 < klen || len - k0 - klen < 4 {
        return None;
    }
    let key = copy_bytes(&data[k0..k0 + klen]);
    let v0 = k0 + klen + 4;
    let vlen = le_u32_at(data, k0 + klen) as usize;
    if len - v0 < vlen || len - v0 - vlen < 1 {
        return None;
    }
    let value = copy_bytes(&data[v0..v0 + vlen]);
    let f = v0 + vlen;
    if data[f] == 1u8 {
        if len - f < 9 {
            return None;
        }
        let ts = le_u64_at(data, f + 1);
        Some((key, value, Some(ts), f + 9))
    } else {
        Some((key, value, None, f + 1))
    }
}

impl Shard {
    /// Loads one record: a record whose expiry is not after the current
    /// second is skipped; otherwise it replaces what its key held, and a key
    /// that expires waits in the queue.
    fn restore_record(&mut self, key: Vec<u8>, value: Vec<u8>, expiry: Option<u64>, now: u64)
        requires
            old(self).wf(),
            key@.len() <= u32::MAX,
            value@.len() <= u32::MAX,
        ensures
            final(self).wf(),
            final(self)@ == (match expiry {
                    None => ShardState {
                        data: old(self)@.data.insert(key@, Stored { value: value@, expiry: None }),
                        metrics: ShardMetrics { key_count: old(self)@.data.insert(key@, Stored { value: value@, expiry: None }).dom().len() as usize, ..old(self)@.metrics },
                        ..old(self)@
                    },
                    Some(ts) => if ts <= now / 1000 {
                        old(self)@
                    } else {
                        let at = instant_of_unix_seconds(ts, now);
                        ShardState {
                            data: old(self)@.data.insert(key@, Stored { value: value@, expiry: Some(at) }),
                            queue: queue_insert(old(self)@.queue, (at, key@)),
                            metrics: ShardMetrics { key_count: old(self)@.data.insert(key@, Stored { value: value@, expiry: Some(at) }).dom().len() as usize, ..old(self)@.metrics },
                            ..old(self)@
                        }
                    },
                }),
    {
        let ghost s = self@;
        let ghost k = key@;
        let ghost v = value@;
        let at: Option<u128> = match expiry {
            Some(ts) => {
                if ts <= now / 1000 {
                    return;
                }
                Some(unix_timestamp_to_instant_at(ts, now))
            },
            None => None,
        };
        let queued_key = copy_bytes(key.as_slice());
        let entry = Entry::new_at(Value::String(value), at, now);
        self.data.insert(key, entry);
        match at {
            Some(t) => {
                proof {
                    lemma_queue_insert(s.queue, (t, k));
                }
                self.ttl_queue.push(Expiry { expiry_time: t, key: queued_key });
            },
            None => {},
        }
        self.metrics.key_count = self.data.len();
        proof {
            let t = self@;
            assert(t.data == s.data.insert(k, Stored { value: v, expiry: at }));
            assert forall|k2: Seq<u8>|
                #![trigger t.data[k2]]
                t.data.contains_key(k2) && t.data[k2].expiry is Some implies t.queue.contains((t.data[k2].expiry->0, k2)) by {
                if k2 != k {
                    assert(s.queue.contains((s.data[k2].expiry->0, k2)));
                }
            }
        }
    }
}

/// Loads a snapshot on a clock showing `now` (milliseconds since the epoch):
/// the header is checked, then the records it counts are read into a new
/// shard.
pub fn deserialize_snapshot_at(data: &[u8], now: u64) -> (r: Result<Shard, SnapshotError>)
    ensures
        load_model(&r) == spec_load(data@, now),
        r matches Ok(s) ==> s.wf(),
{
    if data.len() < HEADER_SIZE {
        return Err(SnapshotError::TooSmall);
    }
    let header = match SnapshotHeader::read(data) {
        Some(h) => h,
        None => {
            return Err(SnapshotError::TooSmall);
        },
    };
    assert(header.magic@ =~= data@.subrange(0, 4));
    if header.magic[0] != MAGIC[0] || header.magic[1] != MAGIC[1] || header.magic[2] != MAGIC[2]
        || header.magic[3] != MAGIC[3] {
        assert(data@.subrange(0, 4) != magic_seq()) by {
            if data@.subrange(0, 4) == magic_seq() {
                assert(header.magic@[0] == magic_seq()[0]);
                assert(header.magic@[1] == magic_seq()[1]);
                assert(header.magic@[2] == magic_seq()[2]);
                assert(header.magic@[3] == magic_seq()[3]);
            }
        }
        return Err(SnapshotError::InvalidMagic);
    }
    assert(data@.subrange(0, 4) =~= magic_seq());
    if header.version != VERSION {
        return Err(SnapshotError::UnsupportedVersion(header.version));
    }
    let computed_header_checksum = crc64_checksum(&data[0..56]);
    if header.header_checksum != computed_header_checksum {
        return Err(SnapshotError::HeaderChecksumMismatch);
    }
    let computed_data_checksum = crc64_checksum(&data[HEADER_SIZE..data.len()]);
    if header.data_checksum != computed_data_checksum {
        return Err(SnapshotError::DataChecksumMismatch);
    }
    let mut shard = Shard::new_at(ShardId(header.shard_id), now);
    let ghost id = header.shard_id;
    let ghost mut recs: Seq<RecordModel> = Seq::empty();
    proof {
        assert(restored(recs, now).0 =~= Map::<Seq<u8>, Stored>::empty());
        assert(shard@ == restored_state(id, recs, now));
    }
    let mut pos: usize = HEADER_SIZE;
    let mut i: u64 = 0;
    while i < header.key_count
        invariant
            shard.wf(),
            i <= header.key_count,
            records_from(data@, 64, i as nat) == Some((recs, pos as int)),
            shard@ == restored_state(id, recs, now),
            spec_load(data@, now) == match records_from(data@, 64, header.key_count as nat) {
                None => LoadModel::Truncated,
                Some((all, _)) => LoadModel::Loaded(restored_state(id, all, now)),
            },
        decreases header.key_count - i,
    {
        match read_record(data, pos) {
            None => {
                proof {
                    lemma_records_stay_short(data@, 64, (i + 1) as nat, header.key_count as nat);
                }
                return Err(SnapshotError::Io(unexpected_eof()));
            },
            Some((key, value, expiry, next)) => {
                let ghost rec = RecordModel { key: key@, value: value@, expiry };
                proof {
                    assert(key@.len() <= u32::MAX);
                    assert(value@.len() <= u32::MAX);
                }
                shard.restore_record(key, value, expiry, now);
                proof {
                    let old_recs = recs;
                    recs = recs.push(rec);
                    assert(recs.drop_last() =~= old_recs);
                }
                pos = next;
                i = i + 1;
            },
        }
    }
    Ok(shard)
}

/// Loads a snapshot on the current clock.
pub fn deserialize_snapshot(data: &[u8]) -> (r: Result<Shard, SnapshotError>)
    ensures
        exists|now: u64| load_model(&r) == spec_load(data@, now),
        r matches Ok(s) ==> s.wf(),
{
    let now = now_millis();
    deserialize_snapshot_at(data, now)
}

} // verus!
