use vstd::prelude::*;

use crate::common::text::push_bytes;
use crate::common::time::{instant_to_unix_timestamp_at, now_millis, unix_seconds_of};
use crate::shard::codec::{
    crc64_checksum, crc64_ecma182, le_bytes, le_u32_bytes, le_u64_bytes, lemma_byte_ranges,
    lemma_le_roundtrip, push_array,
};
use crate::shard::entry::Stored;
use crate::shard::format::{magic_seq, SnapshotHeader, HEADER_SIZE, VERSION};
use crate::shard::shard::Shard;

verus! {

/// The bytes a snapshot stores for one entry: the key's length and the key,
/// the value's length and the value, then `1` and the Unix seconds at which it
/// expires (read on a clock showing `now`), or `0` when it does not expire.
pub open spec fn record_bytes(key: Seq<u8>, s: Stored, now: u64) -> Seq<u8> {
    le_bytes(key.len(), 4) + key + le_bytes(s.value.len(), 4) + s.value + match s.expiry {
        Some(instant) => seq![1u8] + le_bytes(unix_seconds_of(instant, now) as nat, 8),
        None => seq![0u8],
    }
}

/// The records of the entries, one after the other in the given order.
pub open spec fn records_bytes(entries: Seq<(Seq<u8>, Stored)>, now: u64) -> Seq<u8>
    decreases entries.len(),
{
    if entries.len() == 0 {
        Seq::empty()
    } else {
        records_bytes(entries.drop_last(), now) + record_bytes(entries.last().0, entries.last().1, now)
    }
}

/// The bytes of a fresh header: magic, version, shard, key count and time
/// stamp, with zero checksums and zero reserved bytes.
pub open spec fn fresh_header_bytes(shard_id: u16, key_count: u64, timestamp: u64) -> Seq<u8> {
    magic_seq() + le_bytes(VERSION as nat, 4) + le_bytes(shard_id as nat, 2) + le_bytes(0, 2)
        + le_bytes(key_count as nat, 8) + le_bytes(timestamp as nat, 8) + le_bytes(0, 8)
        + le_bytes(0, 8) + Seq::new(20, |i: int| 0u8)
}

/// The snapshot of a shard's entries taken at `now` (milliseconds): a fresh
/// header and the records; then the CRC-64 of the records and the CRC-64 of
/// the first 56 bytes (taken before either checksum is in place) are written
/// as eight little-endian bytes each at offsets 32 and 40. The loader reads the
/// checksums at offsets 28 and 36, so a snapshot written here is refused when
/// it is loaded (its header checksum does not match).
pub open spec fn snapshot_image(shard_id: u16, entries: Seq<(Seq<u8>, Stored)>, now: u64) -> Seq<u8> {
    let body = records_bytes(entries, now);
    let pre = fresh_header_bytes(shard_id, entries.len() as u64, now / 1000) + body;
    let data_checksum = crc64_ecma182(body);
    let header_checksum = crc64_ecma182(pre.take(56));
    pre.take(32) + le_bytes(data_checksum as nat, 8) + le_bytes(header_checksum as nat, 8) + pre.skip(48)
}

/// A fresh header writes the bytes of `fresh_header_bytes`.
proof fn lemma_fresh_header_bytes(h: SnapshotHeader, shard_id: u16, key_count: u64, timestamp: u64)
    requires
        h.is_fresh(shard_id, key_count, timestamp),
    ensures
        h.bytes() == fresh_header_bytes(shard_id, key_count, timestamp),
{
    assert(h.bytes() =~= fresh_header_bytes(shard_id, key_count, timestamp));
}

/// The capacity to reserve for a snapshot: the header and a guess of 129
/// bytes per entry; none when that does not fit in `usize`.
fn estimate_snapshot_size(shard: &Shard) -> (r: Option<usize>)
    requires
        shard.wf(),
    ensures
        match r {
            Some(n) => n == HEADER_SIZE + shard@.data.dom().len() * 129,
            None => HEADER_SIZE + shard@.data.dom().len() * 129 > usize::MAX,
        },
{
    let avg_key_size: usize = 20;
    let avg_value_size: usize = 100;
    let entry_overhead: usize = 9;
    let per_entry: usize = avg_key_size + avg_value_size + entry_overhead;
    match shard.data.len().checked_mul(per_entry) {
        Some(body) => body.checked_add(HEADER_SIZE),
        None => None,
    }
}

/// Appends the record of one entry.
fn push_record(buf: &mut Vec<u8>, key: &[u8], s: &crate::shard::entry::Entry, now: u64)
    requires
        key@.len() <= u32::MAX,
        s.value.bytes().len() <= u32::MAX,
    ensures
        final(buf)@ == old(buf)@ + record_bytes(key@, s.view(), now),
{
    let ghost start = buf@;
    let value = s.value.as_bytes();
    push_array(buf, &le_u32_bytes(key.len() as u32));
    push_bytes(buf, key);
    push_array(buf, &le_u32_bytes(value.len() as u32));
    push_bytes(buf, value);
    match s.expiry {
        Some(instant) => {
            buf.push(1u8);
            push_array(buf, &le_u64_bytes(instant_to_unix_timestamp_at(instant, now)));
        },
        None => {
            buf.push(0u8);
        },
    }
    assert(buf@ =~= start + record_bytes(key@, s.view(), now));
}

/// Puts the eight little-endian bytes of `n` at `pos`.
fn put_u64_at(buf: &mut Vec<u8>, pos: usize, n: u64)
    requires
        pos + 8 <= old(buf)@.len(),
    ensures
        final(buf)@ == old(buf)@.take(pos as int) + le_bytes(n as nat, 8) + old(buf)@.skip(pos + 8),
{
    let b = le_u64_bytes(n);
    proof {
        lemma_byte_ranges();
        lemma_le_roundtrip(n as nat, 8);
    }
    let len = buf.len();
    assert(pos + 8 <= len);
    let mut j: usize = 0;
    while j < 8
        invariant
            j <= 8,
            pos + 8 <= usize::MAX,
            b@.len() == 8,
            pos + 8 <= old(buf)@.len(),
            buf@.len() == old(buf)@.len(),
            forall|k: int|
                0 <= k < buf@.len() ==> #[trigger] buf@[k] == if pos <= k < pos + j {
                    b@[k - pos]
                } else {
                    old(buf)@[k]
                },
        decreases 8 - j,
    {
        buf.set(pos + j, b[j]);
        j = j + 1;
    }
    assert(buf@ =~= old(buf)@.take(pos as int) + le_bytes(n as nat, 8) + old(buf)@.skip(pos + 8));
}

/// The snapshot of a shard taken on a clock showing `now` (milliseconds since
/// the epoch): entries in the table's order.
pub fn serialize_shard_at(shard: &Shard, now: u64) -> (r: Vec<u8>)
    requires
        shard.wf(),
    ensures
        r@ == snapshot_image(shard.id.0, shard.data.ordered(), now),
{
    let mut buf: Vec<u8> = match estimate_snapshot_size(shard) {
        Some(n) => Vec::with_capacity(n),
        None => Vec::new(),
    };
    let count = shard.data.len();
    proof {
        shard.data.lemma_ordered();
    }
    let header = SnapshotHeader::new_at(shard.id.0, count as u64, now);
    header.write(&mut buf);
    proof {
        lemma_fresh_header_bytes(header, shard.id.0, count as u64, now / 1000);
    }
    let ghost entries = shard.data.ordered();
    let ghost head = buf@;
    let mut i: usize = 0;
    while i < count
        invariant
            shard.wf(),
            count == entries.len(),
            entries == shard.data.ordered(),
            i <= count,
            head.len() == HEADER_SIZE,
            buf@ == head + records_bytes(entries.take(i as int), now),
        decreases count - i,
    {
        let (key, entry) = shard.data.entry_at(i);
        proof {
            shard.data.lemma_ordered();
            assert(shard@.data.contains_key(entries[i as int].0));
        }
        push_record(&mut buf, key.as_slice(), entry, now);
        proof {
            assert(entries.take(i + 1).drop_last() =~= entries.take(i as int));
        }
        i = i + 1;
    }
    assert(entries.take(count as int) =~= entries);
    let ghost pre = buf@;
    let len = buf.len();
    let data_checksum = crc64_checksum(&buf.as_slice()[HEADER_SIZE..len]);
    let header_checksum = crc64_checksum(&buf.as_slice()[0..56]);
    proof {
        assert(pre.subrange(HEADER_SIZE as int, len as int) =~= records_bytes(entries, now));
        assert(pre.subrange(0, 56) =~= pre.take(56));
    }
    proof {
        lemma_byte_ranges();
        lemma_le_roundtrip(data_checksum as nat, 8);
        lemma_le_roundtrip(header_checksum as nat, 8);
        assert(pre =~= fresh_header_bytes(shard.id.0, entries.len() as u64, now / 1000) + records_bytes(entries, now));
    }
    put_u64_at(&mut buf, 32, data_checksum);
    let ghost once = buf@;
    put_u64_at(&mut buf, 40, header_checksum);
    proof {
        let image = snapshot_image(shard.id.0, entries, now);
        assert(once.take(40) =~= pre.take(32) + le_bytes(data_checksum as nat, 8));
        assert(once.skip(48) =~= pre.skip(48));
        assert(buf@ =~= image);
    }
    buf
}

/// The snapshot of a shard, taken now.
pub fn serialize_shard(shard: &Shard) -> (r: Vec<u8>)
    requires
        shard.wf(),
    ensures
        exists|now: u64| r@ == snapshot_image(shard.id.0, shard.data.ordered(), now),
{
    let now = now_millis();
    serialize_shard_at(shard, now)
}

} // verus!
