use vstd::prelude::*;

use crate::common::time::{instant_of_unix_seconds, unix_seconds_of};
use crate::shard::codec::{le_bytes, le_value, lemma_byte_ranges, lemma_le_roundtrip};
use crate::shard::deserialize::{record_at, records_from, restored, RecordModel};
use crate::shard::entry::Stored;
use crate::shard::format::{magic_seq, VERSION};
use crate::shard::serialize::{fresh_header_bytes, record_bytes, records_bytes, snapshot_image};

verus! {

/// The record a snapshot holds for an entry taken at `now`.
pub open spec fn record_of(key: Seq<u8>, s: Stored, now: u64) -> RecordModel {
    RecordModel {
        key,
        value: s.value,
        expiry: match s.expiry {
            Some(instant) => Some(unix_seconds_of(instant, now)),
            None => None,
        },
    }
}

/// The records a snapshot holds for the entries, in order.
pub open spec fn records_of(entries: Seq<(Seq<u8>, Stored)>, now: u64) -> Seq<RecordModel> {
    Seq::new(entries.len(), |i: int| record_of(entries[i].0, entries[i].1, now))
}

/// Whether every key and value is short enough for a 32-bit length.
pub open spec fn lengths_fit(entries: Seq<(Seq<u8>, Stored)>) -> bool {
    forall|i: int| 0 <= i < entries.len() ==> (#[trigger] entries[i]).0.len() <= u32::MAX && entries[i].1.value.len() <= u32::MAX
}

/// The record written for an entry is read back as that entry, wherever it
/// stands and whatever follows it.
pub proof fn lemma_record_roundtrip(pre: Seq<u8>, key: Seq<u8>, s: Stored, now: u64, post: Seq<u8>)
    requires
        key.len() <= u32::MAX,
        s.value.len() <= u32::MAX,
    ensures
        record_at(pre + record_bytes(key, s, now) + post, pre.len() as int) == Some(
            (record_of(key, s, now), (pre.len() + record_bytes(key, s, now).len()) as int),
        ),
{
    lemma_byte_ranges();
    lemma_le_roundtrip(key.len(), 4);
    lemma_le_roundtrip(s.value.len(), 4);
    let data = pre + record_bytes(key, s, now) + post;
    let p = pre.len() as int;
    let klen = key.len() as int;
    let vlen = s.value.len() as int;
    let k0 = p + 4;
    let v0 = k0 + klen + 4;
    let f = v0 + vlen;
    assert(data.subrange(p, k0) =~= le_bytes(key.len(), 4));
    assert(data.subrange(k0, k0 + klen) =~= key);
    assert(data.subrange(k0 + klen, v0) =~= le_bytes(s.value.len(), 4));
    assert(data.subrange(v0, v0 + vlen) =~= s.value);
    match s.expiry {
        Some(instant) => {
            let ts = unix_seconds_of(instant, now);
            lemma_le_roundtrip(ts as nat, 8);
            assert(data[f] == 1u8);
            assert(data.subrange(f + 1, f + 9) =~= le_bytes(ts as nat, 8));
        },
        None => {
            assert(data[f] == 0u8);
        },
    }
}

/// The records written for the entries are read back as the entries, in
/// order, wherever they start and whatever follows them.
pub proof fn lemma_records_roundtrip(pre: Seq<u8>, entries: Seq<(Seq<u8>, Stored)>, now: u64, post: Seq<u8>)
    requires
        lengths_fit(entries),
    ensures
        records_from(pre + records_bytes(entries, now) + post, pre.len() as int, entries.len()) == Some(
            (records_of(entries, now), (pre.len() + records_bytes(entries, now).len()) as int),
        ),
    decreases entries.len(),
{
    if entries.len() == 0 {
        assert(records_of(entries, now) =~= Seq::<RecordModel>::empty());
    } else {
        let d = entries.drop_last();
        let (k, s) = entries.last();
        assert(entries[entries.len() - 1] == entries.last());
        let rec = record_bytes(k, s, now);
        assert(lengths_fit(d)) by {
            assert forall|i: int| 0 <= i < d.len() implies (#[trigger] d[i]).0.len() <= u32::MAX && d[i].1.value.len() <= u32::MAX by {
                assert(d[i] == entries[i]);
            }
        }
        lemma_records_roundtrip(pre, d, now, rec + post);
        let data = pre + records_bytes(entries, now) + post;
        assert(pre + records_bytes(d, now) + (rec + post) =~= data);
        lemma_record_roundtrip(pre + records_bytes(d, now), k, s, now, post);
        assert(pre + records_bytes(d, now) + rec + post =~= data);
        assert(records_of(entries, now) =~= records_of(d, now).push(record_of(k, s, now)));
    }
}

/// What a snapshot holds: its header carries the magic, the version, the
/// shard, the key count and the time stamp, and after the header come the
/// records of the entries, in order, up to the end.
pub proof fn lemma_snapshot_contents(shard_id: u16, entries: Seq<(Seq<u8>, Stored)>, now: u64)
    requires
        entries.len() <= u64::MAX,
        lengths_fit(entries),
    ensures
        ({
            let image = snapshot_image(shard_id, entries, now);
            &&& image.subrange(0, 4) == magic_seq()
            &&& le_value(image.subrange(4, 8)) == VERSION
            &&& le_value(image.subrange(8, 10)) == shard_id
            &&& le_value(image.subrange(12, 20)) == entries.len()
            &&& le_value(image.subrange(20, 28)) == now / 1000
            &&& records_from(image, 64, entries.len()) == Some((records_of(entries, now), image.len() as int))
        }),
{
    lemma_byte_ranges();
    lemma_le_roundtrip(VERSION as nat, 4);
    lemma_le_roundtrip(shard_id as nat, 2);
    lemma_le_roundtrip(0, 2);
    lemma_le_roundtrip(entries.len(), 8);
    lemma_le_roundtrip((now / 1000) as nat, 8);
    lemma_le_roundtrip(0, 8);
    let body = records_bytes(entries, now);
    let head = fresh_header_bytes(shard_id, entries.len() as u64, now / 1000);
    assert(head.len() == 64);
    let pre = head + body;
    let image = snapshot_image(shard_id, entries, now);
    let dc = crate::shard::codec::crc64_ecma182(body);
    let hc = crate::shard::codec::crc64_ecma182(pre.take(56));
    lemma_le_roundtrip(dc as nat, 8);
    lemma_le_roundtrip(hc as nat, 8);
    assert(image.subrange(0, 4) =~= magic_seq());
    assert(image.subrange(4, 8) =~= le_bytes(VERSION as nat, 4));
    assert(image.subrange(8, 10) =~= le_bytes(shard_id as nat, 2));
    assert(image.subrange(12, 20) =~= le_bytes(entries.len(), 8));
    assert(image.subrange(20, 28) =~= le_bytes((now / 1000) as nat, 8));
    let patched = image.take(64);
    assert(image =~= patched + body + Seq::<u8>::empty());
    lemma_records_roundtrip(patched, entries, now, Seq::<u8>::empty());
}

/// Whether an entry comes back from a snapshot taken and loaded at `now`:
/// one that does not expire does, one that expires does only when its Unix
/// second is after the current one.
pub open spec fn survives(s: Stored, now: u64) -> bool {
    match s.expiry {
        None => true,
        Some(instant) => unix_seconds_of(instant, now) > now / 1000,
    }
}

/// What an entry comes back as: its value, and an expiry moved to the start
/// of the Unix second it fell in, counted from `now`.
pub open spec fn reloaded(s: Stored, now: u64) -> Stored {
    Stored {
        value: s.value,
        expiry: match s.expiry {
            None => None,
            Some(instant) => Some(instant_of_unix_seconds(unix_seconds_of(instant, now), now)),
        },
    }
}

/// Loading the records of entries with distinct keys gives back each entry
/// that survives, as `reloaded` says, and nothing else.
pub proof fn lemma_records_restore(entries: Seq<(Seq<u8>, Stored)>, now: u64)
    requires
        forall|i: int, j: int| 0 <= i < j < entries.len() ==> (#[trigger] entries[i]).0 != (#[trigger] entries[j]).0,
    ensures
        forall|k: Seq<u8>|
            #[trigger] restored(records_of(entries, now), now).0.contains_key(k) <==> exists|i: int|
                0 <= i < entries.len() && (#[trigger] entries[i]).0 == k && survives(entries[i].1, now),
        forall|i: int|
            0 <= i < entries.len() && survives((#[trigger] entries[i]).1, now) ==> restored(records_of(entries, now), now).0[entries[i].0]
                == reloaded(entries[i].1, now),
    decreases entries.len(),
{
    if entries.len() > 0 {
        let d = entries.drop_last();
        let n = entries.len() - 1;
        let (k, s) = entries.last();
        assert(entries[n] == entries.last());
        assert forall|i: int, j: int| 0 <= i < j < d.len() implies (#[trigger] d[i]).0 != (#[trigger] d[j]).0 by {
            assert(d[i] == entries[i] && d[j] == entries[j]);
        }
        lemma_records_restore(d, now);
        let recs = records_of(entries, now);
        assert(recs.drop_last() =~= records_of(d, now));
        assert(recs.last() == record_of(k, s, now));
        let before = restored(records_of(d, now), now).0;
        let after = restored(recs, now).0;
        assert forall|key: Seq<u8>| #[trigger] after.contains_key(key) <==> exists|i: int|
            0 <= i < entries.len() && (#[trigger] entries[i]).0 == key && survives(entries[i].1, now) by {
            if after.contains_key(key) {
                if key == k && survives(s, now) {
                    assert(entries[n].0 == key);
                } else {
                    assert(before.contains_key(key));
                    let i = choose|i: int| 0 <= i < d.len() && (#[trigger] d[i]).0 == key && survives(d[i].1, now);
                    assert(entries[i] == d[i]);
                }
            }
            if exists|i: int| 0 <= i < entries.len() && (#[trigger] entries[i]).0 == key && survives(entries[i].1, now) {
                let i = choose|i: int| 0 <= i < entries.len() && (#[trigger] entries[i]).0 == key && survives(entries[i].1, now);
                if i < n {
                    assert(d[i] == entries[i]);
                    assert(before.contains_key(key));
                }
            }
        }
        assert forall|i: int|
            0 <= i < entries.len() && survives((#[trigger] entries[i]).1, now) implies after[entries[i].0] == reloaded(entries[i].1, now) by {
            if i < n {
                assert(d[i] == entries[i]);
                assert(entries[i].0 != k);
            }
        }
    }
}

} // verus!
