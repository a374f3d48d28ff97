use vstd::prelude::*;

use crate::common::time::now_millis;
use crate::shard::codec::{
    le_bytes, le_u16_at, le_u16_bytes, le_u32_at, le_u32_bytes, le_u64_at,
    le_u64_bytes, le_value, lemma_byte_ranges, lemma_le_roundtrip, push_array,
};

verus! {

/// The four bytes a snapshot starts with: `RSDF`.
pub const MAGIC: [u8; 4] = [0x52u8, 0x53u8, 0x44u8, 0x46u8];

/// The snapshot format version this library reads and writes.
pub const VERSION: u32 = 1;

/// Bytes in a snapshot header.
pub const HEADER_SIZE: usize = 64;

/// The magic bytes as a sequence.
pub open spec fn magic_seq() -> Seq<u8> {
    seq![0x52u8, 0x53u8, 0x44u8, 0x46u8]
}

/// The fixed 64-byte header at the start of a snapshot.
pub struct SnapshotHeader {
    pub magic: [u8; 4],
    pub version: u32,
    pub shard_id: u16,
    pub reserved1: u16,
    pub key_count: u64,
    /// Seconds since the Unix epoch when the snapshot was made.
    pub timestamp: u64,
    pub data_checksum: u64,
    pub header_checksum: u64,
    pub reserved2: [u8; 20],
}

impl SnapshotHeader {
    /// The header's bytes: each field in order, integers little-endian.
    pub open spec fn bytes(self) -> Seq<u8> {
        self.magic@ + le_bytes(self.version as nat, 4) + le_bytes(self.shard_id as nat, 2)
            + le_bytes(self.reserved1 as nat, 2) + le_bytes(self.key_count as nat, 8)
            + le_bytes(self.timestamp as nat, 8) + le_bytes(self.data_checksum as nat, 8)
            + le_bytes(self.header_checksum as nat, 8) + self.reserved2@
    }

    /// Whether `self` is the header that the first 64 bytes of `s` hold.
    pub open spec fn read_from(self, s: Seq<u8>) -> bool {
        &&& s.len() >= 64
        &&& self.magic@ == s.subrange(0, 4)
        &&& self.version as nat == le_value(s.subrange(4, 8))
        &&& self.shard_id as nat == le_value(s.subrange(8, 10))
        &&& self.reserved1 as nat == le_value(s.subrange(10, 12))
        &&& self.key_count as nat == le_value(s.subrange(12, 20))
        &&& self.timestamp as nat == le_value(s.subrange(20, 28))
        &&& self.data_checksum as nat == le_value(s.subrange(28, 36))
        &&& self.header_checksum as nat == le_value(s.subrange(36, 44))
        &&& self.reserved2@ == s.subrange(44, 64)
    }

    /// Whether `self` is a fresh header for `key_count` keys of shard
    /// `shard_id`, stamped with `timestamp`: checksums and reserved bytes zero.
    pub open spec fn is_fresh(self, shard_id: u16, key_count: u64, timestamp: u64) -> bool {
        &&& self.magic@ == magic_seq()
        &&& self.version == VERSION
        &&& self.shard_id == shard_id
        &&& self.reserved1 == 0
        &&& self.key_count == key_count
        &&& self.timestamp == timestamp
        &&& self.data_checksum == 0
        &&& self.header_checksum == 0
        &&& self.reserved2@ == Seq::new(20, |i: int| 0u8)
    }

    /// A header for `key_count` keys of a shard, stamped with the clock reading
    /// `now` (milliseconds) in whole seconds.
    pub fn new_at(shard_id: u16, key_count: u64, now: u64) -> (r: Self)
        ensures
            r.is_fresh(shard_id, key_count, now / 1000),
    {
        let r = SnapshotHeader {
            magic: MAGIC,
            version: VERSION,
            shard_id,
            reserved1: 0,
            key_count,
            timestamp: now / 1000,
            data_checksum: 0,
            header_checksum: 0,
            reserved2: [0u8; 20],
        };
        assert(r.magic@ =~= magic_seq());
        assert(r.reserved2@ =~= Seq::new(20, |i: int| 0u8));
        r
    }

    /// A header for `key_count` keys of a shard, stamped with the current time.
    pub fn new(shard_id: u16, key_count: u64) -> (r: Self)
        ensures
            exists|t: u64| r.is_fresh(shard_id, key_count, t),
    {
        let now = now_millis();
        SnapshotHeader::new_at(shard_id, key_count, now)
    }

    /// Appends the header's 64 bytes.
    pub fn write(&self, buf: &mut Vec<u8>)
        ensures
            final(buf)@ == old(buf)@ + self.bytes(),
            self.bytes().len() == HEADER_SIZE,
    {
        proof {
            lemma_header_len(*self);
        }
        push_array(buf, &self.magic);
        push_array(buf, &le_u32_bytes(self.version));
        push_array(buf, &le_u16_bytes(self.shard_id));
        push_array(buf, &le_u16_bytes(self.reserved1));
        push_array(buf, &le_u64_bytes(self.key_count));
        push_array(buf, &le_u64_bytes(self.timestamp));
        push_array(buf, &le_u64_bytes(self.data_checksum));
        push_array(buf, &le_u64_bytes(self.header_checksum));
        push_array(buf, &self.reserved2);
        assert(buf@ =~= old(buf)@ + self.bytes());
    }

    /// The header at the start of `data`; none when fewer than 64 bytes are there.
    pub fn read(data: &[u8]) -> (r: Option<Self>)
        ensures
            r is Some <==> data@.len() >= HEADER_SIZE,
            r matches Some(h) ==> h.read_from(data@),
    {
        if data.len() < HEADER_SIZE {
            return None;
        }
        let magic: [u8; 4] = [data[0], data[1], data[2], data[3]];
        let version = le_u32_at(data, 4);
        let shard_id = le_u16_at(data, 8);
        let reserved1 = le_u16_at(data, 10);
        let key_count = le_u64_at(data, 12);
        let timestamp = le_u64_at(data, 20);
        let data_checksum = le_u64_at(data, 28);
        let header_checksum = le_u64_at(data, 36);
        let mut reserved2 = [0u8; 20];
        let mut i: usize = 0;
        while i < 20
            invariant
                i <= 20,
                data@.len() >= 64,
                forall|j: int| 0 <= j < i ==> reserved2@[j] == data@[44 + j],
            decreases 20 - i,
        {
            reserved2[i] = data[44 + i];
            i = i + 1;
        }
        let h = SnapshotHeader {
            magic,
            version,
            shard_id,
            reserved1,
            key_count,
            timestamp,
            data_checksum,
            header_checksum,
            reserved2,
        };
        assert(h.magic@ =~= data@.subrange(0, 4));
        assert(h.reserved2@ =~= data@.subrange(44, 64));
        Some(h)
    }
}

/// A header's bytes are 64 long, each field where `read_from` looks for it.
pub proof fn lemma_header_len(h: SnapshotHeader)
    ensures
        h.bytes().len() == 64,
{
    lemma_byte_ranges();
    lemma_le_roundtrip(h.version as nat, 4);
    lemma_le_roundtrip(h.shard_id as nat, 2);
    lemma_le_roundtrip(h.reserved1 as nat, 2);
    lemma_le_roundtrip(h.key_count as nat, 8);
    lemma_le_roundtrip(h.timestamp as nat, 8);
    lemma_le_roundtrip(h.data_checksum as nat, 8);
    lemma_le_roundtrip(h.header_checksum as nat, 8);
}

/// Reading back the bytes a header writes gives the same header: each field
/// is found where `write` put it, and no other header is read from them.
pub proof fn lemma_header_roundtrip(h: SnapshotHeader)
    ensures
        h.read_from(h.bytes()),
        forall|other: SnapshotHeader| #[trigger] other.read_from(h.bytes()) ==> other == h,
{
    lemma_byte_ranges();
    lemma_le_roundtrip(h.version as nat, 4);
    lemma_le_roundtrip(h.shard_id as nat, 2);
    lemma_le_roundtrip(h.reserved1 as nat, 2);
    lemma_le_roundtrip(h.key_count as nat, 8);
    lemma_le_roundtrip(h.timestamp as nat, 8);
    lemma_le_roundtrip(h.data_checksum as nat, 8);
    lemma_le_roundtrip(h.header_checksum as nat, 8);
    let s = h.bytes();
    let a = h.magic@;
    let b = le_bytes(h.version as nat, 4);
    let c = le_bytes(h.shard_id as nat, 2);
    let d = le_bytes(h.reserved1 as nat, 2);
    let e = le_bytes(h.key_count as nat, 8);
    let f = le_bytes(h.timestamp as nat, 8);
    let g = le_bytes(h.data_checksum as nat, 8);
    let k = le_bytes(h.header_checksum as nat, 8);
    assert(s.subrange(0, 4) =~= a);
    assert(s.subrange(4, 8) =~= b);
    assert(s.subrange(8, 10) =~= c);
    assert(s.subrange(10, 12) =~= d);
    assert(s.subrange(12, 20) =~= e);
    assert(s.subrange(20, 28) =~= f);
    assert(s.subrange(28, 36) =~= g);
    assert(s.subrange(36, 44) =~= k);
    assert(s.subrange(44, 64) =~= h.reserved2@);
    assert forall|other: SnapshotHeader| #[trigger] other.read_from(h.bytes()) implies other == h by {
        lemma_header_read_unique(other, h, s);
    }
}

/// Two headers read from the same bytes are the same header.
proof fn lemma_header_read_unique(h1: SnapshotHeader, h2: SnapshotHeader, s: Seq<u8>)
    requires
        h1.read_from(s),
        h2.read_from(s),
    ensures
        h1 == h2,
{
    assert(h1.magic@ =~= h2.magic@);
    assert(h1.reserved2@ =~= h2.reserved2@);
    vstd::array::axiom_array_ext_equal(h1.magic, h2.magic);
    vstd::array::axiom_array_ext_equal(h1.reserved2, h2.reserved2);
}

} // verus!
