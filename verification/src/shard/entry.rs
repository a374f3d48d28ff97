use vstd::prelude::*;

use crate::common::time::now_millis;
use crate::common::types::Value;

verus! {

/// Bookkeeping kept beside a value.
pub struct Metadata {
    /// Milliseconds since the epoch when the entry was made.
    pub created_at: u64,
    pub last_accessed: u64,
    pub access_count: u64,
}

/// A stored value and when it expires.
pub struct Entry {
    pub value: Value,
    /// Milliseconds since the epoch from which on the entry is expired.
    pub expiry: Option<u128>,
    pub metadata: Metadata,
}

/// What an entry holds, as contracts see it.
pub struct Stored {
    pub value: Seq<u8>,
    pub expiry: Option<u128>,
}

/// Whether a stored value is expired at `now`.
pub open spec fn expired_at(s: Stored, now: u64) -> bool {
    match s.expiry {
        Some(exp) => now >= exp,
        None => false,
    }
}

/// The size an entry counts for in `Entry::size_bytes`: the entry itself and
/// its value's bytes.
pub open spec fn entry_footprint(value_len: nat) -> nat {
    vstd::layout::size_of::<Entry>() + value_len
}

impl Entry {
    pub open spec fn view(self) -> Stored {
        Stored { value: self.value.bytes(), expiry: self.expiry }
    }

    /// An entry made at `now`.
    pub fn new_at(value: Value, expiry: Option<u128>, now: u64) -> (r: Entry)
        ensures
            r.value == value,
            r.expiry == expiry,
            r.metadata.created_at == now,
            r.metadata.last_accessed == now,
            r.metadata.access_count == 0,
    {
        Entry { value, expiry, metadata: Metadata { created_at: now, last_accessed: now, access_count: 0 } }
    }

    /// An entry made now.
    pub fn new(value: Value, expiry: Option<u128>) -> (r: Entry)
        ensures
            r.value == value,
            r.expiry == expiry,
            r.metadata.created_at == r.metadata.last_accessed,
            r.metadata.access_count == 0,
    {
        let now = now_millis();
        Entry::new_at(value, expiry, now)
    }

    /// Whether the entry is expired at `now`.
    pub fn is_expired_at(&self, now: u64) -> (r: bool)
        ensures
            r == expired_at(self.view(), now),
    {
        match self.expiry {
            Some(exp) => now as u128 >= exp,
            None => false,
        }
    }

    /// Whether the entry is expired now.
    pub fn is_expired(&self) -> (r: bool)
        ensures
            exists|now: u64| r == expired_at(self.view(), now),
    {
        let now = now_millis();
        self.is_expired_at(now)
    }

    /// The entry's size in bytes: the entry itself and its value's bytes.
    pub fn size_bytes(&self) -> (r: usize)
        requires
            entry_footprint(self.value.bytes().len()) <= usize::MAX,
        ensures
            r == entry_footprint(self.value.bytes().len()),
    {
        let base = core::mem::size_of::<Entry>();
        let value_size = self.value.size_bytes();
        base + value_size
    }
}

} // verus!
