use vstd::prelude::*;

use crate::common::constants::SHARD_COUNT;

verus! {

/// Index of a shard.
#[derive(Debug, Clone, Copy, PartialEq, Eq, Hash, Structural)]
pub struct ShardId(pub u16);

impl ShardId {
    /// A shard id below `SHARD_COUNT`.
    pub fn new(id: u16) -> (r: ShardId)
        requires
            id < SHARD_COUNT,
        ensures
            r.0 == id,
    {
        ShardId(id)
    }

    pub fn as_usize(&self) -> (r: usize)
        ensures
            r == self.0,
    {
        self.0 as usize
    }
}

} // verus!
