pub mod common;
pub mod frontend;
pub mod observability;
pub mod protocol;
pub mod server;
pub mod shard;

use vstd::prelude::*;

verus! {

/// Sum of two numbers that does not overflow.
pub fn add(left: u64, right: u64) -> (r: u64)
    requires
        left + right <= u64::MAX,
    ensures
        r == left + right,
{
    left + right
}

} // verus!
