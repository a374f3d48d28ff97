use vstd::prelude::*;

use crate::common::text::{ascii_chars, decimal_digits, push_decimal_chars, push_text, text};

verus! {

/// A shard still loading.
pub const SHARD_INITIALIZING: u8 = 0;

/// A shard that serves commands.
pub const SHARD_READY: u8 = 1;

/// A shard that stopped.
pub const SHARD_FAILED: u8 = 2;

/// The first index whose status is `wanted` (or, when `equal` is false, is
/// not), if any.
pub open spec fn first_where(status: Seq<u8>, wanted: u8, equal: bool) -> Option<int>
    decreases status.len(),
{
    if status.len() == 0 {
        None
    } else {
        match first_where(status.drop_last(), wanted, equal) {
            Some(i) => Some(i),
            None => if (status.last() == wanted) == equal {
                Some(status.len() - 1)
            } else {
                None
            },
        }
    }
}

/// What the health check answers: the first failed shard, or OK.
pub open spec fn health_text(status: Seq<u8>) -> Seq<char> {
    match first_where(status, SHARD_FAILED, true) {
        Some(i) => "ERR shard "@ + ascii_chars(decimal_digits(i as nat)) + " failed"@,
        None => "OK"@,
    }
}

/// What the readiness check answers: still loading snapshots, the first shard
/// not ready, or READY.
pub open spec fn readiness_text(snapshots_loaded: bool, status: Seq<u8>) -> Seq<char> {
    if !snapshots_loaded {
        "ERR loading snapshots"@
    } else {
        match first_where(status, SHARD_READY, false) {
            Some(i) => "ERR shard "@ + ascii_chars(decimal_digits(i as nat)) + " not ready"@,
            None => "READY"@,
        }
    }
}

/// The first index whose status is (or, when `equal` is false, is not) `wanted`.
fn find_status(status: &[u8], wanted: u8, equal: bool) -> (r: Option<usize>)
    ensures
        match r {
            Some(i) => first_where(status@, wanted, equal) == Some(i as int),
            None => first_where(status@, wanted, equal) is None,
        },
{
    let mut i: usize = 0;
    while i < status.len()
        invariant
            i <= status@.len(),
            first_where(status@.take(i as int), wanted, equal) is None,
        decreases status.len() - i,
    {
        proof {
            assert(status@.take(i + 1).drop_last() =~= status@.take(i as int));
        }
        if (status[i] == wanted) == equal {
            proof {
                lemma_first_where_extend(status@, wanted, equal, i as int);
            }
            return Some(i);
        }
        i = i + 1;
    }
    assert(status@.take(status@.len() as int) =~= status@);
    None
}

/// A match found right after a stretch without one is the first.
proof fn lemma_first_where_extend(s: Seq<u8>, wanted: u8, equal: bool, i: int)
    requires
        0 <= i < s.len(),
        first_where(s.take(i), wanted, equal) is None,
        (s[i] == wanted) == equal,
    ensures
        first_where(s, wanted, equal) == Some(i),
    decreases s.len(),
{
    if i < s.len() - 1 {
        let d = s.drop_last();
        assert(d.take(i) =~= s.take(i));
        lemma_first_where_extend(d, wanted, equal, i);
    } else {
        assert(s.drop_last() =~= s.take(i));
    }
}

/// The health check: `ERR shard <i> failed` for the first failed shard, else
/// `OK`.
pub fn health_check_handler(shard_status: &[u8]) -> (r: String)
    ensures
        r@ == health_text(shard_status@),
{
    match find_status(shard_status, SHARD_FAILED, true) {
        Some(i) => {
            let mut msg = text("ERR shard ");
            push_decimal_chars(&mut msg, i as u64);
            push_text(&mut msg, " failed");
            msg
        },
        None => {
            text("OK")
        },
    }
}

/// The readiness check: `ERR loading snapshots` until the snapshots are
/// loaded, then `ERR shard <i> not ready` for the first shard not ready, else
/// `READY`.
pub fn readiness_check_handler(snapshots_loaded: bool, shard_status: &[u8]) -> (r: String)
    ensures
        r@ == readiness_text(snapshots_loaded, shard_status@),
{
    if !snapshots_loaded {
        return text("ERR loading snapshots");
    }
    match find_status(shard_status, SHARD_READY, false) {
        Some(i) => {
            let mut msg = text("ERR shard ");
            push_decimal_chars(&mut msg, i as u64);
            push_text(&mut msg, " not ready");
            msg
        },
        None => text("READY"),
    }
}

/// Whether index `i` is the first whose status matches.
pub open spec fn first_match_at(status: Seq<u8>, wanted: u8, equal: bool, i: int) -> bool {
    &&& 0 <= i < status.len()
    &&& (status[i] == wanted) == equal
    &&& forall|j: int| 0 <= j < i ==> (#[trigger] status[j] == wanted) != equal
}

/// Whether no status matches.
pub open spec fn none_match(status: Seq<u8>, wanted: u8, equal: bool) -> bool {
    forall|i: int| 0 <= i < status.len() ==> (#[trigger] status[i] == wanted) != equal
}

/// `first_where` finds the first index whose status matches, and nothing
/// when none does.
proof fn lemma_first_where(status: Seq<u8>, wanted: u8, equal: bool)
    ensures
        first_where(status, wanted, equal) is None <==> none_match(status, wanted, equal),
        first_where(status, wanted, equal) matches Some(i) ==> first_match_at(status, wanted, equal, i),
    decreases status.len(),
{
    if status.len() > 0 {
        let d = status.drop_last();
        let n = status.len() - 1;
        lemma_first_where(d, wanted, equal);
        assert forall|i: int| 0 <= i < d.len() implies d[i] == status[i] by {}
        match first_where(d, wanted, equal) {
            Some(i) => {
                assert(status[i] == d[i]);
                assert(!none_match(status, wanted, equal));
            },
            None => {
                if (status[n] == wanted) == equal {
                    assert(!none_match(status, wanted, equal));
                } else {
                    assert forall|i: int| 0 <= i < status.len() implies (#[trigger] status[i] == wanted) != equal by {
                        if i < n {
                            assert(d[i] == status[i]);
                        }
                    }
                }
            },
        }
    }
}

/// Only one index is the first that matches.
proof fn lemma_first_match_unique(status: Seq<u8>, wanted: u8, equal: bool, i: int, k: int)
    requires
        first_match_at(status, wanted, equal, i),
        first_match_at(status, wanted, equal, k),
    ensures
        i == k,
{
    if i < k {
        assert((status[i] == wanted) != equal);
    } else if k < i {
        assert((status[k] == wanted) != equal);
    }
}

/// The readiness check answers READY exactly when the snapshots are loaded
/// and every shard is ready; while loading it says so; otherwise it names
/// the first shard that is not ready.
pub proof fn lemma_readiness(loaded: bool, status: Seq<u8>)
    ensures
        readiness_text(loaded, status) == "READY"@ <==> (loaded && forall|i: int|
            0 <= i < status.len() ==> #[trigger] status[i] == SHARD_READY),
        !loaded ==> readiness_text(loaded, status) == "ERR loading snapshots"@,
        forall|i: int|
            loaded && 0 <= i < status.len() && status[i] != SHARD_READY && (forall|j: int| 0 <= j < i ==> #[trigger] status[j] == SHARD_READY)
                ==> readiness_text(loaded, status) == "ERR shard "@ + ascii_chars(decimal_digits(i as nat)) + " not ready"@,
{
    lemma_first_where(status, SHARD_READY, false);
    assert forall|i: int|
        loaded && 0 <= i < status.len() && status[i] != SHARD_READY && (forall|j: int| 0 <= j < i ==> #[trigger] status[j] == SHARD_READY)
            implies first_where(status, SHARD_READY, false) == Some(i) by {
        assert(first_match_at(status, SHARD_READY, false, i));
        assert(!none_match(status, SHARD_READY, false));
        let k = first_where(status, SHARD_READY, false)->0;
        lemma_first_match_unique(status, SHARD_READY, false, i, k);
    }
    reveal_strlit("READY");
    reveal_strlit("ERR loading snapshots");
    reveal_strlit("ERR shard ");
    assert("READY"@[0] == 'R');
    assert("ERR loading snapshots"@[0] == 'E');
    assert("ERR shard "@[0] == 'E');
    if let Some(i) = first_where(status, SHARD_READY, false) {
        let t = "ERR shard "@ + ascii_chars(decimal_digits(i as nat)) + " not ready"@;
        assert(t[0] == 'E');
    }
}

/// The health check answers OK exactly when no shard failed; otherwise it
/// names the first shard that failed.
pub proof fn lemma_health(status: Seq<u8>)
    ensures
        health_text(status) == "OK"@ <==> forall|i: int| 0 <= i < status.len() ==> #[trigger] status[i] != SHARD_FAILED,
        forall|i: int|
            0 <= i < status.len() && status[i] == SHARD_FAILED && (forall|j: int| 0 <= j < i ==> #[trigger] status[j] != SHARD_FAILED)
                ==> health_text(status) == "ERR shard "@ + ascii_chars(decimal_digits(i as nat)) + " failed"@,
{
    lemma_first_where(status, SHARD_FAILED, true);
    assert forall|i: int|
        0 <= i < status.len() && status[i] == SHARD_FAILED && (forall|j: int| 0 <= j < i ==> #[trigger] status[j] != SHARD_FAILED)
            implies first_where(status, SHARD_FAILED, true) == Some(i) by {
        assert(first_match_at(status, SHARD_FAILED, true, i));
        assert(!none_match(status, SHARD_FAILED, true));
        let k = first_where(status, SHARD_FAILED, true)->0;
        lemma_first_match_unique(status, SHARD_FAILED, true, i, k);
    }
    reveal_strlit("OK");
    reveal_strlit("ERR shard ");
    assert("OK"@[0] == 'O');
    assert("ERR shard "@[0] == 'E');
    if let Some(i) = first_where(status, SHARD_FAILED, true) {
        let t = "ERR shard "@ + ascii_chars(decimal_digits(i as nat)) + " failed"@;
        assert(t[0] == 'E');
    }
}

} // verus!
