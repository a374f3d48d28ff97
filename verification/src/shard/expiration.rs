use vstd::prelude::*;

use vstd::wrapping::u64_specs::wrapping_add;

use crate::common::constants::TTL_KEYS_PER_CHECK;
use crate::common::time::now_millis;
use crate::shard::entry::{Stored, expired_at};
use crate::shard::expiry::sorted_latest_first;
use crate::shard::shard::{covered_by, state_wf, Shard, ShardMetrics, ShardState};

verus! {

/// A sweep of the expiry queue at `now`, `count` keys deleted so far: takes
/// out the earliest key while it is due, deletes it if its entry still expires
/// at that instant (else the queued instant is stale), and stops when none is
/// due or `TTL_KEYS_PER_CHECK` keys were deleted. The data, queue and count after.
pub open spec fn spec_sweep(
    data: Map<Seq<u8>, Stored>,
    queue: Seq<(u128, Seq<u8>)>,
    now: u64,
    count: nat,
) -> (Map<Seq<u8>, Stored>, Seq<(u128, Seq<u8>)>, nat)
    decreases queue.len(),
{
    if queue.len() == 0 || queue.last().0 > now {
        (data, queue, count)
    } else {
        let (t, k) = queue.last();
        let rest = queue.drop_last();
        if data.contains_key(k) && data[k].expiry == Some(t) {
            if count + 1 >= TTL_KEYS_PER_CHECK {
                (data.remove(k), rest, count + 1)
            } else {
                spec_sweep(data.remove(k), rest, now, count + 1)
            }
        } else {
            spec_sweep(data, rest, now, count)
        }
    }
}

/// The shard after one sweep at `now`: the keys deleted are counted as expired
/// and the key count updated, when there are any; the memory count is left.
pub open spec fn spec_expire_keys(s: ShardState, now: u64) -> ShardState {
    let (data, queue, count) = spec_sweep(s.data, s.queue, now, 0);
    if count > 0 {
        ShardState {
            data,
            queue,
            metrics: ShardMetrics {
                keys_expired: wrapping_add(s.metrics.keys_expired, count as u64),
                key_count: data.dom().len() as usize,
                ..s.metrics
            },
            ..s
        }
    } else {
        ShardState { data, queue, ..s }
    }
}

/// A sweep keeps the queue in order and every expiring key in it, deletes only
/// keys due at `now`, and, unless it stopped at the limit, leaves no key due
/// in the queue.
pub proof fn lemma_sweep(data: Map<Seq<u8>, Stored>, queue: Seq<(u128, Seq<u8>)>, now: u64, count: nat)
    requires
        sorted_latest_first(queue),
        covered_by(data, queue),
        count < TTL_KEYS_PER_CHECK,
    ensures
        ({
            let (d, q, c) = spec_sweep(data, queue, now, count);
            &&& sorted_latest_first(q)
            &&& covered_by(d, q)
            &&& count <= c <= TTL_KEYS_PER_CHECK
            &&& forall|k: Seq<u8>| #[trigger] d.contains_key(k) ==> data.contains_key(k) && d[k] == data[k]
            &&& forall|k: Seq<u8>| #[trigger] data.contains_key(k) && !d.contains_key(k) ==> expired_at(data[k], now)
            &&& c < TTL_KEYS_PER_CHECK ==> (q.len() == 0 || q.last().0 > now)
            &&& d.dom().subset_of(data.dom())
            &&& c == count ==> d == data
        }),
    decreases queue.len(),
{
    if queue.len() == 0 || queue.last().0 > now {
    } else {
        let (t, k) = queue.last();
        let rest = queue.drop_last();
        assert(sorted_latest_first(rest));
        if data.contains_key(k) && data[k].expiry == Some(t) {
            let d1 = data.remove(k);
            assert(covered_by(d1, rest)) by {
                assert forall|k2: Seq<u8>|
                    #![trigger d1[k2]]
                    d1.contains_key(k2) && d1[k2].expiry is Some implies rest.contains((d1[k2].expiry->0, k2)) by {
                    let x = (d1[k2].expiry->0, k2);
                    assert(queue.contains(x));
                    let i = choose|i: int| 0 <= i < queue.len() && queue[i] == x;
                    assert(i != queue.len() - 1);
                    assert(rest[i] == x);
                }
            }
            if count + 1 < TTL_KEYS_PER_CHECK {
                lemma_sweep(d1, rest, now, count + 1);
            }
            let (d, q, c) = spec_sweep(data, queue, now, count);
            assert(c >= count + 1);
        } else {
            assert(covered_by(data, rest)) by {
                assert forall|k2: Seq<u8>|
                    #![trigger data[k2]]
                    data.contains_key(k2) && data[k2].expiry is Some implies rest.contains((data[k2].expiry->0, k2)) by {
                    let x = (data[k2].expiry->0, k2);
                    assert(queue.contains(x));
                    let i = choose|i: int| 0 <= i < queue.len() && queue[i] == x;
                    if i == queue.len() - 1 {
                        assert(x == (t, k));
                        assert(false);
                    }
                    assert(rest[i] == x);
                }
            }
            lemma_sweep(data, rest, now, count);
        }
    }
}

impl Shard {
    /// Deletes keys whose expiry is due at `now`, taking the earliest first, at
    /// most `TTL_KEYS_PER_CHECK` of them.
    pub fn expire_keys_at(&mut self, now: u64)
        requires
            old(self).wf(),
        ensures
            final(self).wf(),
            final(self)@ == spec_expire_keys(old(self)@, now),
    {
        let ghost s = self@;
        proof {
            lemma_sweep(s.data, s.queue, now, 0);
        }
        let mut expired_count: usize = 0;
        loop
            invariant_except_break
                expired_count < TTL_KEYS_PER_CHECK,
                spec_sweep(s.data, s.queue, now, 0) == spec_sweep(self@.data, self@.queue, now, expired_count as nat),
            invariant
                self.data.wf(),
                self.ttl_queue.wf(),
                self@.id == s.id,
                self@.metrics == s.metrics,
                self@.max_memory_bytes == s.max_memory_bytes,
                self@.max_keys == s.max_keys,
                expired_count <= TTL_KEYS_PER_CHECK,
                covered_by(self@.data, self@.queue),
                self@.data.dom().subset_of(s.data.dom()),
                forall|k: Seq<u8>| #[trigger] self@.data.contains_key(k) ==> self@.data[k] == s.data[k],
            ensures
                spec_sweep(s.data, s.queue, now, 0) == (self@.data, self@.queue, expired_count as nat),
            decreases self@.queue.len(),
        {
            match self.ttl_queue.peek_time() {
                None => break,
                Some(t) => {
                    if t > now as u128 {
                        break;
                    }
                },
            }
            let ghost before = self@;
            let expiry = self.ttl_queue.pop().unwrap();
            let matches = match self.data.get(expiry.key.as_slice()) {
                Some(entry) => match entry.expiry {
                    Some(t) => t == expiry.expiry_time,
                    None => false,
                },
                None => false,
            };
            if matches {
                self.data.remove(expiry.key.as_slice());
                expired_count = expiry_count_step(expired_count);
                proof {
                    lemma_step_removed(before.data, before.queue, now);
                }
                if expired_count >= TTL_KEYS_PER_CHECK {
                    break;
                }
            } else {
                proof {
                    lemma_step_stale(before.data, before.queue, now);
                }
            }
        }
        proof {
            lemma_sweep(s.data, s.queue, now, 0);
        }
        if expired_count > 0 {
            self.metrics.keys_expired = self.metrics.keys_expired.wrapping_add(expired_count as u64);
            self.metrics.key_count = self.data.len();
        }
        proof {
            self.data.lemma_ordered();
        }
    }

    /// Deletes keys whose expiry is due now, at most `TTL_KEYS_PER_CHECK` of them.
    pub fn expire_keys(&mut self)
        requires
            old(self).wf(),
        ensures
            final(self).wf(),
            exists|now: u64| final(self)@ == spec_expire_keys(old(self)@, now),
    {
        let now = now_millis();
        self.expire_keys_at(now);
    }
}

fn expiry_count_step(c: usize) -> (r: usize)
    requires
        c < TTL_KEYS_PER_CHECK,
    ensures
        r == c + 1,
{
    c + 1
}

proof fn lemma_step_removed(data: Map<Seq<u8>, Stored>, queue: Seq<(u128, Seq<u8>)>, now: u64)
    requires
        queue.len() > 0,
        queue.last().0 <= now,
        covered_by(data, queue),
        data.contains_key(queue.last().1),
        data[queue.last().1].expiry == Some(queue.last().0),
    ensures
        covered_by(data.remove(queue.last().1), queue.drop_last()),
        expired_at(data[queue.last().1], now),
{
    let k = queue.last().1;
    let d1 = data.remove(k);
    let rest = queue.drop_last();
    assert forall|k2: Seq<u8>|
        #![trigger d1[k2]]
        d1.contains_key(k2) && d1[k2].expiry is Some implies rest.contains((d1[k2].expiry->0, k2)) by {
        let x = (d1[k2].expiry->0, k2);
        assert(queue.contains(x));
        let i = choose|i: int| 0 <= i < queue.len() && queue[i] == x;
        assert(i != queue.len() - 1);
        assert(rest[i] == x);
    }
}

proof fn lemma_step_stale(data: Map<Seq<u8>, Stored>, queue: Seq<(u128, Seq<u8>)>, now: u64)
    requires
        queue.len() > 0,
        covered_by(data, queue),
        !(data.contains_key(queue.last().1) && data[queue.last().1].expiry == Some(queue.last().0)),
    ensures
        covered_by(data, queue.drop_last()),
{
    let rest = queue.drop_last();
    assert forall|k2: Seq<u8>|
        #![trigger data[k2]]
        data.contains_key(k2) && data[k2].expiry is Some implies rest.contains((data[k2].expiry->0, k2)) by {
        let x = (data[k2].expiry->0, k2);
        assert(queue.contains(x));
        let i = choose|i: int| 0 <= i < queue.len() && queue[i] == x;
        assert(i != queue.len() - 1);
        assert(rest[i] == x);
    }
}

} // verus!
