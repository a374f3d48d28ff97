use vstd::prelude::*;

use crate::common::constants::SHARD_COUNT;
use crate::common::hash::{crc16, crc16_spec};
use crate::common::shard_id::ShardId;
use crate::common::types::{copy_bytes, Key};
use crate::protocol::command::key_views;

verus! {

/// The shard of a key: its CRC-16 masked to the shard count.
pub open spec fn shard_of(key: Seq<u8>) -> u16 {
    (crc16_spec(key) % 64) as u16
}

/// The shards that the keys go to, each once, in the order the keys first
/// reach them.
pub open spec fn shards_reached(keys: Seq<Seq<u8>>) -> Seq<u16>
    decreases keys.len(),
{
    if keys.len() == 0 {
        Seq::empty()
    } else {
        let d = shards_reached(keys.drop_last());
        if d.contains(shard_of(keys.last())) {
            d
        } else {
            d.push(shard_of(keys.last()))
        }
    }
}

/// The keys that go to shard `id`, in their order.
pub open spec fn keys_for(keys: Seq<Seq<u8>>, id: u16) -> Seq<Seq<u8>>
    decreases keys.len(),
{
    if keys.len() == 0 {
        Seq::empty()
    } else {
        let rest = keys_for(keys.drop_last(), id);
        if shard_of(keys.last()) == id {
            rest.push(keys.last())
        } else {
            rest
        }
    }
}

/// How many keys the groups of the shards `ids` hold together.
pub open spec fn grouped_total(keys: Seq<Seq<u8>>, ids: Seq<u16>) -> nat
    decreases ids.len(),
{
    if ids.len() == 0 {
        0
    } else {
        grouped_total(keys, ids.drop_last()) + keys_for(keys, ids.last()).len()
    }
}

/// Sends keys to shards.
pub struct Router;

impl Router {
    /// The shard of a key.
    pub fn route_key(key: &[u8]) -> (r: ShardId)
        ensures
            r.0 == shard_of(key@),
            r.0 < SHARD_COUNT,
    {
        let hash = crc16(key);
        let shard_id = (hash as usize) & (SHARD_COUNT - 1);
        assert(((hash as usize) & 63usize) == ((hash % 64) as usize)) by (bit_vector);
        ShardId(shard_id as u16)
    }

    /// The keys grouped by shard: one group for each shard that a key goes
    /// to, in the order the keys first reach the shards, each group holding
    /// its keys in their order.
    pub fn route_keys(keys: &[Vec<u8>]) -> (r: Vec<(ShardId, Vec<Key>)>)
        ensures
            r@.len() == shards_reached(key_views(keys@)).len(),
            forall|j: int|
                0 <= j < r@.len() ==> {
                    &&& (#[trigger] r@[j]).0.0 == shards_reached(key_views(keys@))[j]
                    &&& key_views(r@[j].1@) == keys_for(key_views(keys@), r@[j].0.0)
                },
    {
        let ghost kv = key_views(keys@);
        let n = keys.len();
        let mut routes: Vec<u16> = Vec::new();
        let mut order: Vec<u16> = Vec::new();
        let mut i: usize = 0;
        while i < n
            invariant
                n == keys@.len(),
                kv == key_views(keys@),
                i <= n,
                routes@.len() == i,
                forall|m: int| 0 <= m < i ==> routes@[m] == #[trigger] shard_of(kv[m]),
                order@ == shards_reached(kv.take(i as int)),
            decreases n - i,
        {
            let id = Self::route_key(keys[i].as_slice()).0;
            routes.push(id);
            let seen = contains_id(&order, id);
            if !seen {
                order.push(id);
            }
            proof {
                assert(kv.take(i + 1).drop_last() =~= kv.take(i as int));
            }
            i = i + 1;
        }
        assert(kv.take(n as int) =~= kv);
        let mut result: Vec<(ShardId, Vec<Key>)> = Vec::new();
        let mut j: usize = 0;
        while j < order.len()
            invariant
                n == keys@.len(),
                kv == key_views(keys@),
                routes@.len() == n,
                forall|m: int| 0 <= m < n ==> routes@[m] == #[trigger] shard_of(kv[m]),
                order@ == shards_reached(kv),
                j <= order@.len(),
                result@.len() == j,
                forall|t: int|
                    0 <= t < j ==> {
                        &&& (#[trigger] result@[t]).0.0 == order@[t]
                        &&& key_views(result@[t].1@) == keys_for(kv, order@[t])
                    },
            decreases order@.len() - j,
        {
            let id = order[j];
            let mut group: Vec<Key> = Vec::new();
            let mut m: usize = 0;
            while m < n
                invariant
                    n == keys@.len(),
                    kv == key_views(keys@),
                    routes@.len() == n,
                    forall|q: int| 0 <= q < n ==> routes@[q] == #[trigger] shard_of(kv[q]),
                    m <= n,
                    key_views(group@) == keys_for(kv.take(m as int), id),
                decreases n - m,
            {
                if routes[m] == id {
                    group.push(copy_bytes(keys[m].as_slice()));
                }
                proof {
                    assert(kv.take(m + 1).drop_last() =~= kv.take(m as int));
                    assert(kv.take(m + 1).last() == kv[m as int]);
                    assert(key_views(group@) =~= keys_for(kv.take(m + 1), id));
                }
                m = m + 1;
            }
            assert(kv.take(n as int) =~= kv);
            result.push((ShardId(id), group));
            j = j + 1;
        }
        result
    }
}

/// Whether `v` holds `id`.
fn contains_id(v: &Vec<u16>, id: u16) -> (r: bool)
    ensures
        r == v@.contains(id),
{
    let mut i: usize = 0;
    while i < v.len()
        invariant
            i <= v@.len(),
            forall|m: int| 0 <= m < i ==> v@[m] != id,
        decreases v.len() - i,
    {
        if v[i] == id {
            return true;
        }
        i = i + 1;
    }
    false
}

/// Each shard is reached once: no shard heads two groups.
pub proof fn lemma_shards_reached_distinct(keys: Seq<Seq<u8>>)
    ensures
        shards_reached(keys).no_duplicates(),
    decreases keys.len(),
{
    if keys.len() > 0 {
        lemma_shards_reached_distinct(keys.drop_last());
    }
}

/// The shards reached by all keys but the last are reached by all, and so is
/// the last key's shard; nothing else is.
proof fn lemma_reached_step(keys: Seq<Seq<u8>>, x: u16)
    requires
        keys.len() > 0,
    ensures
        shards_reached(keys).contains(x) <==> (shards_reached(keys.drop_last()).contains(x) || x == shard_of(keys.last())),
{
    let d = shards_reached(keys.drop_last());
    let r = shard_of(keys.last());
    if !d.contains(r) {
        let e = d.push(r);
        assert(e[e.len() - 1] == r);
        if d.contains(x) {
            let i = choose|i: int| 0 <= i < d.len() && d[i] == x;
            assert(e[i] == x);
        }
        if e.contains(x) && x != r {
            let i = choose|i: int| 0 <= i < e.len() && e[i] == x;
            assert(d[i] == x);
        }
    }
}

/// Every key's shard is among the shards reached, and only those shards are.
pub proof fn lemma_shards_reached_members(keys: Seq<Seq<u8>>, id: u16)
    ensures
        shards_reached(keys).contains(id) <==> exists|i: int| 0 <= i < keys.len() && shard_of(#[trigger] keys[i]) == id,
    decreases keys.len(),
{
    if keys.len() > 0 {
        let d = keys.drop_last();
        lemma_shards_reached_members(d, id);
        lemma_reached_step(keys, id);
        if shards_reached(keys).contains(id) {
            if shards_reached(d).contains(id) {
                let i = choose|i: int| 0 <= i < d.len() && shard_of(#[trigger] d[i]) == id;
                assert(keys[i] == d[i]);
            } else {
                assert(shard_of(keys[keys.len() - 1]) == id);
            }
        }
        if exists|i: int| 0 <= i < keys.len() && shard_of(#[trigger] keys[i]) == id {
            let i = choose|i: int| 0 <= i < keys.len() && shard_of(#[trigger] keys[i]) == id;
            if i < keys.len() - 1 {
                assert(d[i] == keys[i]);
            }
        }
    }
}

/// A shard that no key reaches gets no keys.
proof fn lemma_unreached_empty(keys: Seq<Seq<u8>>, id: u16)
    requires
        !shards_reached(keys).contains(id),
    ensures
        keys_for(keys, id).len() == 0,
    decreases keys.len(),
{
    if keys.len() > 0 {
        lemma_reached_step(keys, id);
        lemma_unreached_empty(keys.drop_last(), id);
    }
}

/// How often `x` occurs in `ids`.
spec fn occurrences(ids: Seq<u16>, x: u16) -> nat
    decreases ids.len(),
{
    if ids.len() == 0 {
        0
    } else {
        occurrences(ids.drop_last(), x) + if ids.last() == x { 1nat } else { 0nat }
    }
}

proof fn lemma_occurrences_distinct(ids: Seq<u16>, x: u16)
    requires
        ids.no_duplicates(),
    ensures
        occurrences(ids, x) == if ids.contains(x) { 1nat } else { 0nat },
    decreases ids.len(),
{
    if ids.len() > 0 {
        let d = ids.drop_last();
        assert(d.no_duplicates());
        lemma_occurrences_distinct(d, x);
        if ids.last() == x {
            assert(!d.contains(x)) by {
                if d.contains(x) {
                    let i = choose|i: int| 0 <= i < d.len() && d[i] == x;
                    assert(ids[i] == ids[ids.len() - 1]);
                }
            }
        }
        if d.contains(x) {
            let i = choose|i: int| 0 <= i < d.len() && d[i] == x;
            assert(ids[i] == x);
        }
        if ids.contains(x) && ids.last() != x {
            let i = choose|i: int| 0 <= i < ids.len() && ids[i] == x;
            assert(d[i] == x);
        }
    }
}

/// One more key adds one to the total of each group it belongs to.
proof fn lemma_total_push(keys: Seq<Seq<u8>>, k: Seq<u8>, ids: Seq<u16>)
    ensures
        grouped_total(keys.push(k), ids) == grouped_total(keys, ids) + occurrences(ids, shard_of(k)),
    decreases ids.len(),
{
    assert(keys.push(k).drop_last() =~= keys);
    if ids.len() > 0 {
        lemma_total_push(keys, k, ids.drop_last());
    }
}

/// Grouping keeps every key: the groups together hold as many keys as were
/// given.
pub proof fn lemma_grouping_keeps_count(keys: Seq<Seq<u8>>)
    ensures
        grouped_total(keys, shards_reached(keys)) == keys.len(),
    decreases keys.len(),
{
    if keys.len() > 0 {
        let d = keys.drop_last();
        let k = keys.last();
        let r = shard_of(k);
        let ids = shards_reached(d);
        assert(keys == d.push(k));
        lemma_grouping_keeps_count(d);
        lemma_shards_reached_distinct(d);
        lemma_total_push(d, k, ids);
        lemma_occurrences_distinct(ids, r);
        if !ids.contains(r) {
            lemma_unreached_empty(d, r);
            assert(ids.push(r).drop_last() =~= ids);
        }
    }
}

/// Whether a key goes to shard `id`.
pub open spec fn on_shard(id: u16) -> spec_fn(Seq<u8>) -> bool {
    |k: Seq<u8>| shard_of(k) == id
}

/// The keys of a shard are the keys filtered by their shard, in order.
pub proof fn lemma_keys_for_is_filter(keys: Seq<Seq<u8>>, id: u16)
    ensures
        keys_for(keys, id) == keys.filter(on_shard(id)),
    decreases keys.len(),
{
    reveal(Seq::filter);
    if keys.len() > 0 {
        lemma_keys_for_is_filter(keys.drop_last(), id);
        let d = keys.drop_last().filter(on_shard(id));
        assert(keys.filter(on_shard(id)) == if on_shard(id)(keys.last()) { d.push(keys.last()) } else { d });
    } else {
        assert(keys =~= Seq::<Seq<u8>>::empty());
        assert(keys.filter(on_shard(id)) == keys);
    }
}

/// A key is among the keys of its shard.
proof fn lemma_key_in_its_group(keys: Seq<Seq<u8>>, i: int)
    requires
        0 <= i < keys.len(),
    ensures
        keys_for(keys, shard_of(keys[i])).contains(keys[i]),
    decreases keys.len(),
{
    let id = shard_of(keys[i]);
    let rest = keys_for(keys.drop_last(), id);
    if i == keys.len() - 1 {
        assert(keys_for(keys, id) == rest.push(keys[i]));
        assert(keys_for(keys, id)[rest.len() as int] == keys[i]);
    } else {
        assert(keys.drop_last()[i] == keys[i]);
        lemma_key_in_its_group(keys.drop_last(), i);
        let j = choose|j: int| 0 <= j < rest.len() && rest[j] == keys[i];
        if shard_of(keys.last()) == id {
            assert(keys_for(keys, id)[j] == keys[i]);
        }
    }
}

/// What grouping by shard gives: each shard reached heads one group; each
/// group holds exactly the keys of its shard, in their order, duplicates kept,
/// and is never empty; every key is in the group of its shard; the groups
/// together hold as many keys as were given; and no keys make no groups.
pub proof fn lemma_grouping(keys: Seq<Seq<u8>>)
    ensures
        shards_reached(keys).no_duplicates(),
        forall|j: int|
            0 <= j < shards_reached(keys).len() ==> {
                &&& keys_for(keys, #[trigger] shards_reached(keys)[j]) == keys.filter(on_shard(shards_reached(keys)[j]))
                &&& keys_for(keys, shards_reached(keys)[j]).len() > 0
            },
        forall|i: int|
            0 <= i < keys.len() ==> exists|j: int|
                0 <= j < shards_reached(keys).len() && #[trigger] shards_reached(keys)[j] == shard_of(#[trigger] keys[i])
                    && keys_for(keys, shards_reached(keys)[j]).contains(keys[i]),
        grouped_total(keys, shards_reached(keys)) == keys.len(),
        keys.len() == 0 ==> shards_reached(keys).len() == 0,
{
    let ids = shards_reached(keys);
    lemma_shards_reached_distinct(keys);
    lemma_grouping_keeps_count(keys);
    assert forall|j: int| 0 <= j < ids.len() implies {
        &&& keys_for(keys, #[trigger] ids[j]) == keys.filter(on_shard(ids[j]))
        &&& keys_for(keys, ids[j]).len() > 0
    } by {
        lemma_keys_for_is_filter(keys, ids[j]);
        lemma_shards_reached_members(keys, ids[j]);
        assert(ids.contains(ids[j]));
        let i = choose|i: int| 0 <= i < keys.len() && shard_of(#[trigger] keys[i]) == ids[j];
        lemma_key_in_its_group(keys, i);
    }
    assert forall|i: int| 0 <= i < keys.len() implies exists|j: int|
        0 <= j < ids.len() && #[trigger] ids[j] == shard_of(#[trigger] keys[i]) && keys_for(keys, ids[j]).contains(keys[i]) by {
        lemma_shards_reached_members(keys, shard_of(keys[i]));
        let j = choose|j: int| 0 <= j < ids.len() && ids[j] == shard_of(keys[i]);
        lemma_key_in_its_group(keys, i);
    }
}

} // verus!
