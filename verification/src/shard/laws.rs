use vstd::prelude::*;

use crate::common::constants::TTL_KEYS_PER_CHECK;
use crate::protocol::command::CommandModel;
use crate::protocol::response::ResponseModel;
use crate::shard::entry::expired_at;
use vstd::wrapping::u64_specs::wrapping_sub;
use crate::shard::expiration::{lemma_sweep, spec_expire_keys, spec_sweep};
use crate::shard::expiry::sorted_latest_first;
use crate::shard::entry::Stored;
use crate::common::constants::{MAX_KEYS_PER_SHARD, MAX_MEMORY_PER_SHARD};
use crate::common::shard_id::ShardId;
use crate::shard::shard::{
    admissible, after_remove, deadline, spec_apply, size_in_memory, spec_del, spec_execute, state_wf, ShardMetrics, ShardState,
};

verus! {

/// A read gives back what a write wrote: after a SET that succeeded, GET of
/// the key, at any instant before the expiry that the SET gave it, answers the
/// value written.
pub proof fn lemma_get_after_set(
    s: ShardState,
    key: Seq<u8>,
    value: Seq<u8>,
    ttl: Option<u64>,
    now: u64,
    later: u64,
)
    requires
        spec_execute(s, CommandModel::SetKey(key, value, ttl), now).1 == ResponseModel::Okay,
        ttl matches Some(secs) ==> later < deadline(now, secs),
    ensures
        spec_execute(spec_execute(s, CommandModel::SetKey(key, value, ttl), now).0, CommandModel::Get(key), later).1
            == ResponseModel::Value(Some(value)),
{
}

/// A write that is refused changes nothing but the count of commands.
pub proof fn lemma_refused_set_changes_nothing(
    s: ShardState,
    key: Seq<u8>,
    value: Seq<u8>,
    ttl: Option<u64>,
    now: u64,
)
    requires
        spec_execute(s, CommandModel::SetKey(key, value, ttl), now).1 is Error,
    ensures
        ({
            let t = spec_execute(s, CommandModel::SetKey(key, value, ttl), now).0;
            &&& t.data == s.data
            &&& t.queue == s.queue
            &&& t.metrics.memory_bytes == s.metrics.memory_bytes
            &&& t.metrics.key_count == s.metrics.key_count
        }),
{
}

/// After DEL none of its keys is left, every other key is as it was, and the
/// answer is how many keys went.
pub proof fn lemma_del(s: ShardState, keys: Seq<Seq<u8>>)
    requires
        state_wf(s),
    ensures
        ({
            let (t, n) = spec_del(s, keys);
            &&& t.data == s.data.remove_keys(keys.to_set())
            &&& t.data.dom().finite()
            &&& n == s.data.dom().len() - t.data.dom().len()
            &&& state_wf(t)
        }),
    decreases keys.len(),
{
    if keys.len() == 0 {
        assert(s.data.remove_keys(keys.to_set()) =~= s.data);
    } else {
        let k = keys[0];
        let s1 = crate::shard::shard::after_remove(s, k);
        assert(state_wf(s1)) by {
            if s.data.contains_key(k) {
                assert forall|k2: Seq<u8>|
                    #![trigger s1.data[k2]]
                    s1.data.contains_key(k2) && s1.data[k2].expiry is Some implies s1.queue.contains(
                        (s1.data[k2].expiry->0, k2),
                    ) by {
                    assert(s.data.contains_key(k2));
                }
            }
        }
        lemma_del(s1, keys.drop_first());
        let (t, n) = spec_del(s, keys);
        assert(keys.to_set() =~= keys.drop_first().to_set().insert(k)) by {
            assert forall|x: Seq<u8>| keys.to_set().contains(x) implies keys.drop_first().to_set().insert(x).contains(x) by {}
            assert forall|x: Seq<u8>| #[trigger] keys.to_set().contains(x) <==> keys.drop_first().to_set().insert(k).contains(x) by {
                if keys.to_set().contains(x) && x != k {
                    let i = choose|i: int| 0 <= i < keys.len() && keys[i] == x;
                    assert(keys.drop_first()[i - 1] == x);
                }
                if keys.drop_first().to_set().contains(x) {
                    let i = choose|i: int| 0 <= i < keys.drop_first().len() && keys.drop_first()[i] == x;
                    assert(keys[i + 1] == x);
                }
                if x == k {
                    assert(keys[0] == x);
                }
            }
        }
        assert(t.data =~= s.data.remove_keys(keys.to_set()));
    }
}

/// TTL right after an EXPIRE of a present key answers the seconds given, as
/// long as they are more than none.
pub proof fn lemma_ttl_after_expire(s: ShardState, key: Seq<u8>, seconds: u64, now: u64)
    requires
        s.data.contains_key(key),
        seconds > 0,
        seconds <= i64::MAX,
    ensures
        spec_execute(s, CommandModel::Expire(key, seconds), now).1 == ResponseModel::Integer(1),
        spec_execute(spec_execute(s, CommandModel::Expire(key, seconds), now).0, CommandModel::Ttl(key), now).1
            == ResponseModel::Integer(seconds as i64),
{
    let t = deadline(now, seconds);
    assert((t - now) / 1000 == seconds);
}

/// A sweep of the expiry queue deletes only keys that are expired, and, unless
/// it stopped at `TTL_KEYS_PER_CHECK` keys, leaves none that is.
pub proof fn lemma_expire_keys(s: ShardState, now: u64)
    requires
        state_wf(s),
        sorted_latest_first(s.queue),
    ensures
        ({
            let (_, _, deleted) = spec_sweep(s.data, s.queue, now, 0);
            let t = spec_expire_keys(s, now);
            &&& forall|k: Seq<u8>| #[trigger] s.data.contains_key(k) && !t.data.contains_key(k) ==> expired_at(s.data[k], now)
            &&& forall|k: Seq<u8>| #[trigger] t.data.contains_key(k) ==> t.data[k] == s.data[k]
            &&& deleted < TTL_KEYS_PER_CHECK ==> forall|k: Seq<u8>| #[trigger] t.data.contains_key(k) ==> !expired_at(t.data[k], now)
        }),
{
    lemma_sweep(s.data, s.queue, now, 0);
    let (d, q, c) = spec_sweep(s.data, s.queue, now, 0);
    if c < TTL_KEYS_PER_CHECK {
        assert forall|k: Seq<u8>| #[trigger] d.contains_key(k) implies !expired_at(d[k], now) by {
            if d[k].expiry is Some {
                let x = (d[k].expiry->0, k);
                assert(q.contains(x));
                let i = choose|i: int| 0 <= i < q.len() && q[i] == x;
                if i < q.len() - 1 {
                    assert(q[i].0 >= q[q.len() - 1].0);
                }
            }
        }
    }
}

/// The bytes that the entries count for: each key, its value and the entry.
pub open spec fn memory_of(data: Map<Seq<u8>, Stored>) -> nat
    decreases data.dom().len(),
    when data.dom().finite()
{
    if data.dom().len() == 0 {
        0
    } else {
        let k = data.dom().choose();
        size_in_memory(k.len(), data[k].value.len()) + memory_of(data.remove(k))
    }
}

/// Whether a shard's memory count is the bytes its entries count for.
pub open spec fn memory_counted(s: ShardState) -> bool {
    s.metrics.memory_bytes == memory_of(s.data)
}

/// Taking any one entry out of the count leaves the count of the rest.
proof fn lemma_memory_remove(data: Map<Seq<u8>, Stored>, k: Seq<u8>)
    requires
        data.dom().finite(),
        data.contains_key(k),
    ensures
        memory_of(data) == size_in_memory(k.len(), data[k].value.len()) + memory_of(data.remove(k)),
    decreases data.dom().len(),
{
    let c = data.dom().choose();
    if c != k {
        assert(data.remove(c).dom() =~= data.dom().remove(c));
        assert(data.remove(k).dom() =~= data.dom().remove(k));
        lemma_memory_remove(data.remove(c), k);
        lemma_memory_remove(data.remove(k), c);
        assert(data.remove(c).remove(k) =~= data.remove(k).remove(c));
    }
}

/// Putting an entry under a key counts it in place of what the key held.
proof fn lemma_memory_insert(data: Map<Seq<u8>, Stored>, k: Seq<u8>, v: Stored)
    requires
        data.dom().finite(),
    ensures
        memory_of(data.insert(k, v)) == size_in_memory(k.len(), v.value.len()) + memory_of(data.remove(k)),
        data.contains_key(k) ==> memory_of(data) == size_in_memory(k.len(), data[k].value.len()) + memory_of(
            data.remove(k),
        ),
        !data.contains_key(k) ==> memory_of(data.remove(k)) == memory_of(data),
{
    lemma_memory_remove(data.insert(k, v), k);
    assert(data.insert(k, v).remove(k) =~= data.remove(k));
    if data.contains_key(k) {
        lemma_memory_remove(data, k);
    } else {
        assert(data.remove(k) =~= data);
    }
}

/// Deleting a key keeps the memory count right.
proof fn lemma_memory_after_remove(s: ShardState, k: Seq<u8>)
    requires
        s.data.dom().finite(),
        memory_counted(s),
    ensures
        memory_counted(after_remove(s, k)),
        after_remove(s, k).data.dom().finite(),
{
    if s.data.contains_key(k) {
        lemma_memory_remove(s.data, k);
        assert(wrapping_sub(s.metrics.memory_bytes, size_in_memory(k.len(), s.data[k].value.len()) as u64)
            == memory_of(s.data.remove(k)));
    }
}

/// DEL keeps the memory count right.
proof fn lemma_memory_del(s: ShardState, keys: Seq<Seq<u8>>)
    requires
        s.data.dom().finite(),
        memory_counted(s),
    ensures
        memory_counted(spec_del(s, keys).0),
    decreases keys.len(),
{
    if keys.len() > 0 {
        lemma_memory_after_remove(s, keys[0]);
        lemma_memory_del(after_remove(s, keys[0]), keys.drop_first());
    }
}

/// The memory count follows the entries: every command run on a shard whose
/// count is the bytes of its entries leaves it so (SET counts the new entry in
/// place of the old one; DEL, and GET or TTL of an expired key, take the
/// entry's bytes off; EXPIRE changes no sizes).
pub proof fn lemma_memory_accounting(s: ShardState, cmd: CommandModel, now: u64)
    requires
        s.data.dom().finite(),
        memory_counted(s),
        admissible(s, cmd),
    ensures
        memory_counted(spec_execute(s, cmd, now).0),
{
    match cmd {
        CommandModel::SetKey(key, value, ttl) => {
            let expiry = match ttl {
                Some(secs) => Some(deadline(now, secs)),
                None => None,
            };
            lemma_memory_insert(s.data, key, Stored { value, expiry });
        },
        CommandModel::Get(key) => {
            lemma_memory_after_remove(s, key);
        },
        CommandModel::Del(keys) => {
            lemma_memory_del(s, keys);
        },
        CommandModel::Expire(key, seconds) => {
            if s.data.contains_key(key) {
                lemma_memory_insert(s.data, key, Stored { value: s.data[key].value, expiry: Some(deadline(now, seconds)) });
            }
        },
        CommandModel::Ttl(key) => {
            lemma_memory_after_remove(s, key);
        },
        _ => {},
    }
}

/// The shard after the commands, each run at its instant, in order.
pub open spec fn run_commands(s: ShardState, cmds: Seq<(CommandModel, u64)>) -> ShardState
    decreases cmds.len(),
{
    if cmds.len() == 0 {
        s
    } else {
        spec_execute(run_commands(s, cmds.drop_last()), cmds.last().0, cmds.last().1).0
    }
}

/// The shard that `Shard::new` makes with its clock showing `now`.
pub open spec fn new_state(id: ShardId, now: u64) -> ShardState {
    ShardState {
        id,
        data: Map::empty(),
        queue: Seq::empty(),
        metrics: ShardMetrics::new_at_spec(now),
        max_memory_bytes: MAX_MEMORY_PER_SHARD,
        max_keys: MAX_KEYS_PER_SHARD,
    }
}

/// Whether each command can run, without an arithmetic overflow, on the shard
/// that the commands before it leave.
pub open spec fn runs_admissibly(s: ShardState, cmds: Seq<(CommandModel, u64)>) -> bool {
    forall|i: int| 0 <= i < cmds.len() ==> admissible(run_commands(s, #[trigger] cmds.take(i)), cmds[i].0)
}

/// Whether a shard's counters agree with its entries: finitely many keys, the
/// key count is their number, the memory count the bytes they count for; and
/// both stay within the shard's limits.
pub open spec fn accounted(s: ShardState) -> bool {
    &&& s.data.dom().finite()
    &&& s.metrics.key_count == s.data.dom().len()
    &&& memory_counted(s)
    &&& s.data.dom().len() <= s.max_keys
    &&& s.metrics.memory_bytes <= s.max_memory_bytes
}

/// Deleting a key keeps the counters in agreement.
proof fn lemma_accounted_after_remove(s: ShardState, k: Seq<u8>)
    requires
        accounted(s),
    ensures
        accounted(after_remove(s, k)),
        after_remove(s, k).max_keys == s.max_keys,
        after_remove(s, k).max_memory_bytes == s.max_memory_bytes,
{
    lemma_memory_after_remove(s, k);
    if s.data.contains_key(k) {
        lemma_memory_remove(s.data, k);
    }
}

/// DEL keeps the counters in agreement.
proof fn lemma_accounted_del(s: ShardState, keys: Seq<Seq<u8>>)
    requires
        accounted(s),
    ensures
        accounted(spec_del(s, keys).0),
        spec_del(s, keys).0.max_keys == s.max_keys,
        spec_del(s, keys).0.max_memory_bytes == s.max_memory_bytes,
    decreases keys.len(),
{
    if keys.len() > 0 {
        lemma_accounted_after_remove(s, keys[0]);
        lemma_accounted_del(after_remove(s, keys[0]), keys.drop_first());
    }
}

/// Every command that can run keeps the counters in agreement.
pub proof fn lemma_accounted_step(s: ShardState, cmd: CommandModel, now: u64)
    requires
        accounted(s),
        admissible(s, cmd),
    ensures
        accounted(spec_execute(s, cmd, now).0),
        spec_execute(s, cmd, now).0.max_keys == s.max_keys,
        spec_execute(s, cmd, now).0.max_memory_bytes == s.max_memory_bytes,
{
    lemma_memory_accounting(s, cmd, now);
    match cmd {
        CommandModel::SetKey(key, value, ttl) => {
            let expiry = match ttl {
                Some(secs) => Some(deadline(now, secs)),
                None => None,
            };
            let data = s.data.insert(key, Stored { value, expiry });
            if s.data.contains_key(key) {
                assert(data.dom() =~= s.data.dom());
            } else {
                assert(data.dom() =~= s.data.dom().insert(key));
            }

        },
        CommandModel::Get(key) => {
            lemma_accounted_after_remove(s, key);
        },
        CommandModel::Del(keys) => {
            lemma_accounted_del(s, keys);
        },
        CommandModel::Expire(key, seconds) => {
            if s.data.contains_key(key) {
                let data = s.data.insert(key, Stored { value: s.data[key].value, expiry: Some(deadline(now, seconds)) });
                assert(data.dom() =~= s.data.dom());
            }
        },
        CommandModel::Ttl(key) => {
            lemma_accounted_after_remove(s, key);
        },
        _ => {},
    }
}

/// Over any run of commands that can each run, the counters stay in agreement
/// with the entries.
pub proof fn lemma_accounted_run(s: ShardState, cmds: Seq<(CommandModel, u64)>)
    requires
        accounted(s),
        runs_admissibly(s, cmds),
    ensures
        accounted(run_commands(s, cmds)),
        run_commands(s, cmds).max_keys == s.max_keys,
        run_commands(s, cmds).max_memory_bytes == s.max_memory_bytes,
    decreases cmds.len(),
{
    if cmds.len() > 0 {
        let d = cmds.drop_last();
        assert(runs_admissibly(s, d)) by {
            assert forall|i: int| 0 <= i < d.len() implies admissible(run_commands(s, #[trigger] d.take(i)), d[i].0) by {
                assert(d.take(i) =~= cmds.take(i));
                assert(admissible(run_commands(s, cmds.take(i)), cmds[i].0));
            }
        }
        lemma_accounted_run(s, d);
        let n = cmds.len() - 1;
        assert(cmds.take(n) =~= d);
        assert(admissible(run_commands(s, cmds.take(n)), cmds[n].0));
        lemma_accounted_step(run_commands(s, d), cmds.last().0, cmds.last().1);
    }
}

/// From a new shard on, every run of commands that can each run keeps the key
/// count equal to the number of keys and the memory count equal to the bytes
/// of the entries, within the shard's limits.
pub proof fn lemma_accounting_from_new(id: ShardId, now: u64, cmds: Seq<(CommandModel, u64)>)
    requires
        runs_admissibly(new_state(id, now), cmds),
    ensures
        accounted(run_commands(new_state(id, now), cmds)),
{
    let s = new_state(id, now);
    assert(s.data.dom() =~= Set::<Seq<u8>>::empty());
    assert(memory_of(s.data) == 0);
    lemma_accounted_run(s, cmds);
}

/// Whether a command may change what `key` holds: a SET or an EXPIRE of it,
/// or a DEL that names it.
pub open spec fn writes_key(cmd: CommandModel, key: Seq<u8>) -> bool {
    match cmd {
        CommandModel::SetKey(k, _, _) => k == key,
        CommandModel::Expire(k, _) => k == key,
        CommandModel::Del(keys) => keys.contains(key),
        _ => false,
    }
}

/// DEL of other keys leaves `key` as it was.
proof fn lemma_del_keeps(s: ShardState, keys: Seq<Seq<u8>>, key: Seq<u8>)
    requires
        s.data.contains_key(key),
        !keys.contains(key),
    ensures
        spec_del(s, keys).0.data.contains_key(key),
        spec_del(s, keys).0.data[key] == s.data[key],
    decreases keys.len(),
{
    if keys.len() > 0 {
        assert(keys[0] != key);
        let d = keys.drop_first();
        assert(!d.contains(key)) by {
            if d.contains(key) {
                let i = choose|i: int| 0 <= i < d.len() && d[i] == key;
                assert(keys[i + 1] == key);
            }
        }
        lemma_del_keeps(after_remove(s, keys[0]), d, key);
    }
}

/// A command that does not write `key`, run while its entry has not expired,
/// leaves the entry as it was.
pub proof fn lemma_step_keeps(s: ShardState, cmd: CommandModel, now: u64, key: Seq<u8>)
    requires
        s.data.contains_key(key),
        !expired_at(s.data[key], now),
        !writes_key(cmd, key),
    ensures
        spec_execute(s, cmd, now).0.data.contains_key(key),
        spec_execute(s, cmd, now).0.data[key] == s.data[key],
{
    if let CommandModel::Del(keys) = cmd {
        lemma_del_keeps(s, keys, key);
    }
}

/// Commands that do not write `key`, each run while its entry has not
/// expired, leave the entry as it was.
pub proof fn lemma_run_keeps(s: ShardState, cmds: Seq<(CommandModel, u64)>, key: Seq<u8>)
    requires
        s.data.contains_key(key),
        forall|i: int| 0 <= i < cmds.len() ==> !writes_key((#[trigger] cmds[i]).0, key) && !expired_at(s.data[key], cmds[i].1),
    ensures
        run_commands(s, cmds).data.contains_key(key),
        run_commands(s, cmds).data[key] == s.data[key],
    decreases cmds.len(),
{
    if cmds.len() > 0 {
        let d = cmds.drop_last();
        assert forall|i: int| 0 <= i < d.len() implies !writes_key((#[trigger] d[i]).0, key) && !expired_at(s.data[key], d[i].1) by {
            assert(d[i] == cmds[i]);
        }
        lemma_run_keeps(s, d, key);
        assert(cmds[cmds.len() - 1] == cmds.last());
        lemma_step_keeps(run_commands(s, d), cmds.last().0, cmds.last().1, key);
    }
}

/// A read gives back what a write wrote, whatever comes between: after a SET
/// that succeeded, and any commands that do not write the key, each run before
/// the key's expiry, GET of the key before the expiry answers the value written
/// and leaves the entries as they were.
pub proof fn lemma_read_after_write(
    s: ShardState,
    key: Seq<u8>,
    value: Seq<u8>,
    ttl: Option<u64>,
    now: u64,
    cmds: Seq<(CommandModel, u64)>,
    later: u64,
)
    requires
        spec_execute(s, CommandModel::SetKey(key, value, ttl), now).1 == ResponseModel::Okay,
        forall|i: int| 0 <= i < cmds.len() ==> !writes_key((#[trigger] cmds[i]).0, key),
        ttl matches Some(secs) ==> forall|i: int| 0 <= i < cmds.len() ==> (#[trigger] cmds[i]).1 < deadline(now, secs),
        ttl matches Some(secs) ==> later < deadline(now, secs),
    ensures
        ({
            let t = run_commands(spec_execute(s, CommandModel::SetKey(key, value, ttl), now).0, cmds);
            let (u, r) = spec_execute(t, CommandModel::Get(key), later);
            &&& r == ResponseModel::Value(Some(value))
            &&& u.data == t.data
            &&& u.metrics.memory_bytes == t.metrics.memory_bytes
        }),
{
    let s1 = spec_execute(s, CommandModel::SetKey(key, value, ttl), now).0;
    assert(s1.data.contains_key(key));
    lemma_run_keeps(s1, cmds, key);
}

/// INFO reports and changes nothing: the server section is the default, so
/// asking for `server` answers as asking for no section; each known section
/// starts with its own heading; any other section is refused.
pub proof fn lemma_info_sections(s: ShardState, now: u64, section: Seq<char>)
    ensures
        spec_apply(s, CommandModel::Info(Some("server"@)), now) == spec_apply(s, CommandModel::Info(None), now),
        spec_execute(s, CommandModel::Info(Some("server"@)), now) == spec_execute(s, CommandModel::Info(None), now),
        spec_apply(s, CommandModel::Info(Some(section)), now).0 == s,
        spec_apply(s, CommandModel::Info(None), now).0 == s,
        spec_apply(s, CommandModel::Info(None), now).1 matches ResponseModel::Value(Some(v)) && v.take(
            vstd::utf8::encode_utf8("# Server\r\n"@).len() as int,
        ) == vstd::utf8::encode_utf8("# Server\r\n"@),
        section == "stats"@ ==> (spec_apply(s, CommandModel::Info(Some(section)), now).1 matches ResponseModel::Value(
            Some(v),
        ) && v.take(vstd::utf8::encode_utf8("# Stats\r\n"@).len() as int) == vstd::utf8::encode_utf8("# Stats\r\n"@)),
        section == "memory"@ ==> (spec_apply(s, CommandModel::Info(Some(section)), now).1 matches ResponseModel::Value(
            Some(v),
        ) && v.take(vstd::utf8::encode_utf8("# Memory\r\n"@).len() as int) == vstd::utf8::encode_utf8(
            "# Memory\r\n"@,
        )),
        section != "server"@ && section != "stats"@ && section != "memory"@ ==> spec_apply(
            s,
            CommandModel::Info(Some(section)),
            now,
        ).1 == ResponseModel::Error("ERR unknown section"@),
{
    reveal_strlit("server");
    reveal_strlit("stats");
    reveal_strlit("memory");
    assert("server"@[1] == 'e');
    assert("stats"@[1] == 't');
    assert("memory"@[0] == 'm');
    assert("server"@ != "stats"@);
    assert("server"@ != "memory"@);
    assert("stats"@ != "memory"@);
    let a = vstd::utf8::encode_utf8("# Server\r\n"@);
    if let ResponseModel::Value(Some(v)) = spec_apply(s, CommandModel::Info(None), now).1 {
        assert(v.take(a.len() as int) =~= a);
    }
    let b = vstd::utf8::encode_utf8("# Stats\r\n"@);
    if let ResponseModel::Value(Some(v)) = spec_apply(s, CommandModel::Info(Some(section)), now).1 {
        if section == "stats"@ {
            assert(v.take(b.len() as int) =~= b);
        }
        let c = vstd::utf8::encode_utf8("# Memory\r\n"@);
        if section == "memory"@ {
            assert(v.take(c.len() as int) =~= c);
        }
    }
}

/// Answers that depend only on whether a key is there: PING echoes its
/// message (PONG without one); GET, TTL and EXPIRE of an absent key answer
/// nothing, -2 and 0 and change no entry; TTL of a key that never expires
/// answers -1; DEL of keys none of which is there answers 0.
pub proof fn lemma_simple_answers(s: ShardState, key: Seq<u8>, message: Seq<u8>, seconds: u64, keys: Seq<Seq<u8>>, now: u64)
    ensures
        spec_execute(s, CommandModel::Ping(Some(message)), now).1 == ResponseModel::Value(Some(message)),
        spec_execute(s, CommandModel::Ping(None), now).1 == ResponseModel::Value(Some(vstd::utf8::encode_utf8("PONG"@))),
        !s.data.contains_key(key) ==> spec_execute(s, CommandModel::Get(key), now).1 == ResponseModel::Value(None)
            && spec_execute(s, CommandModel::Get(key), now).0.data == s.data,
        !s.data.contains_key(key) ==> spec_execute(s, CommandModel::Ttl(key), now).1 == ResponseModel::Integer(-2i64)
            && spec_execute(s, CommandModel::Ttl(key), now).0.data == s.data,
        !s.data.contains_key(key) ==> spec_execute(s, CommandModel::Expire(key, seconds), now).1 == ResponseModel::Integer(0)
            && spec_execute(s, CommandModel::Expire(key, seconds), now).0.data == s.data,
        s.data.contains_key(key) && s.data[key].expiry is None ==> spec_execute(s, CommandModel::Ttl(key), now).1
            == ResponseModel::Integer(-1i64),
        (forall|i: int| 0 <= i < keys.len() ==> !s.data.contains_key(#[trigger] keys[i])) ==> spec_del(s, keys).1 == 0
            && spec_del(s, keys).0.data == s.data,
{
    lemma_del_absent(s, keys);
}

/// DEL of keys that are not there finds none and changes nothing.
proof fn lemma_del_absent(s: ShardState, keys: Seq<Seq<u8>>)
    ensures
        (forall|i: int| 0 <= i < keys.len() ==> !s.data.contains_key(#[trigger] keys[i])) ==> spec_del(s, keys).1 == 0
            && spec_del(s, keys).0.data == s.data,
    decreases keys.len(),
{
    if keys.len() > 0 {
        let d = keys.drop_first();
        lemma_del_absent(s, d);
        if forall|i: int| 0 <= i < keys.len() ==> !s.data.contains_key(#[trigger] keys[i]) {
            assert(!s.data.contains_key(keys[0]));
            assert forall|i: int| 0 <= i < d.len() implies !s.data.contains_key(#[trigger] d[i]) by {
                assert(d[i] == keys[i + 1]);
            }
        }
    }
}

} // verus!
