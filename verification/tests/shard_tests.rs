use rsdragonfly::common::shard_id::ShardId;
use rsdragonfly::common::types::Value;
use rsdragonfly::protocol::command::Command;
use rsdragonfly::protocol::response::Response;
use rsdragonfly::shard::entry::Entry;
use rsdragonfly::shard::expiry::{Expiry, ExpiryQueue};
use rsdragonfly::shard::shard::{Shard, ShardMetrics};

const NOW: u64 = 1_700_000_000_000;

fn set(key: &[u8], value: &[u8], ttl: Option<u64>) -> Command {
    Command::SetKey { key: key.to_vec(), value: Value::String(value.to_vec()), ttl }
}

fn get(key: &[u8]) -> Command {
    Command::Get { key: key.to_vec() }
}

fn value_of(r: Response) -> Option<Vec<u8>> {
    match r {
        Response::Value(v) => v.map(|v| v.as_bytes().to_vec()),
        other => panic!("not a value: {:?}", other),
    }
}

fn int_of(r: Response) -> i64 {
    match r {
        Response::Integer(n) => n,
        other => panic!("not an integer: {:?}", other),
    }
}

#[test]
fn set_then_get() {
    let mut shard = Shard::new_at(ShardId(1), NOW);
    assert!(matches!(shard.execute_at(set(b"k", b"v", None), NOW), Response::Okay));
    assert_eq!(value_of(shard.execute_at(get(b"k"), NOW)), Some(b"v".to_vec()));
    assert_eq!(value_of(shard.execute_at(get(b"missing"), NOW)), None);
    assert_eq!(shard.metrics.commands_processed, 3);
    assert_eq!(shard.metrics.key_count, 1);
    assert_eq!(shard.metrics.memory_bytes, (1 + 1 + std::mem::size_of::<Entry>()) as u64);
}

#[test]
fn overwrite_keeps_one_key_and_recounts_memory() {
    let mut shard = Shard::new_at(ShardId(0), NOW);
    shard.execute_at(set(b"k", b"short", None), NOW);
    shard.execute_at(set(b"k", b"much longer", None), NOW);
    assert_eq!(shard.metrics.key_count, 1);
    assert_eq!(shard.metrics.memory_bytes, (1 + 11 + std::mem::size_of::<Entry>()) as u64);
    assert_eq!(value_of(shard.execute_at(get(b"k"), NOW)), Some(b"much longer".to_vec()));
}

#[test]
fn ping_echoes() {
    let mut shard = Shard::new_at(ShardId(0), NOW);
    assert_eq!(value_of(shard.execute_at(Command::Ping { message: None }, NOW)), Some(b"PONG".to_vec()));
    assert_eq!(value_of(shard.execute_at(Command::Ping { message: Some(b"hi".to_vec()) }, NOW)), Some(b"hi".to_vec()));
}

#[test]
fn set_refusals() {
    let mut shard = Shard::new_at(ShardId(0), NOW);
    let long_key = vec![b'x'; 513];
    match shard.execute_at(set(&long_key, b"v", None), NOW) {
        Response::Error(m) => assert_eq!(m, "ERR key too large"),
        other => panic!("{:?}", other),
    }
    shard.max_keys = 1;
    shard.execute_at(set(b"a", b"1", None), NOW);
    match shard.execute_at(set(b"b", b"2", None), NOW) {
        Response::Error(m) => assert_eq!(m, "ERR shard full"),
        other => panic!("{:?}", other),
    }
    // Overwriting an existing key is still allowed when full.
    assert!(matches!(shard.execute_at(set(b"a", b"3", None), NOW), Response::Okay));
    shard.max_keys = 10;
    shard.max_memory_bytes = 10;
    match shard.execute_at(set(b"c", b"3", None), NOW) {
        Response::Error(m) => assert_eq!(m, "ERR OOM command not allowed when used memory > 'maxmemory'"),
        other => panic!("{:?}", other),
    }
    assert_eq!(value_of(shard.execute_at(get(b"c"), NOW)), None);
}

#[test]
fn del_counts_removed_keys() {
    let mut shard = Shard::new_at(ShardId(0), NOW);
    shard.execute_at(set(b"a", b"1", None), NOW);
    shard.execute_at(set(b"b", b"2", None), NOW);
    let n = int_of(shard.execute_at(Command::Del { keys: vec![b"a".to_vec(), b"zz".to_vec(), b"b".to_vec(), b"a".to_vec()] }, NOW));
    assert_eq!(n, 2);
    assert_eq!(shard.metrics.key_count, 0);
    assert_eq!(shard.metrics.memory_bytes, 0);
}

#[test]
fn ttl_and_expire() {
    let mut shard = Shard::new_at(ShardId(0), NOW);
    assert_eq!(int_of(shard.execute_at(Command::Ttl { key: b"k".to_vec() }, NOW)), -2);
    shard.execute_at(set(b"k", b"v", None), NOW);
    assert_eq!(int_of(shard.execute_at(Command::Ttl { key: b"k".to_vec() }, NOW)), -1);
    assert_eq!(int_of(shard.execute_at(Command::Expire { key: b"k".to_vec(), seconds: 10 }, NOW)), 1);
    assert_eq!(int_of(shard.execute_at(Command::Expire { key: b"none".to_vec(), seconds: 10 }, NOW)), 0);
    assert_eq!(int_of(shard.execute_at(Command::Ttl { key: b"k".to_vec() }, NOW + 2_500)), 7);
    // At the deadline the key is gone, and counted as expired.
    assert_eq!(int_of(shard.execute_at(Command::Ttl { key: b"k".to_vec() }, NOW + 10_000)), -2);
    assert_eq!(shard.metrics.keys_expired, 1);
    assert_eq!(shard.metrics.key_count, 0);
}

#[test]
fn get_of_expired_key_removes_it() {
    let mut shard = Shard::new_at(ShardId(0), NOW);
    shard.execute_at(set(b"k", b"v", Some(1)), NOW);
    assert_eq!(value_of(shard.execute_at(get(b"k"), NOW + 999)), Some(b"v".to_vec()));
    assert_eq!(value_of(shard.execute_at(get(b"k"), NOW + 1_000)), None);
    assert_eq!(shard.metrics.keys_expired, 1);
    assert_eq!(shard.metrics.key_count, 0);
}

#[test]
fn info_sections() {
    let mut shard = Shard::new_at(ShardId(5), NOW);
    shard.execute_at(set(b"k", b"v", None), NOW);
    let server = value_of(shard.execute_at(Command::Info { section: None }, NOW + 3_000)).unwrap();
    assert_eq!(server, b"# Server\r\nshard_id:5\r\nuptime_seconds:3\r\n".to_vec());
    let stats = value_of(shard.execute_at(Command::Info { section: Some("stats".to_string()) }, NOW)).unwrap();
    assert_eq!(stats, b"# Stats\r\ntotal_commands_processed:2\r\nkeys_expired:0\r\n".to_vec());
    let memory = value_of(shard.execute_at(Command::Info { section: Some("memory".to_string()) }, NOW)).unwrap();
    let expected = format!("# Memory\r\nused_memory:{}\r\nkey_count:1\r\n", 2 + std::mem::size_of::<Entry>());
    assert_eq!(memory, expected.into_bytes());
    match shard.execute_at(Command::Info { section: Some("cpu".to_string()) }, NOW) {
        Response::Error(m) => assert_eq!(m, "ERR unknown section"),
        other => panic!("{:?}", other),
    }
}

#[test]
fn expire_keys_sweeps_at_most_twenty() {
    let mut shard = Shard::new_at(ShardId(0), NOW);
    for i in 0..25u32 {
        let key = format!("k{}", i).into_bytes();
        shard.execute_at(set(&key, b"v", Some(1)), NOW);
    }
    shard.execute_at(set(b"keep", b"v", None), NOW);
    shard.expire_keys_at(NOW + 500);
    assert_eq!(shard.metrics.key_count, 26);
    shard.expire_keys_at(NOW + 1_000);
    assert_eq!(shard.metrics.keys_expired, 20);
    assert_eq!(shard.metrics.key_count, 6);
    shard.expire_keys_at(NOW + 1_000);
    assert_eq!(shard.metrics.keys_expired, 25);
    assert_eq!(shard.metrics.key_count, 1);
    assert_eq!(value_of(shard.execute_at(get(b"keep"), NOW + 1_000)), Some(b"v".to_vec()));
}

#[test]
fn admits_refuses_overflowing_set() {
    let mut shard = Shard::new_at(ShardId(0), NOW);
    shard.metrics.memory_bytes = u64::MAX;
    assert!(!shard.admits(&set(b"k", b"v", None)));
    assert!(shard.admits(&get(b"k")));
}

#[test]
fn entry_and_metrics_helpers() {
    let e = Entry::new_at(Value::String(b"abc".to_vec()), Some(NOW as u128 + 5), NOW);
    assert!(!e.is_expired_at(NOW + 4));
    assert!(e.is_expired_at(NOW + 5));
    assert_eq!(e.size_bytes(), std::mem::size_of::<Entry>() + 3);
    let mut m = ShardMetrics::new_at(NOW);
    m.record_command(12);
    assert_eq!(m.commands_processed, 1);
    assert_eq!(m.uptime_seconds_at(NOW + 61_999), 61);
    assert_eq!(m.uptime_seconds_at(NOW - 1), 0);
}

#[test]
fn expiry_queue_gives_earliest_first() {
    let mut q = ExpiryQueue::new();
    q.push(Expiry { expiry_time: 30, key: b"c".to_vec() });
    q.push(Expiry { expiry_time: 10, key: b"a".to_vec() });
    q.push(Expiry { expiry_time: 20, key: b"b".to_vec() });
    assert_eq!(q.len(), 3);
    assert_eq!(q.peek_time(), Some(10));
    assert_eq!(q.pop().unwrap().key, b"a".to_vec());
    assert_eq!(q.pop().unwrap().key, b"b".to_vec());
    assert_eq!(q.pop().unwrap().key, b"c".to_vec());
    assert!(q.pop().is_none());
}

#[test]
fn read_after_write_across_other_keys() {
    let mut shard = Shard::new(ShardId(2));
    shard.execute_at(set(b"k", b"v", Some(10)), NOW);
    shard.execute_at(set(b"other", b"1", None), NOW + 1);
    shard.execute_at(Command::Del { keys: vec![b"other".to_vec(), b"nope".to_vec()] }, NOW + 2);
    shard.execute_at(Command::Expire { key: b"x".to_vec(), seconds: 1 }, NOW + 3);
    shard.execute_at(Command::Ttl { key: b"k".to_vec() }, NOW + 4);
    assert_eq!(value_of(shard.execute_at(get(b"k"), NOW + 9_999)), Some(b"v".to_vec()));
    assert_eq!(shard.metrics.key_count, 1);
}

#[test]
fn counters_follow_entries_from_a_new_shard() {
    let mut shard = Shard::new(ShardId(0));
    assert_eq!(shard.metrics.commands_processed, 0);
    assert_eq!(shard.metrics.memory_bytes, 0);
    assert_eq!(shard.metrics.key_count, 0);
    let e = std::mem::size_of::<Entry>() as u64;
    shard.execute_at(set(b"a", b"xy", None), NOW);
    shard.execute_at(set(b"a", b"z", None), NOW);
    assert_eq!(shard.metrics.key_count, 1);
    assert_eq!(shard.metrics.memory_bytes, 1 + 1 + e);
    shard.execute_at(set(b"bb", b"ccc", None), NOW);
    assert_eq!(shard.metrics.memory_bytes, (1 + 1 + e) + (2 + 3 + e));
    assert_eq!(int_of(shard.execute_at(Command::Del { keys: vec![b"a".to_vec(), b"a".to_vec(), b"q".to_vec()] }, NOW)), 1);
    assert_eq!(shard.metrics.key_count, 1);
    assert_eq!(shard.metrics.memory_bytes, 2 + 3 + e);
    assert_eq!(shard.metrics.commands_processed, 4);
}
