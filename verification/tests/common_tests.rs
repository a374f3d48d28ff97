use rsdragonfly::add;
use rsdragonfly::common::hash::crc16;
use rsdragonfly::common::shard_id::ShardId;
use rsdragonfly::common::threads::ThreadType;
use rsdragonfly::common::time::{instant_to_unix_timestamp_at, unix_timestamp_to_instant_at};
use rsdragonfly::common::types::Value;

#[test]
fn it_works() {
    let result = add(2, 2);
    assert_eq!(result, 4);
}

#[test]
fn test_crc16_deterministic() {
    let key = b"mykey";
    let hash1 = crc16(key);
    let hash2 = crc16(key);
    assert_eq!(hash1, hash2);
}

#[test]
fn test_crc16_distribution() {
    let mut counts = vec![0; 64];
    for i in 0..1_000_000 {
        let key = format!("key:{}", i);
        let hash = crc16(key.as_bytes());
        let shard = (hash as usize) & 63;
        counts[shard] += 1;
    }

    let mean = 1_000_000 / 64;
    let variance: f64 = counts
        .iter()
        .map(|&c| (c as f64 - mean as f64).powi(2))
        .sum::<f64>()
        / 64.0;
    let std_dev = variance.sqrt();

    assert!(std_dev < 200.0, "Distribution variance too high: {}", std_dev);

    // The same bound in integers: the squared deviations sum to less than 64 * 200^2.
    let squares: i64 = counts.iter().map(|&c| (c as i64 - mean as i64) * (c as i64 - mean as i64)).sum();
    assert!(squares < 64 * 200 * 200, "squared deviations too high: {}", squares);
}

#[test]
fn crc16_kermit_check_value() {
    assert_eq!(crc16(b"123456789"), 0x2189);
    assert_eq!(crc16(b""), 0);
}

#[test]
fn shard_id_new_and_index() {
    let id = ShardId::new(17);
    assert_eq!(id, ShardId(17));
    assert_eq!(id.as_usize(), 17);
}

#[test]
fn thread_names() {
    assert_eq!(ThreadType::Acceptor.name(), "acceptor");
    assert_eq!(ThreadType::ConnectionHandler(2).name(), "conn-handler-2");
    assert_eq!(ThreadType::ShardWorker(ShardId(3)).name(), "shard-3");
    assert_eq!(ThreadType::SnapshotWriter(ShardId(63)).name(), "snapshot-63");
    assert_eq!(ThreadType::MetricsExporter.name(), "metrics");
}

#[test]
fn value_bytes_and_size() {
    let v = Value::String(b"hello".to_vec());
    assert_eq!(v.as_bytes(), b"hello");
    assert_eq!(v.size_bytes(), 5);
}

#[test]
fn unix_timestamp_conversions() {
    let now: u64 = 1_700_000_000_500;
    // An instant 10.4 s ahead falls in the second 10 s ahead.
    assert_eq!(instant_to_unix_timestamp_at(now as u128 + 10_400, now), 1_700_000_010);
    // An instant already past counts as now.
    assert_eq!(instant_to_unix_timestamp_at(5, now), 1_700_000_000);
    // A timestamp 30 s ahead is 30 s from now.
    assert_eq!(unix_timestamp_to_instant_at(1_700_000_030, now), now as u128 + 30_000);
    // A timestamp not ahead is now.
    assert_eq!(unix_timestamp_to_instant_at(1_600_000_000, now), now as u128);
}
