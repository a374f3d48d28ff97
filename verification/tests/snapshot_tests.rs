use crc::{Crc, CRC_64_ECMA_182};
use rsdragonfly::common::shard_id::ShardId;
use rsdragonfly::common::types::Value;
use rsdragonfly::protocol::command::Command;
use rsdragonfly::protocol::response::Response;
use rsdragonfly::shard::deserialize::{deserialize_snapshot, deserialize_snapshot_at, SnapshotError};
use rsdragonfly::shard::format::{SnapshotHeader, HEADER_SIZE, MAGIC, VERSION};
use rsdragonfly::shard::serialize::{serialize_shard, serialize_shard_at};
use rsdragonfly::shard::shard::Shard;
use rsdragonfly::shard::worker::{WorkerAction, WorkerEvent};

const NOW: u64 = 1_700_000_000_250;

fn crc64(data: &[u8]) -> u64 {
    Crc::<u64>::new(&CRC_64_ECMA_182).checksum(data)
}

fn record(key: &[u8], value: &[u8], expiry: Option<u64>) -> Vec<u8> {
    let mut r = Vec::new();
    r.extend_from_slice(&(key.len() as u32).to_le_bytes());
    r.extend_from_slice(key);
    r.extend_from_slice(&(value.len() as u32).to_le_bytes());
    r.extend_from_slice(value);
    match expiry {
        Some(ts) => {
            r.push(1);
            r.extend_from_slice(&ts.to_le_bytes());
        }
        None => r.push(0),
    }
    r
}

/// A snapshot that passes both checksum checks: the header checksum field is
/// zero, and the last eight bytes of the checked range are chosen so that the
/// CRC of the first 56 bytes is zero.
fn valid_snapshot(shard_id: u16, key_count: u64, body: &[u8]) -> Vec<u8> {
    let mut buf = Vec::new();
    buf.extend_from_slice(b"RSDF");
    buf.extend_from_slice(&1u32.to_le_bytes());
    buf.extend_from_slice(&shard_id.to_le_bytes());
    buf.extend_from_slice(&0u16.to_le_bytes());
    buf.extend_from_slice(&key_count.to_le_bytes());
    buf.extend_from_slice(&(NOW / 1000).to_le_bytes());
    buf.extend_from_slice(&crc64(body).to_le_bytes());
    buf.extend_from_slice(&0u64.to_le_bytes());
    buf.extend_from_slice(&[0u8; 4]);
    let fix = crc64(&buf[0..48]);
    buf.extend_from_slice(&fix.to_be_bytes());
    buf.extend_from_slice(&[0u8; 8]);
    assert_eq!(buf.len(), 64);
    assert_eq!(crc64(&buf[0..56]), 0);
    buf.extend_from_slice(body);
    buf
}

#[test]
fn crc64_check_value() {
    assert_eq!(crc64(b"123456789"), 0x6c40df5f0b497347);
}

#[test]
fn header_write_then_read() {
    let mut h = SnapshotHeader::new_at(7, 42, NOW);
    assert_eq!(h.magic, MAGIC);
    assert_eq!(h.version, VERSION);
    assert_eq!(h.timestamp, NOW / 1000);
    h.data_checksum = 0x0102_0304_0506_0708;
    h.header_checksum = u64::MAX - 5;
    h.reserved2[3] = 9;
    let mut buf = Vec::new();
    h.write(&mut buf);
    assert_eq!(buf.len(), HEADER_SIZE);
    assert_eq!(&buf[0..4], b"RSDF");
    assert_eq!(&buf[28..36], &0x0102_0304_0506_0708u64.to_le_bytes());
    let r = SnapshotHeader::read(&buf).unwrap();
    assert_eq!(r.magic, h.magic);
    assert_eq!(r.version, h.version);
    assert_eq!(r.shard_id, 7);
    assert_eq!(r.reserved1, 0);
    assert_eq!(r.key_count, 42);
    assert_eq!(r.timestamp, h.timestamp);
    assert_eq!(r.data_checksum, h.data_checksum);
    assert_eq!(r.header_checksum, h.header_checksum);
    assert_eq!(r.reserved2, h.reserved2);
    assert!(SnapshotHeader::read(&buf[..63]).is_none());
    let fresh = SnapshotHeader::new(1, 2);
    assert_eq!(fresh.key_count, 2);
}

#[test]
fn serialize_lays_out_header_and_records() {
    let mut shard = Shard::new_at(ShardId(3), NOW);
    shard.execute_at(Command::SetKey { key: b"k".to_vec(), value: Value::String(b"v".to_vec()), ttl: None }, NOW);
    shard.execute_at(Command::SetKey { key: b"t".to_vec(), value: Value::String(b"xy".to_vec()), ttl: Some(10) }, NOW);
    let bytes = serialize_shard_at(&shard, NOW);
    let mut body = record(b"k", b"v", None);
    body.extend_from_slice(&record(b"t", b"xy", Some(NOW / 1000 + 10)));
    assert_eq!(bytes.len(), 64 + body.len());
    assert_eq!(&bytes[0..4], b"RSDF");
    assert_eq!(&bytes[4..8], &1u32.to_le_bytes());
    assert_eq!(&bytes[8..10], &3u16.to_le_bytes());
    assert_eq!(&bytes[12..20], &2u64.to_le_bytes());
    assert_eq!(&bytes[20..28], &(NOW / 1000).to_le_bytes());
    assert_eq!(&bytes[64..], &body[..]);
    // The checksums land at offsets 32 and 40; the header checksum is over the
    // first 56 bytes as they were before either checksum was written.
    let mut pre = bytes.clone();
    for b in &mut pre[32..48] {
        *b = 0;
    }
    assert_eq!(&bytes[32..40], &crc64(&body).to_le_bytes());
    assert_eq!(&bytes[40..48], &crc64(&pre[0..56]).to_le_bytes());
    assert_eq!(&bytes[28..32], &[0u8; 4]);
    let now_bytes = serialize_shard(&shard);
    assert_eq!(&now_bytes[0..4], b"RSDF");
}

#[test]
fn serialized_snapshot_fails_its_own_header_check() {
    let mut shard = Shard::new_at(ShardId(0), NOW);
    shard.execute_at(Command::SetKey { key: b"a".to_vec(), value: Value::String(b"1".to_vec()), ttl: None }, NOW);
    let bytes = serialize_shard_at(&shard, NOW);
    assert!(matches!(deserialize_snapshot_at(&bytes, NOW), Err(SnapshotError::HeaderChecksumMismatch)));
    let empty = serialize_shard_at(&Shard::new_at(ShardId(9), NOW), NOW);
    assert!(matches!(deserialize_snapshot(&empty), Err(SnapshotError::HeaderChecksumMismatch)));
}

#[test]
fn loads_a_valid_snapshot() {
    let now_secs = NOW / 1000;
    let mut body = Vec::new();
    body.extend_from_slice(&record(b"a", b"1", None));
    body.extend_from_slice(&record(b"gone", b"x", Some(now_secs)));
    body.extend_from_slice(&record(b"ttl", b"y", Some(now_secs + 30)));
    body.extend_from_slice(&record(b"a", b"2", None));
    let data = valid_snapshot(12, 4, &body);
    let mut shard = deserialize_snapshot_at(&data, NOW).unwrap();
    assert_eq!(shard.id, ShardId(12));
    assert_eq!(shard.metrics.key_count, 2);
    assert_eq!(shard.metrics.memory_bytes, 0);
    assert_eq!(shard.ttl_queue.len(), 1);
    assert_eq!(shard.ttl_queue.peek_time(), Some(NOW as u128 + 30_000));
    match shard.execute_at(Command::Get { key: b"a".to_vec() }, NOW) {
        Response::Value(Some(v)) => assert_eq!(v.as_bytes(), b"2"),
        other => panic!("{:?}", other),
    }
    match shard.execute_at(Command::Get { key: b"gone".to_vec() }, NOW) {
        Response::Value(None) => {}
        other => panic!("{:?}", other),
    }
    match shard.execute_at(Command::Ttl { key: b"ttl".to_vec() }, NOW) {
        Response::Integer(n) => assert_eq!(n, 30),
        other => panic!("{:?}", other),
    }
}

#[test]
fn a_flag_other_than_one_means_no_expiry() {
    let mut body = record(b"k", b"v", None);
    let last = body.len() - 1;
    body[last] = 7;
    let data = valid_snapshot(0, 1, &body);
    let shard = deserialize_snapshot_at(&data, NOW).unwrap();
    assert_eq!(shard.metrics.key_count, 1);
    assert_eq!(shard.ttl_queue.len(), 0);
}

#[test]
fn load_errors() {
    assert!(matches!(deserialize_snapshot_at(&[0u8; 63], NOW), Err(SnapshotError::TooSmall)));

    let good = valid_snapshot(0, 0, &[]);
    let mut bad_magic = good.clone();
    bad_magic[0] = b'X';
    assert!(matches!(deserialize_snapshot_at(&bad_magic, NOW), Err(SnapshotError::InvalidMagic)));

    let mut bad_version = good.clone();
    bad_version[4] = 2;
    assert!(matches!(deserialize_snapshot_at(&bad_version, NOW), Err(SnapshotError::UnsupportedVersion(2))));

    let mut bad_header = good.clone();
    bad_header[20] ^= 1;
    assert!(matches!(deserialize_snapshot_at(&bad_header, NOW), Err(SnapshotError::HeaderChecksumMismatch)));

    let mut extra = good.clone();
    extra.push(1);
    assert!(matches!(deserialize_snapshot_at(&extra, NOW), Err(SnapshotError::DataChecksumMismatch)));

    let body = record(b"key", b"value", None);
    let short = valid_snapshot(0, 2, &body);
    match deserialize_snapshot_at(&short, NOW) {
        Err(SnapshotError::Io(e)) => assert_eq!(e.kind(), std::io::ErrorKind::UnexpectedEof),
        Err(e) => panic!("{:?}", e),
        Ok(_) => panic!("loaded a truncated snapshot"),
    }
    let cut = valid_snapshot(0, 1, &body[..body.len() - 1]);
    assert!(matches!(deserialize_snapshot_at(&cut, NOW), Err(SnapshotError::Io(_))));
}

#[test]
fn io_errors_convert() {
    let e = std::io::Error::new(std::io::ErrorKind::NotFound, "missing");
    assert!(matches!(SnapshotError::from(e), SnapshotError::Io(_)));
}

#[test]
fn worker_steps() {
    let mut shard = Shard::new_at(ShardId(4), NOW);
    match shard.handle_event_at(WorkerEvent::Command(Command::Ping { message: None }), NOW) {
        WorkerAction::Reply(Response::Value(Some(v))) => assert_eq!(v.as_bytes(), b"PONG"),
        _ => panic!("expected a reply"),
    }
    assert!(matches!(shard.handle_event_at(WorkerEvent::TtlTick, NOW), WorkerAction::Continue));
    match shard.handle_event_at(WorkerEvent::SnapshotTick, NOW) {
        WorkerAction::Snapshot(req) => {
            assert_eq!(req.shard_id, ShardId(4));
            assert_eq!(req.data, serialize_shard_at(&shard, NOW));
        }
        _ => panic!("expected a snapshot"),
    }
    match shard.handle_event_at(WorkerEvent::Closed, NOW) {
        WorkerAction::Stop(req) => assert_eq!(req.data.len(), 64),
        _ => panic!("expected a stop"),
    }
}
