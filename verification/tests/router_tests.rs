use rsdragonfly::common::hash::crc16;
use rsdragonfly::common::shard_id::ShardId;
use rsdragonfly::frontend::router::Router;

#[test]
fn test_route_key_deterministic() {
    let key = b"mykey";
    let shard1 = Router::route_key(key);
    let shard2 = Router::route_key(key);
    assert_eq!(shard1, shard2);
}

#[test]
fn test_route_keys_grouping() {
    let keys = vec![b"key1".to_vec(), b"key2".to_vec(), b"key3".to_vec()];

    let grouped = Router::route_keys(&keys);

    // Verify all keys are grouped
    let total: usize = grouped.iter().map(|(_, v)| v.len()).sum();
    assert_eq!(total, 3);
}

#[test]
fn route_key_masks_the_hash() {
    for key in [&b"a"[..], b"foo", b"123456789", b""] {
        let expected = ShardId((crc16(key) & 63) as u16);
        assert_eq!(Router::route_key(key), expected);
    }
    assert_eq!(Router::route_key(b"123456789"), ShardId(0x2189 & 63));
}

#[test]
fn route_keys_orders_groups_by_first_key() {
    // Find keys on two different shards.
    let mut a = Vec::new();
    let mut b = Vec::new();
    let first = Router::route_key(b"k0");
    let mut i = 1;
    while a.len() < 2 || b.is_empty() {
        let k = format!("k{}", i).into_bytes();
        if Router::route_key(&k) == first {
            a.push(k);
        } else if b.is_empty() {
            b.push(k);
        }
        i += 1;
    }
    let keys = vec![b"k0".to_vec(), b[0].clone(), a[0].clone(), a[1].clone()];
    let grouped = Router::route_keys(&keys);
    assert_eq!(grouped.len(), 2);
    assert_eq!(grouped[0].0, first);
    assert_eq!(grouped[0].1, vec![b"k0".to_vec(), a[0].clone(), a[1].clone()]);
    assert_eq!(grouped[1].0, Router::route_key(&b[0]));
    assert_eq!(grouped[1].1, vec![b[0].clone()]);
}

#[test]
fn route_keys_of_nothing_is_empty() {
    let grouped = Router::route_keys(&[]);
    assert!(grouped.is_empty());
}

#[test]
fn route_keys_keeps_duplicates() {
    let keys = vec![b"same".to_vec(), b"same".to_vec()];
    let grouped = Router::route_keys(&keys);
    assert_eq!(grouped.len(), 1);
    assert_eq!(grouped[0].1.len(), 2);
}

#[test]
fn every_key_lands_once_in_its_shard_group() {
    let keys: Vec<Vec<u8>> = (0..200).map(|i| format!("user:{}", i % 150).into_bytes()).collect();
    let grouped = Router::route_keys(&keys);
    let mut seen = 0;
    for (i, (sid, ks)) in grouped.iter().enumerate() {
        assert!(!ks.is_empty());
        assert!(grouped[..i].iter().all(|(other, _)| other != sid));
        let expected: Vec<Vec<u8>> = keys.iter().filter(|k| Router::route_key(k) == *sid).cloned().collect();
        assert_eq!(ks, &expected);
        seen += ks.len();
    }
    assert_eq!(seen, keys.len());
    for k in &keys {
        let sid = Router::route_key(k);
        assert!(grouped.iter().any(|(s, ks)| *s == sid && ks.contains(k)));
    }
}
