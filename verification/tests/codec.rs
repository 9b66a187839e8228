use std::collections::BTreeMap;

use pwm::codec::{deserialize_database, read_u64_le, serialize_database};
use pwm::db_base::Database;
use pwm::encryption::EncryptionResult;
use pwm::order::contains_bytes;

fn sample() -> (Database<EncryptionResult>, BTreeMap<String, Vec<u8>>) {
    let mut db = Database::new();
    let mut map = BTreeMap::new();
    for (name, value) in [("zeta", vec![1u8, 2, 3]), ("alpha", vec![9u8; 50]), ("mid", Vec::new())] {
        db.insert(name, EncryptionResult::new(value.clone()).unwrap()).unwrap();
        map.insert(name.to_string(), value);
    }
    (db, map)
}

#[test]
fn codec_matches_bincode_layout() {
    let (db, map) = sample();
    let ours = serialize_database(&db);
    let theirs = bincode::serialize(&map).unwrap();
    assert_eq!(ours, theirs);
}

#[test]
fn codec_round_trip() {
    let (db, _) = sample();
    let bytes = serialize_database(&db);
    let back = deserialize_database(&bytes).unwrap();
    assert_eq!(back.list().unwrap(), vec!["alpha", "mid", "zeta"]);
    assert_eq!(back.get("alpha").unwrap().as_slice(), &[9u8; 50][..]);
    assert_eq!(back.get("mid").unwrap().as_slice(), &[] as &[u8]);
    assert_eq!(back.get("zeta").unwrap().as_slice(), &[1u8, 2, 3][..]);
}

#[test]
fn codec_reads_bincode_output() {
    let mut map = BTreeMap::new();
    map.insert("k".to_string(), vec![7u8, 7]);
    let bytes = bincode::serialize(&map).unwrap();
    let db = deserialize_database(&bytes).unwrap();
    assert_eq!(db.get("k").unwrap().as_slice(), &[7u8, 7][..]);
}

#[test]
fn codec_refuses_truncated_and_bad_utf8() {
    let (db, _) = sample();
    let bytes = serialize_database(&db);
    assert!(deserialize_database(&bytes[..bytes.len() - 1]).is_none());
    assert!(deserialize_database(&[1, 2, 3]).is_none());
    // one entry whose name is the single byte 0xff
    let mut bad = vec![1u8, 0, 0, 0, 0, 0, 0, 0, 1, 0, 0, 0, 0, 0, 0, 0, 0xff];
    bad.extend_from_slice(&[0u8; 8]);
    assert!(deserialize_database(&bad).is_none());
    assert_eq!(read_u64_le(&[1, 2, 0, 0, 0, 0, 0, 0], 0), 0x0201);
}

#[test]
fn order_contains_bytes() {
    assert!(contains_bytes(b"user1", b"1"));
    assert!(contains_bytes(b"user1", b""));
    assert!(contains_bytes(b"user1", b"user1"));
    assert!(!contains_bytes(b"user1", b"user12"));
    assert!(!contains_bytes(b"user2", b"1"));
    assert!(contains_bytes(b"abcabd", b"abd"));
}
