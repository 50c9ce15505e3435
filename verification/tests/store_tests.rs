//! Durability behavior of the append-only block store.
use swift_db::block_store::{BlockStore, StoreError};

#[test]
fn append_returns_payload_positions() {
    let mut store = BlockStore::new();
    let p1 = store.write_block(vec![1, 2, 3]);
    let p2 = store.write_block(vec![4, 5]);
    assert_eq!(p1, 9);
    // The second block starts after marker + length + three payload
    // bytes of the first.
    assert_eq!(p2, 9 + 3 + 9);
}

#[test]
fn append_never_modifies_prior_bytes() {
    let mut store = BlockStore::new();
    store.write_block(vec![10, 20, 30]);
    let before = store.bytes.clone();
    store.write_block(vec![40, 50]);
    assert_eq!(&store.bytes[..before.len()], &before[..]);
}

#[test]
fn interleaved_append_and_delete_touch_one_marker_byte() {
    let mut store = BlockStore::new();
    let p1 = store.write_block(vec![10, 20, 30]);
    let p2 = store.write_block(vec![40, 50]);
    let before = store.bytes.clone();
    store.remove_block(p1).expect("delete failed");
    store.write_block(vec![60]);
    // Every old byte but the tombstoned marker is unchanged.
    for (i, b) in before.iter().enumerate() {
        if i == p1 - 9 {
            assert_eq!(store.bytes[i], 0x44);
        } else {
            assert_eq!(store.bytes[i], *b);
        }
    }
    assert_eq!(store.read_at_position(p2).expect("read failed"), vec![40, 50]);
}

#[test]
fn scan_skips_tombstones_and_never_yields_deleted_positions() {
    let mut store = BlockStore::new();
    let p1 = store.write_block(vec![1]);
    let p2 = store.write_block(vec![2]);
    let p3 = store.write_block(vec![3]);
    store.remove_block(p2).expect("delete failed");

    store.reset_position();
    let mut seen = Vec::new();
    loop {
        match store.next() {
            Ok((pos, payload)) => seen.push((pos, payload)),
            Err(StoreError::EndOfFile) => break,
            Err(e) => panic!("unexpected error {:?}", e),
        }
    }
    assert_eq!(seen, vec![(p1, vec![1]), (p3, vec![3])]);

    // The stale bytes are still readable at the deleted position.
    assert_eq!(store.read_at_position(p2).expect("read failed"), vec![2]);
}

#[test]
fn scan_of_empty_store_ends_immediately() {
    let mut store = BlockStore::new();
    store.reset_position();
    assert_eq!(store.next(), Err(StoreError::EndOfFile));
}

#[test]
fn read_at_invalid_position_is_rejected() {
    let mut store = BlockStore::new();
    let p1 = store.write_block(vec![7, 8]);
    assert_eq!(store.read_at_position(p1 + 1), Err(StoreError::InvalidPosition));
    assert_eq!(store.remove_block(0), Err(StoreError::InvalidPosition));
}

#[test]
fn delete_then_scan_then_append_then_scan() {
    let mut store = BlockStore::new();
    let p1 = store.write_block(vec![1, 1]);
    store.remove_block(p1).expect("delete failed");
    store.reset_position();
    assert_eq!(store.next(), Err(StoreError::EndOfFile));
    let p2 = store.write_block(vec![2, 2]);
    store.reset_position();
    assert_eq!(store.next(), Ok((p2, vec![2, 2])));
    assert_eq!(store.next(), Err(StoreError::EndOfFile));
}

#[test]
fn from_bytes_rejects_malformed_runs() {
    assert!(BlockStore::from_bytes(vec![0x45]).is_err());
    assert!(BlockStore::from_bytes(vec![0x00; 12]).is_err());
    let mut header_only = vec![0x45u8];
    header_only.extend_from_slice(&9u64.to_be_bytes());
    assert!(BlockStore::from_bytes(header_only).is_err());
    assert!(BlockStore::from_bytes(Vec::new()).is_ok());
}
