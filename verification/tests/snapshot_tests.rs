use img_server::store::ImageStore;

#[test]
fn snapshot_restore_round_trip() {
    let mut store = ImageStore::empty();
    let id_a = store.upload(vec![1u8, 2, 3]).unwrap();
    let id_b = store.upload(vec![4u8]).unwrap();
    let id_c = store.upload(Vec::new()).unwrap();

    let restored = ImageStore::restore(&store.snapshot());
    assert_eq!(restored.get(&id_a), Some(vec![1u8, 2, 3]));
    assert_eq!(restored.get(&id_b), Some(vec![4u8]));
    assert_eq!(restored.get(&id_c), Some(Vec::new()));
    assert_eq!(restored.get(&String::from("3")), None);
}

#[test]
fn restored_store_continues_the_counter() {
    let mut store = ImageStore::empty();
    let id_a = store.upload(vec![1u8]).unwrap();
    let mut restored = ImageStore::restore(&store.snapshot());
    let id_b = restored.upload(vec![1u8]).unwrap();
    assert_ne!(id_a, id_b);
    assert_eq!(id_b, "1");
}

#[test]
fn snapshot_of_empty_store_round_trips() {
    let store = ImageStore::empty();
    let restored = ImageStore::restore(&store.snapshot());
    assert_eq!(restored.get(&String::from("0")), None);
    let mut restored = restored;
    assert_eq!(restored.upload(vec![5u8]).unwrap(), "0");
}

#[test]
fn restore_of_garbage_is_empty() {
    let restored = ImageStore::restore(&b"garbage that is no snapshot".to_vec());
    assert_eq!(restored.get(&String::from("0")), None);
    let mut restored = restored;
    assert_eq!(restored.upload(vec![5u8]).unwrap(), "0");
}

#[test]
fn restore_of_short_input_is_empty() {
    let restored = ImageStore::restore(&vec![1u8, 2, 3]);
    assert_eq!(restored.get(&String::from("0")), None);
    let restored = ImageStore::restore(&Vec::new());
    assert_eq!(restored.get(&String::from("0")), None);
}

#[test]
fn restore_of_truncated_entry_is_empty() {
    let mut store = ImageStore::empty();
    let id = store.upload(vec![9u8, 8, 7]).unwrap();
    let mut bytes = store.snapshot();
    bytes.pop();
    let restored = ImageStore::restore(&bytes);
    assert_eq!(restored.get(&id), None);
}

#[test]
fn restore_rejects_overlong_length_field() {
    // next counter 1, then one entry claiming far more bytes than follow
    let mut bytes = Vec::new();
    bytes.extend_from_slice(&1u64.to_le_bytes());
    bytes.extend_from_slice(&0u64.to_le_bytes());
    bytes.extend_from_slice(&1000u64.to_le_bytes());
    bytes.push(42);
    let restored = ImageStore::restore(&bytes);
    assert_eq!(restored.get(&String::from("0")), None);
}

#[test]
fn restore_rejects_counter_at_or_past_next() {
    // next counter 0, but an entry carries counter 0
    let mut bytes = Vec::new();
    bytes.extend_from_slice(&0u64.to_le_bytes());
    bytes.extend_from_slice(&0u64.to_le_bytes());
    bytes.extend_from_slice(&0u64.to_le_bytes());
    let restored = ImageStore::restore(&bytes);
    assert_eq!(restored.get(&String::from("0")), None);
}

#[test]
fn restore_rejects_unordered_counters() {
    // next counter 5, entries with counters 2 then 1
    let mut bytes = Vec::new();
    bytes.extend_from_slice(&5u64.to_le_bytes());
    bytes.extend_from_slice(&2u64.to_le_bytes());
    bytes.extend_from_slice(&0u64.to_le_bytes());
    bytes.extend_from_slice(&1u64.to_le_bytes());
    bytes.extend_from_slice(&0u64.to_le_bytes());
    let restored = ImageStore::restore(&bytes);
    assert_eq!(restored.get(&String::from("2")), None);
}

#[test]
fn restore_accepts_a_handwritten_snapshot() {
    // next counter 3, entries 0 -> [7], 2 -> [8, 9]
    let mut bytes = Vec::new();
    bytes.extend_from_slice(&3u64.to_le_bytes());
    bytes.extend_from_slice(&0u64.to_le_bytes());
    bytes.extend_from_slice(&1u64.to_le_bytes());
    bytes.push(7);
    bytes.extend_from_slice(&2u64.to_le_bytes());
    bytes.extend_from_slice(&2u64.to_le_bytes());
    bytes.push(8);
    bytes.push(9);
    let restored = ImageStore::restore(&bytes);
    assert_eq!(restored.get(&String::from("0")), Some(vec![7u8]));
    assert_eq!(restored.get(&String::from("2")), Some(vec![8u8, 9]));
    assert_eq!(restored.get(&String::from("1")), None);
    let mut restored = restored;
    assert_eq!(restored.upload(vec![1u8]).unwrap(), "3");
}
