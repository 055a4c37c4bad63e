use img_server::store::ImageStore;
use img_server::store::StoreError;

#[test]
fn upload_then_get_round_trip() {
    let mut store = ImageStore::empty();
    let id = store.upload(vec![1u8, 2, 3]).unwrap();
    let got = store.get(&id);
    assert_eq!(got, Some(vec![1u8, 2, 3]));
}

#[test]
fn uploaded_bytes_survive_later_uploads() {
    let mut store = ImageStore::empty();
    let id_a = store.upload(vec![10u8, 20]).unwrap();
    let id_b = store.upload(vec![30u8]).unwrap();
    assert_eq!(store.get(&id_a), Some(vec![10u8, 20]));
    assert_eq!(store.get(&id_b), Some(vec![30u8]));
}

#[test]
fn get_on_empty_store_is_none() {
    let store = ImageStore::empty();
    assert_eq!(store.get(&String::from("0")), None);
    assert_eq!(store.get(&String::from("missing")), None);
}

#[test]
fn get_of_unassigned_identifier_is_none() {
    let mut store = ImageStore::empty();
    store.upload(vec![1u8]).unwrap();
    assert_eq!(store.get(&String::from("1")), None);
    assert_eq!(store.get(&String::from("7")), None);
    assert_eq!(store.get(&String::from("")), None);
}

#[test]
fn identical_bytes_get_distinct_identifiers() {
    let mut store = ImageStore::empty();
    let id_a = store.upload(vec![9u8, 9, 9]).unwrap();
    let id_b = store.upload(vec![9u8, 9, 9]).unwrap();
    assert_ne!(id_a, id_b);
    assert_eq!(store.get(&id_a), Some(vec![9u8, 9, 9]));
    assert_eq!(store.get(&id_b), Some(vec![9u8, 9, 9]));
}

#[test]
fn identifiers_are_decimal_counter_values() {
    let mut store = ImageStore::empty();
    assert_eq!(store.upload(vec![1u8]).unwrap(), "0");
    assert_eq!(store.upload(vec![2u8]).unwrap(), "1");
    assert_eq!(store.upload(vec![3u8]).unwrap(), "2");
}

#[test]
fn empty_payload_can_be_stored() {
    let mut store = ImageStore::empty();
    let id = store.upload(Vec::new()).unwrap();
    assert_eq!(store.get(&id), Some(Vec::new()));
}

#[test]
fn upload_fails_only_when_the_counter_is_exhausted() {
    let mut store = ImageStore { records: Vec::new(), next_id: u64::MAX };
    assert_eq!(store.upload(vec![1u8]), Err(StoreError::IdentifiersExhausted));
}
