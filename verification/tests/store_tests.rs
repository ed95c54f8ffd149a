use smart_storage::codec::{decode_item, encode_item, payload_within_limit};
use smart_storage::fmt::u64_to_string;
use smart_storage::item::{SmartStorageItem, SmartStorageItemPayload};
use smart_storage::store::Store;
use smart_storage::text::str_contains;

fn payload(name: &str, description: &str, location: &str, is_available: bool) -> SmartStorageItemPayload {
    SmartStorageItemPayload {
        name: name.to_string(),
        description: description.to_string(),
        location: location.to_string(),
        is_available,
    }
}

fn guarded_create(store: &mut Store, p: SmartStorageItemPayload, now: u64) -> SmartStorageItem {
    assert!(payload_within_limit(&p));
    store.add_smart_storage_item(p, now).expect("creation returns the item")
}

#[test]
fn codec_round_trip_plain_item() {
    let item = SmartStorageItem {
        id: 1,
        name: "Box A".to_string(),
        description: "spare parts".to_string(),
        location: "Shelf 1".to_string(),
        created_at: 42,
        updated_at: None,
        is_available: true,
    };
    let bytes = encode_item(&item);
    assert!(bytes.len() <= 1024);
    let back = decode_item(&bytes).expect("an encoding decodes");
    assert_eq!(back, item);
}

#[test]
fn codec_round_trip_updated_and_unicode() {
    let item = SmartStorageItem {
        id: u64::MAX,
        name: "Boîte Ω".to_string(),
        description: "pièces détachées — 零件".to_string(),
        location: "Étagère №1".to_string(),
        created_at: u64::MAX,
        updated_at: Some(7),
        is_available: false,
    };
    let bytes = encode_item(&item);
    let back = decode_item(&bytes).expect("an encoding decodes");
    assert_eq!(back, item);
}

#[test]
fn codec_round_trip_empty_strings() {
    let item = SmartStorageItem {
        id: 3,
        name: String::new(),
        description: String::new(),
        location: String::new(),
        created_at: 0,
        updated_at: Some(0),
        is_available: false,
    };
    let bytes = encode_item(&item);
    assert_eq!(bytes.len(), 32);
    let back = decode_item(&bytes).expect("an encoding decodes");
    assert_eq!(back, item);
}

#[test]
fn codec_rejects_garbage() {
    assert!(decode_item(&Vec::new()).is_none());
    assert!(decode_item(&vec![0u8; 10]).is_none());
    // 26 fixed bytes but a bad updated_at tag
    let mut bytes = vec![0u8; 32];
    bytes[16] = 2;
    assert!(decode_item(&bytes).is_none());
}

#[test]
fn codec_size_limit() {
    let small = payload("Box A", "spare parts", "Shelf 1", true);
    assert!(payload_within_limit(&small));
    let big = payload(&"x".repeat(2000), "", "", true);
    assert!(!payload_within_limit(&big));
    // The bound counts all three texts together.
    let combined = payload(&"a".repeat(400), &"b".repeat(400), &"c".repeat(400), true);
    assert!(!payload_within_limit(&combined));
    let exact = payload(&"a".repeat(992), "", "", true);
    assert!(payload_within_limit(&exact));
    let above = payload(&"a".repeat(993), "", "", true);
    assert!(!payload_within_limit(&above));
}

#[test]
fn create_assigns_first_id_and_timestamps() {
    let mut store = Store::init();
    let item = guarded_create(&mut store, payload("Box A", "spare parts", "Shelf 1", true), 100);
    assert_eq!(item.id, 1);
    assert_eq!(item.created_at, 100);
    assert_eq!(item.updated_at, None);
    assert!(item.is_available);
    assert_eq!(item.name, "Box A");
}

#[test]
fn second_create_and_list_all_ordered() {
    let mut store = Store::init();
    let a = guarded_create(&mut store, payload("Box A", "spare parts", "Shelf 1", true), 100);
    let b = guarded_create(&mut store, payload("Box B", "bolts", "Shelf 2", true), 101);
    assert_eq!(a.id, 1);
    assert_eq!(b.id, 2);
    let all = store.get_all_smart_storage_items();
    assert_eq!(all.len(), 2);
    assert_eq!(all[0], a);
    assert_eq!(all[1], b);
}

#[test]
fn mark_unavailable_and_list_available() {
    let mut store = Store::init();
    let a = guarded_create(&mut store, payload("Box A", "spare parts", "Shelf 1", true), 100);
    let b = guarded_create(&mut store, payload("Box B", "bolts", "Shelf 2", true), 101);
    let marked = store.mark_item_as_unavailable(1, 150).expect("item 1 exists");
    assert_eq!(marked.id, 1);
    assert!(!marked.is_available);
    assert_eq!(marked.updated_at, Some(150));
    assert!(marked.updated_at.unwrap() > a.created_at);
    let available = store.get_available_smart_storage_items();
    assert_eq!(available.len(), 1);
    assert_eq!(available[0], b);
    assert_eq!(store.is_item_available(1).unwrap(), false);
    assert_eq!(store.is_item_available(2).unwrap(), true);
}

#[test]
fn mark_available_again() {
    let mut store = Store::init();
    guarded_create(&mut store, payload("Box A", "spare parts", "Shelf 1", false), 100);
    let marked = store.mark_item_as_available(1, 130).expect("item 1 exists");
    assert!(marked.is_available);
    assert_eq!(marked.updated_at, Some(130));
    let available = store.get_available_smart_storage_items();
    assert_eq!(available.len(), 1);
    assert_eq!(available[0].id, 1);
}

#[test]
fn search_matches_name_or_description() {
    let mut store = Store::init();
    let a = guarded_create(&mut store, payload("Box A", "spare parts", "Shelf 1", true), 100);
    let b = guarded_create(&mut store, payload("Box B", "bolts", "Shelf 2", true), 101);
    let spare = store.search_smart_storage_items("spare".to_string());
    assert_eq!(spare.len(), 1);
    assert_eq!(spare[0], a);
    let boxes = store.search_smart_storage_items("Box".to_string());
    assert_eq!(boxes.len(), 2);
    assert_eq!(boxes[0], a);
    assert_eq!(boxes[1], b);
    // case-sensitive: no normalization happens
    let lower = store.search_smart_storage_items("box".to_string());
    assert_eq!(lower.len(), 0);
}

#[test]
fn delete_returns_prior_item_and_id_is_not_reused() {
    let mut store = Store::init();
    let a = guarded_create(&mut store, payload("Box A", "spare parts", "Shelf 1", true), 100);
    guarded_create(&mut store, payload("Box B", "bolts", "Shelf 2", true), 101);
    let removed = store.delete_smart_storage_item(1).expect("item 1 exists");
    assert_eq!(removed, a);
    let read = store.get_smart_storage_item(1);
    assert!(read.is_err());
    let c = guarded_create(&mut store, payload("Box C", "nuts", "Shelf 3", true), 102);
    assert_eq!(c.id, 3);
    // a second delete of the same id reports not-found
    assert!(store.delete_smart_storage_item(1).is_err());
}

#[test]
fn update_overwrites_fields_and_stamps_time() {
    let mut store = Store::init();
    let a = guarded_create(&mut store, payload("Box A", "spare parts", "Shelf 1", true), 100);
    let p = payload("Box A2", "more parts", "Shelf 9", false);
    assert!(payload_within_limit(&p));
    let updated = store.update_smart_storage_item(1, p, 200).expect("item 1 exists");
    assert_eq!(updated.id, 1);
    assert_eq!(updated.created_at, a.created_at);
    assert_eq!(updated.updated_at, Some(200));
    assert_eq!(updated.name, "Box A2");
    assert_eq!(updated.description, "more parts");
    assert_eq!(updated.location, "Shelf 9");
    assert!(!updated.is_available);
    // the update is persisted, not only returned
    let read = store.get_smart_storage_item(1).expect("item 1 exists");
    assert_eq!(read, updated);
}

#[test]
fn update_missing_id_is_not_found_and_creates_nothing() {
    let mut store = Store::init();
    guarded_create(&mut store, payload("Box A", "spare parts", "Shelf 1", true), 100);
    let p = payload("ghost", "ghost", "ghost", true);
    assert!(payload_within_limit(&p));
    let r = store.update_smart_storage_item(99, p, 200);
    match r {
        Err(e) => assert_eq!(e.not_found_message(), "couldn't update an item with id=99. item not found"),
        Ok(_) => panic!("update of a missing id must fail"),
    }
    assert!(store.get_smart_storage_item(99).is_err());
    assert_eq!(store.get_all_smart_storage_items().len(), 1);
}

#[test]
fn not_found_symmetry_for_every_operation() {
    let mut store = Store::init();
    // never-created id
    assert!(store.get_smart_storage_item(5).is_err());
    assert!(store.is_item_available(5).is_err());
    assert!(store.mark_item_as_available(5, 10).is_err());
    assert!(store.mark_item_as_unavailable(5, 10).is_err());
    assert!(store.delete_smart_storage_item(5).is_err());
    let p = payload("x", "y", "z", true);
    assert!(payload_within_limit(&p));
    assert!(store.update_smart_storage_item(5, p, 10).is_err());
    // created then deleted id
    guarded_create(&mut store, payload("Box A", "spare parts", "Shelf 1", true), 100);
    store.delete_smart_storage_item(1).expect("item 1 exists");
    assert!(store.get_smart_storage_item(1).is_err());
    assert!(store.is_item_available(1).is_err());
    assert!(store.mark_item_as_available(1, 10).is_err());
    assert!(store.mark_item_as_unavailable(1, 10).is_err());
    assert!(store.delete_smart_storage_item(1).is_err());
    let q = payload("x", "y", "z", true);
    assert!(payload_within_limit(&q));
    assert!(store.update_smart_storage_item(1, q, 10).is_err());
}

#[test]
fn not_found_messages_name_id_and_operation() {
    let mut store = Store::init();
    let read_err = store.get_smart_storage_item(7).unwrap_err();
    assert_eq!(read_err.not_found_message(), "an item with id=7 not found");
    let delete_err = store.delete_smart_storage_item(7).unwrap_err();
    assert_eq!(delete_err.not_found_message(), "couldn't delete an item with id=7. item not found.");
}

#[test]
fn created_ids_strictly_increase_across_deletes() {
    let mut store = Store::init();
    let mut last: u64 = 0;
    for round in 0..5u64 {
        let item = guarded_create(&mut store, payload("Box", "parts", "Shelf", true), 100 + round);
        assert!(item.id > last);
        last = item.id;
        store.delete_smart_storage_item(item.id).expect("just created");
    }
    assert_eq!(last, 5);
}

#[test]
fn list_available_is_filter_of_list_all() {
    let mut store = Store::init();
    for i in 0..6u64 {
        guarded_create(&mut store, payload("Box", "parts", "Shelf", i % 2 == 0), 100 + i);
    }
    let all = store.get_all_smart_storage_items();
    let available = store.get_available_smart_storage_items();
    let filtered: Vec<_> = all.iter().filter(|it| it.is_available).cloned().collect();
    assert_eq!(available.len(), filtered.len());
    for (x, y) in available.iter().zip(filtered.iter()) {
        assert_eq!(x, y);
    }
}

#[test]
fn decimal_rendering() {
    assert_eq!(u64_to_string(0), "0");
    assert_eq!(u64_to_string(7), "7");
    assert_eq!(u64_to_string(10), "10");
    assert_eq!(u64_to_string(90210), "90210");
    assert_eq!(u64_to_string(u64::MAX), "18446744073709551615");
}

#[test]
fn substring_search_behaviour() {
    let hay = "spare parts".to_string();
    assert!(str_contains(&hay, &"spare".to_string()));
    assert!(str_contains(&hay, &"e p".to_string()));
    assert!(str_contains(&hay, &"".to_string()));
    assert!(str_contains(&hay, &"spare parts".to_string()));
    assert!(!str_contains(&hay, &"Spare".to_string()));
    assert!(!str_contains(&hay, &"spare parts!".to_string()));
    let uni = "Boîte Ω".to_string();
    assert!(str_contains(&uni, &"îte".to_string()));
    assert!(!str_contains(&uni, &"ite".to_string()));
}
