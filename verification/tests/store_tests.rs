use chatcmd::codec::encode_fields;
use chatcmd::handlers::{query_profile, set_profile};
use chatcmd::store::{ProfileRecord, Store, StoreError};

#[test]
fn save_then_load_round_trip() {
    let mut store = Store::new();
    let rec = ProfileRecord { key: "bob".to_string(), description: "a tester".to_string() };
    store.save(&rec).unwrap();
    let back = store.load("bob").unwrap();
    assert_eq!(back.key, "bob");
    assert_eq!(back.description, "a tester");
}

#[test]
fn load_is_case_insensitive_through_folded_keys() {
    let mut store = Store::new();
    let rec = ProfileRecord::new("Bob", "a tester");
    assert_eq!(rec.key, "bob");
    store.save(&rec).unwrap();
    assert_eq!(store.load("bob").unwrap().description, "a tester");
}

#[test]
fn load_of_missing_key_is_a_read_error() {
    let store = Store::new();
    assert!(matches!(store.load("carol"), Err(StoreError::Read)));
}

#[test]
fn load_of_corrupt_entry_is_a_read_error() {
    let mut store = Store::new();
    store.insert_raw("bob", "garbage that is no record");
    assert!(matches!(store.load("bob"), Err(StoreError::Read)));
}

#[test]
fn last_write_wins() {
    let mut store = Store::new();
    store.save(&ProfileRecord { key: "bob".to_string(), description: "old".to_string() }).unwrap();
    store.save(&ProfileRecord { key: "bob".to_string(), description: "new".to_string() }).unwrap();
    assert_eq!(store.load("bob").unwrap().description, "new");
}

#[test]
fn refusing_store_fails_writes_and_keeps_old_records() {
    let mut store = Store::new_failing();
    store.insert_raw("bob", &encode_fields("bob", "the old text"));
    let r = store.save(&ProfileRecord { key: "bob".to_string(), description: "new".to_string() });
    assert!(matches!(r, Err(StoreError::Write)));
    assert_eq!(store.load("bob").unwrap().description, "the old text");
}

#[test]
fn set_profile_reports_write_failure_and_keeps_old_record() {
    let mut store = Store::new_failing();
    store.insert_raw("bob", &encode_fields("bob", "the old text"));
    let reply = set_profile("something new", "bob", &mut store);
    assert_eq!(reply, "bob: Something went wrong.");
    assert_eq!(query_profile("bob", "alice", true, &store), "alice: bob is the old text");
}

#[test]
fn raw_entry_returns_the_stored_text() {
    let mut store = Store::new();
    store.save(&ProfileRecord { key: "bob".to_string(), description: "a tester".to_string() }).unwrap();
    assert_eq!(
        store.raw_entry("bob").unwrap(),
        "{\"nickname\":\"bob\",\"description\":\"a tester\"}"
    );
    assert!(store.raw_entry("carol").is_none());
}
