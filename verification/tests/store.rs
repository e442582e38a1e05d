use std::time::Duration;

use idempotency::config::{DatabaseOption, DbConfig};
use idempotency::database::IDatabase;
use idempotency::error::StoreError;
use idempotency::memory::MemoryStore;
use idempotency::record::{IdempotencyTransaction, MessageStatusDef};

fn claim(store: &mut MemoryStore, key: &str, app_id: &str) -> IdempotencyTransaction {
    store.claim_or_observe(String::from(key), String::from(app_id)).unwrap()
}

fn complete(store: &mut MemoryStore, key: &str, app_id: &str, response: &str, ttl: Option<Duration>) {
    let record = IdempotencyTransaction::new(MessageStatusDef::Completed, String::from(response));
    store.put(String::from(key), String::from(app_id), record, ttl).unwrap();
}

fn remove(store: &mut MemoryStore, key: &str, app_id: &str) {
    store.delete(String::from(key), String::from(app_id)).unwrap();
}

fn held_at(store: &MemoryStore, full_key: &str) -> Option<(MessageStatusDef, String)> {
    store.read(&String::from(full_key)).map(|record| (record.status, record.response))
}

fn claim_through_the_contract<D: IDatabase>(store: &mut D, key: &str, app_id: &str) -> MessageStatusDef {
    match store.claim_or_observe(String::from(key), String::from(app_id)) {
        Ok(record) => record.status,
        Err(error) => panic!("the claim failed: {:?}", error),
    }
}

#[test]
fn claim_put_and_observe_an_order() {
    let mut store = MemoryStore::new(None);
    assert_eq!(held_at(&store, "tenant-A:order-1"), None);

    let first = claim(&mut store, "order-1", "tenant-A");
    assert_eq!(first.status, MessageStatusDef::Absent);
    assert_eq!(first.response, "");
    assert_eq!(
        held_at(&store, "tenant-A:order-1"),
        Some((MessageStatusDef::InProgress, String::new()))
    );

    let second = claim(&mut store, "order-1", "tenant-A");
    assert_eq!(second.status, MessageStatusDef::InProgress);
    assert_eq!(second.response, "");

    complete(&mut store, "order-1", "tenant-A", "42", None);

    let third = claim(&mut store, "order-1", "tenant-A");
    assert_eq!(third.status, MessageStatusDef::Completed);
    assert_eq!(third.response, "42");
    assert_eq!(
        held_at(&store, "tenant-A:order-1"),
        Some((MessageStatusDef::Completed, String::from("42")))
    );
}

#[test]
fn exactly_one_of_many_claims_owns_the_execution() {
    let mut store = MemoryStore::new(None);
    let mut owners = 0;
    let mut observers = 0;
    for _ in 0..25 {
        let seen = claim(&mut store, "payment-7", "tenant-A");
        if seen.is_claimed_by_caller() {
            owners += 1;
        } else {
            assert_eq!(seen.status, MessageStatusDef::InProgress);
            assert_eq!(seen.response, "");
            observers += 1;
        }
    }
    assert_eq!(owners, 1);
    assert_eq!(observers, 24);
}

#[test]
fn the_first_of_two_claims_is_the_owner() {
    let mut store = MemoryStore::new(None);
    assert!(claim(&mut store, "k", "a").is_claimed_by_caller());
    assert!(!claim(&mut store, "k", "a").is_claimed_by_caller());
}

#[test]
fn a_completed_record_is_never_seen_in_progress_again() {
    let mut store = MemoryStore::new(Some(Duration::from_secs(60)));
    claim(&mut store, "order-1", "tenant-A");
    complete(&mut store, "order-1", "tenant-A", "result", Some(Duration::from_secs(60)));
    for second in 0..=60u64 {
        store.advance_to(Duration::from_secs(second));
        claim(&mut store, "other", "tenant-A");
        remove(&mut store, "other", "tenant-A");
        let seen = claim(&mut store, "order-1", "tenant-A");
        assert_eq!(seen.status, MessageStatusDef::Completed);
        assert_eq!(seen.response, "result");
        assert_eq!(
            held_at(&store, "tenant-A:order-1"),
            Some((MessageStatusDef::Completed, String::from("result")))
        );
    }
}

#[test]
fn a_claim_does_not_touch_a_record_that_is_held() {
    let mut store = MemoryStore::new(None);
    complete(&mut store, "order-1", "tenant-A", "first", None);
    let seen = claim(&mut store, "order-1", "tenant-A");
    assert_eq!(seen.response, "first");
    assert_eq!(
        held_at(&store, "tenant-A:order-1"),
        Some((MessageStatusDef::Completed, String::from("first")))
    );
}

#[test]
fn delete_twice_succeeds_twice() {
    let mut store = MemoryStore::new(None);
    claim(&mut store, "order-1", "tenant-A");
    assert!(store.delete(String::from("order-1"), String::from("tenant-A")).is_ok());
    assert_eq!(held_at(&store, "tenant-A:order-1"), None);
    assert!(store.delete(String::from("order-1"), String::from("tenant-A")).is_ok());
    assert_eq!(held_at(&store, "tenant-A:order-1"), None);
}

#[test]
fn delete_of_a_key_that_never_existed_succeeds() {
    let mut store = MemoryStore::new(None);
    assert!(store.delete(String::from("ghost"), String::from("tenant-A")).is_ok());
    assert!(store.delete(String::from("ghost"), String::from("tenant-A")).is_ok());
    assert_eq!(held_at(&store, "tenant-A:ghost"), None);
}

#[test]
fn delete_lets_the_key_be_claimed_again() {
    let mut store = MemoryStore::new(None);
    assert!(claim(&mut store, "order-1", "tenant-A").is_claimed_by_caller());
    remove(&mut store, "order-1", "tenant-A");
    assert!(claim(&mut store, "order-1", "tenant-A").is_claimed_by_caller());
    assert_eq!(claim(&mut store, "order-1", "tenant-A").status, MessageStatusDef::InProgress);
}

#[test]
fn delete_removes_only_its_own_key() {
    let mut store = MemoryStore::new(None);
    complete(&mut store, "order-1", "tenant-A", "one", None);
    complete(&mut store, "order-2", "tenant-A", "two", None);
    complete(&mut store, "order-1", "tenant-B", "three", None);
    remove(&mut store, "order-1", "tenant-A");
    assert_eq!(held_at(&store, "tenant-A:order-1"), None);
    assert_eq!(
        held_at(&store, "tenant-A:order-2"),
        Some((MessageStatusDef::Completed, String::from("two")))
    );
    assert_eq!(
        held_at(&store, "tenant-B:order-1"),
        Some((MessageStatusDef::Completed, String::from("three")))
    );
}

#[test]
fn a_record_is_absent_beyond_its_expiry() {
    let mut store = MemoryStore::new(None);
    complete(&mut store, "order-1", "tenant-A", "v", Some(Duration::from_secs(1)));
    store.advance_to(Duration::from_millis(999));
    assert_eq!(claim(&mut store, "order-1", "tenant-A").status, MessageStatusDef::Completed);
    store.advance_to(Duration::from_secs(2));
    assert_eq!(held_at(&store, "tenant-A:order-1"), None);
    let seen = claim(&mut store, "order-1", "tenant-A");
    assert_eq!(seen.status, MessageStatusDef::Absent);
    assert_eq!(
        held_at(&store, "tenant-A:order-1"),
        Some((MessageStatusDef::InProgress, String::new()))
    );
}

#[test]
fn a_record_lives_through_its_deadline_and_no_longer() {
    let mut store = MemoryStore::new(None);
    complete(&mut store, "order-1", "tenant-A", "v", Some(Duration::from_secs(1)));
    store.advance_to(Duration::from_secs(1));
    assert_eq!(
        held_at(&store, "tenant-A:order-1"),
        Some((MessageStatusDef::Completed, String::from("v")))
    );
    store.advance_to(Duration::new(1, 1));
    assert_eq!(held_at(&store, "tenant-A:order-1"), None);
}

#[test]
fn the_expiry_counts_from_the_time_of_the_write() {
    let mut store = MemoryStore::new(None);
    store.advance_to(Duration::from_secs(100));
    complete(&mut store, "order-1", "tenant-A", "v", Some(Duration::from_secs(10)));
    store.advance_to(Duration::from_secs(110));
    assert!(held_at(&store, "tenant-A:order-1").is_some());
    store.advance_to(Duration::from_millis(110_001));
    assert!(held_at(&store, "tenant-A:order-1").is_none());
}

#[test]
fn a_record_without_expiry_stays() {
    let mut store = MemoryStore::new(None);
    complete(&mut store, "order-1", "tenant-A", "v", None);
    store.advance_to(Duration::from_secs(1_000_000_000));
    assert_eq!(
        held_at(&store, "tenant-A:order-1"),
        Some((MessageStatusDef::Completed, String::from("v")))
    );
    store.advance_to(Duration::MAX);
    assert_eq!(
        held_at(&store, "tenant-A:order-1"),
        Some((MessageStatusDef::Completed, String::from("v")))
    );
}

#[test]
fn an_abandoned_claim_expires_with_the_default_expiry() {
    let mut store = MemoryStore::new(Some(Duration::from_secs(5)));
    assert!(claim(&mut store, "order-1", "tenant-A").is_claimed_by_caller());
    store.advance_to(Duration::from_secs(5));
    assert_eq!(claim(&mut store, "order-1", "tenant-A").status, MessageStatusDef::InProgress);
    store.advance_to(Duration::from_secs(6));
    assert!(claim(&mut store, "order-1", "tenant-A").is_claimed_by_caller());
}

#[test]
fn a_put_without_expiry_falls_back_to_the_default() {
    let mut store = MemoryStore::new(Some(Duration::from_secs(5)));
    complete(&mut store, "order-1", "tenant-A", "v", None);
    store.advance_to(Duration::from_secs(5));
    assert!(held_at(&store, "tenant-A:order-1").is_some());
    store.advance_to(Duration::from_secs(6));
    assert!(held_at(&store, "tenant-A:order-1").is_none());
}

#[test]
fn an_expiry_given_with_the_put_overrides_the_default() {
    let mut store = MemoryStore::new(Some(Duration::from_secs(5)));
    complete(&mut store, "short", "tenant-A", "v", Some(Duration::from_secs(1)));
    complete(&mut store, "long", "tenant-A", "v", Some(Duration::from_secs(50)));
    store.advance_to(Duration::from_secs(2));
    assert!(held_at(&store, "tenant-A:short").is_none());
    assert!(held_at(&store, "tenant-A:long").is_some());
    store.advance_to(Duration::from_secs(6));
    assert!(held_at(&store, "tenant-A:long").is_some());
    store.advance_to(Duration::from_secs(51));
    assert!(held_at(&store, "tenant-A:long").is_none());
}

#[test]
fn a_put_renews_the_expiry() {
    let mut store = MemoryStore::new(None);
    complete(&mut store, "order-1", "tenant-A", "v1", Some(Duration::from_secs(10)));
    store.advance_to(Duration::from_secs(8));
    complete(&mut store, "order-1", "tenant-A", "v2", Some(Duration::from_secs(10)));
    store.advance_to(Duration::from_secs(15));
    assert_eq!(
        held_at(&store, "tenant-A:order-1"),
        Some((MessageStatusDef::Completed, String::from("v2")))
    );
    store.advance_to(Duration::from_secs(19));
    assert!(held_at(&store, "tenant-A:order-1").is_none());
}

#[test]
fn a_zero_expiry_ends_as_soon_as_the_clock_moves() {
    let mut store = MemoryStore::new(None);
    complete(&mut store, "order-1", "tenant-A", "v", Some(Duration::ZERO));
    assert!(held_at(&store, "tenant-A:order-1").is_some());
    store.advance_to(Duration::from_nanos(1));
    assert!(held_at(&store, "tenant-A:order-1").is_none());
}

#[test]
fn the_clock_counts_nanoseconds_and_never_runs_backwards() {
    let mut store = MemoryStore::new(None);
    assert_eq!(store.now_nanos(), 0);
    store.advance_to(Duration::from_secs(5));
    assert_eq!(store.now_nanos(), 5_000_000_000);
    store.advance_to(Duration::from_secs(2));
    assert_eq!(store.now_nanos(), 5_000_000_000);
    store.advance_to(Duration::new(5, 1));
    assert_eq!(store.now_nanos(), 5_000_000_001);
}

#[test]
fn moving_the_clock_drops_only_what_has_expired() {
    let mut store = MemoryStore::new(None);
    complete(&mut store, "a", "t", "1", Some(Duration::from_secs(1)));
    complete(&mut store, "b", "t", "2", Some(Duration::from_secs(3)));
    complete(&mut store, "c", "t", "3", None);
    complete(&mut store, "d", "t", "4", Some(Duration::from_secs(1)));
    complete(&mut store, "e", "t", "5", Some(Duration::from_secs(2)));
    store.advance_to(Duration::from_secs(2));
    assert!(held_at(&store, "t:a").is_none());
    assert_eq!(held_at(&store, "t:b"), Some((MessageStatusDef::Completed, String::from("2"))));
    assert_eq!(held_at(&store, "t:c"), Some((MessageStatusDef::Completed, String::from("3"))));
    assert!(held_at(&store, "t:d").is_none());
    assert_eq!(held_at(&store, "t:e"), Some((MessageStatusDef::Completed, String::from("5"))));
}

#[test]
fn put_overwrites_whatever_is_held() {
    let mut store = MemoryStore::new(None);
    complete(&mut store, "order-1", "tenant-A", "first", None);
    complete(&mut store, "order-1", "tenant-A", "second", None);
    assert_eq!(
        held_at(&store, "tenant-A:order-1"),
        Some((MessageStatusDef::Completed, String::from("second")))
    );
    let marker = IdempotencyTransaction::new_from_status(MessageStatusDef::InProgress);
    store.put(String::from("order-1"), String::from("tenant-A"), marker, None).unwrap();
    assert_eq!(
        held_at(&store, "tenant-A:order-1"),
        Some((MessageStatusDef::InProgress, String::new()))
    );
}

#[test]
fn put_creates_a_record_where_none_is_held() {
    let mut store = MemoryStore::new(None);
    complete(&mut store, "order-9", "tenant-A", "made", None);
    let seen = claim(&mut store, "order-9", "tenant-A");
    assert_eq!(seen.status, MessageStatusDef::Completed);
    assert_eq!(seen.response, "made");
}

#[test]
fn put_refuses_the_absent_record() {
    let mut store = MemoryStore::new(None);
    complete(&mut store, "order-1", "tenant-A", "kept", None);
    let absent = IdempotencyTransaction::new_default_none();
    match store.put(String::from("order-1"), String::from("tenant-A"), absent, None) {
        Err(StoreError::Serialization(text)) => {
            assert_eq!(text, "a record of status Absent is not stored")
        }
        other => panic!("expected a serialization error, got {:?}", other),
    }
    assert_eq!(
        held_at(&store, "tenant-A:order-1"),
        Some((MessageStatusDef::Completed, String::from("kept")))
    );
    let absent = IdempotencyTransaction::new(MessageStatusDef::Absent, String::from("payload"));
    assert!(store.put(String::from("fresh"), String::from("tenant-A"), absent, None).is_err());
    assert_eq!(held_at(&store, "tenant-A:fresh"), None);
}

#[test]
fn tenants_do_not_share_records() {
    let mut store = MemoryStore::new(None);
    assert!(claim(&mut store, "order-1", "tenant-A").is_claimed_by_caller());
    assert!(claim(&mut store, "order-1", "tenant-B").is_claimed_by_caller());
    complete(&mut store, "order-1", "tenant-A", "a", None);
    assert_eq!(claim(&mut store, "order-1", "tenant-B").status, MessageStatusDef::InProgress);
    assert_eq!(claim(&mut store, "order-1", "tenant-A").status, MessageStatusDef::Completed);
}

#[test]
fn read_does_not_claim() {
    let store = MemoryStore::new(None);
    assert_eq!(held_at(&store, "tenant-A:order-1"), None);
    assert_eq!(held_at(&store, "tenant-A:order-1"), None);
    let mut store = store;
    assert!(claim(&mut store, "order-1", "tenant-A").is_claimed_by_caller());
}

#[test]
fn the_returned_record_is_a_snapshot() {
    let mut store = MemoryStore::new(None);
    complete(&mut store, "order-1", "tenant-A", "stored", None);
    let mut seen = claim(&mut store, "order-1", "tenant-A");
    seen.response.push_str(" and changed");
    seen.status = MessageStatusDef::InProgress;
    assert_eq!(
        held_at(&store, "tenant-A:order-1"),
        Some((MessageStatusDef::Completed, String::from("stored")))
    );
}

#[test]
fn a_store_is_used_through_its_contract() {
    let mut store = MemoryStore::new(None);
    assert_eq!(claim_through_the_contract(&mut store, "k", "a"), MessageStatusDef::Absent);
    assert_eq!(claim_through_the_contract(&mut store, "k", "a"), MessageStatusDef::InProgress);
}

#[test]
fn a_store_is_built_from_a_complete_configuration() {
    let config = DbConfig {
        url: String::from("store://localhost"),
        table_name: None,
        keyspace: None,
        ttl: Some(Duration::from_secs(3)),
        database_option: DatabaseOption::Redis,
    };
    let mut store = MemoryStore::from_config(&config).unwrap();
    assert_eq!(store.now_nanos(), 0);
    assert!(claim(&mut store, "order-1", "tenant-A").is_claimed_by_caller());
    store.advance_to(Duration::from_secs(4));
    assert!(claim(&mut store, "order-1", "tenant-A").is_claimed_by_caller());
}

#[test]
fn an_incomplete_configuration_builds_no_store() {
    let config = DbConfig {
        url: String::from("store://localhost"),
        table_name: Some(String::from("records")),
        keyspace: None,
        ttl: None,
        database_option: DatabaseOption::Cassandra,
    };
    match MemoryStore::from_config(&config) {
        Err(StoreError::Configuration(text)) => assert_eq!(text, "keyspace is required"),
        Err(other) => panic!("expected a configuration error, got {:?}", other),
        Ok(_) => panic!("an incomplete configuration built a store"),
    }
}
