//! The reference store: interface semantics, batch alignment, upsert
//! and delete laws, owner scoping, and transaction atomicity.

use user_storage::error::Error;
use user_storage::models::{Entry, KeyEntryPair, UserStorageEntry};
use user_storage::store::{Store, TxOp};

fn a() -> String {
    "ownerA".to_string()
}

fn b() -> String {
    "ownerB".to_string()
}

#[test]
fn get_absent_is_none() {
    let store = Store::new();
    assert_eq!(store.get(&a(), &"k".to_string()), None);
}

#[test]
fn set_then_get() {
    let mut store = Store::new();
    let prev = store.set(&a(), &"k".to_string(), Entry::Integer(1));
    assert_eq!(prev, None);
    assert_eq!(store.get(&a(), &"k".to_string()), Some(Entry::Integer(1)));
}

#[test]
fn set_replaces_fully() {
    let mut store = Store::new();
    store.set(&a(), &"k".to_string(), Entry::String("old".to_string()));
    let prev = store.set(&a(), &"k".to_string(), Entry::Boolean(true));
    assert_eq!(prev, Some(Entry::String("old".to_string())));
    assert_eq!(store.get(&a(), &"k".to_string()), Some(Entry::Boolean(true)));
}

#[test]
fn set_twice_is_idempotent() {
    let mut once = Store::new();
    once.set(&a(), &"k".to_string(), Entry::Integer(5));
    let mut twice = Store::new();
    twice.set(&a(), &"k".to_string(), Entry::Integer(5));
    let prev = twice.set(&a(), &"k".to_string(), Entry::Integer(5));
    // The second call's previous value is the entry itself, and the
    // stored state is the same as after one call.
    assert_eq!(prev, Some(Entry::Integer(5)));
    assert_eq!(
        twice.get(&a(), &"k".to_string()),
        once.get(&a(), &"k".to_string())
    );
}

#[test]
fn mget_is_positionally_aligned() {
    let mut store = Store::new();
    store.set(&a(), &"k2".to_string(), Entry::Integer(2));
    let keys = vec!["k1".to_string(), "k2".to_string(), "k3".to_string()];
    let got = store.mget(&a(), &keys);
    assert_eq!(got, vec![None, Some(Entry::Integer(2)), None]);
}

#[test]
fn mget_empty_keys() {
    let store = Store::new();
    let got = store.mget(&a(), &Vec::new());
    assert_eq!(got, Vec::<Option<Entry>>::new());
}

#[test]
fn mdel_absent_key_is_fine() {
    let mut store = Store::new();
    store.set(&a(), &"other".to_string(), Entry::Boolean(false));
    store.mdel(&a(), &vec!["k".to_string()]);
    store.mdel(&a(), &vec!["k".to_string()]);
    assert_eq!(
        store.get(&a(), &"other".to_string()),
        Some(Entry::Boolean(false))
    );
}

#[test]
fn mdel_removes_listed_keys() {
    let mut store = Store::new();
    store.set(&a(), &"k1".to_string(), Entry::Integer(1));
    store.set(&a(), &"k2".to_string(), Entry::Integer(2));
    store.set(&a(), &"k3".to_string(), Entry::Integer(3));
    store.mdel(&a(), &vec!["k1".to_string(), "k3".to_string()]);
    assert_eq!(store.get(&a(), &"k1".to_string()), None);
    assert_eq!(store.get(&a(), &"k2".to_string()), Some(Entry::Integer(2)));
    assert_eq!(store.get(&a(), &"k3".to_string()), None);
}

#[test]
fn mset_upserts_all() {
    let mut store = Store::new();
    store.set(&a(), &"k1".to_string(), Entry::Integer(1));
    let records = vec![
        UserStorageEntry::encode(a(), "k1".to_string(), Entry::Integer(10)),
        UserStorageEntry::encode(a(), "k2".to_string(), Entry::Integer(20)),
    ];
    store.mset(records);
    assert_eq!(store.get(&a(), &"k1".to_string()), Some(Entry::Integer(10)));
    assert_eq!(store.get(&a(), &"k2".to_string()), Some(Entry::Integer(20)));
}

#[test]
fn owners_are_isolated() {
    let mut store = Store::new();
    store.set(&a(), &"k".to_string(), Entry::String("mine".to_string()));
    assert_eq!(store.get(&b(), &"k".to_string()), None);
    assert_eq!(
        store.get(&a(), &"k".to_string()),
        Some(Entry::String("mine".to_string()))
    );
}

#[test]
fn same_key_coexists_under_two_owners() {
    let mut store = Store::new();
    store.set(&a(), &"k".to_string(), Entry::Integer(1));
    store.set(&b(), &"k".to_string(), Entry::Integer(2));
    assert_eq!(store.get(&a(), &"k".to_string()), Some(Entry::Integer(1)));
    assert_eq!(store.get(&b(), &"k".to_string()), Some(Entry::Integer(2)));
}

#[test]
fn combined_batch_deletes_and_upserts() {
    let mut store = Store::new();
    store.set(&a(), &"ka".to_string(), Entry::Integer(1));
    let pairs = vec![
        KeyEntryPair {
            key: "ka".to_string(),
            entry: None,
        },
        KeyEntryPair {
            key: "kb".to_string(),
            entry: Some(Entry::String("fresh".to_string())),
        },
    ];
    let prev = store.set_entries(&a(), &pairs);
    assert_eq!(prev, vec![Some(Entry::Integer(1)), None]);
    assert_eq!(store.get(&a(), &"ka".to_string()), None);
    assert_eq!(
        store.get(&a(), &"kb".to_string()),
        Some(Entry::String("fresh".to_string()))
    );
}

#[test]
fn committed_transaction_applies_all() {
    let mut store = Store::new();
    store.set(&a(), &"ka".to_string(), Entry::Integer(1));
    let ops = vec![
        TxOp::MDel {
            user_addr: a(),
            keys: vec!["ka".to_string()],
        },
        TxOp::MSet {
            entries: vec![UserStorageEntry::encode(
                a(),
                "kb".to_string(),
                Entry::Integer(2),
            )],
        },
    ];
    assert!(store.run_transaction(ops, true).is_ok());
    assert_eq!(store.get(&a(), &"ka".to_string()), None);
    assert_eq!(store.get(&a(), &"kb".to_string()), Some(Entry::Integer(2)));
}

#[test]
fn rolled_back_transaction_applies_nothing() {
    let mut store = Store::new();
    store.set(&a(), &"ka".to_string(), Entry::Integer(1));
    let ops = vec![
        TxOp::MDel {
            user_addr: a(),
            keys: vec!["ka".to_string()],
        },
        TxOp::MSet {
            entries: vec![UserStorageEntry::encode(
                a(),
                "kb".to_string(),
                Entry::Integer(2),
            )],
        },
    ];
    match store.run_transaction(ops, false) {
        Err(Error::DriverError(_)) => {}
        other => panic!("expected a driver error, got {:?}", other),
    }
    // All or nothing: the delete did not happen either.
    assert_eq!(store.get(&a(), &"ka".to_string()), Some(Entry::Integer(1)));
    assert_eq!(store.get(&a(), &"kb".to_string()), None);
}
