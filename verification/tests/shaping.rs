//! Request shaping: validation, alignment of sparse answers, batch
//! planning, and not-found shaping.

use user_storage::api::{
    align_entries, plan_set_entries, require_found, validate_entries, validate_entry,
    MAX_JSON_PAYLOAD_SIZE,
};
use user_storage::error::Error;
use user_storage::models::{Entry, KeyEntryList, KeyEntryPair, UserStorageEntry};

fn owner() -> String {
    "3PAbc".to_string()
}

#[test]
fn small_json_passes_validation() {
    let e = Entry::Json("{\"a\":1}".to_string());
    assert!(validate_entry(&"k".to_string(), &e).is_ok());
}

#[test]
fn non_json_entries_always_pass_validation() {
    assert!(validate_entry(&"k".to_string(), &Entry::Binary("b".to_string())).is_ok());
    assert!(validate_entry(&"k".to_string(), &Entry::Boolean(true)).is_ok());
    assert!(validate_entry(&"k".to_string(), &Entry::Integer(i64::MIN)).is_ok());
    assert!(validate_entry(&"k".to_string(), &Entry::String("s".to_string())).is_ok());
}

#[test]
fn oversized_json_is_rejected_with_details() {
    let size = (MAX_JSON_PAYLOAD_SIZE + 1) as usize;
    let e = Entry::Json("x".repeat(size));
    match validate_entry(&"big".to_string(), &e) {
        Err(Error::ValidationError(param, Some(details))) => {
            assert_eq!(param, "big");
            assert_eq!(
                details[0],
                ("actual_size".to_string(), "1073741825".to_string())
            );
            assert_eq!(
                details[1],
                ("max_size".to_string(), "1073741824".to_string())
            );
        }
        other => panic!("expected a validation error, got {:?}", other),
    }
}

#[test]
fn batch_validation_accepts_all_valid() {
    let batch = KeyEntryList {
        entries: vec![
            KeyEntryPair {
                key: "k1".to_string(),
                entry: Some(Entry::Json("{}".to_string())),
            },
            KeyEntryPair {
                key: "k2".to_string(),
                entry: None,
            },
        ],
    };
    assert!(validate_entries(&batch).is_ok());
}

#[test]
fn align_entries_matches_key_order() {
    let found = vec![
        UserStorageEntry::encode(owner(), "k3".to_string(), Entry::Integer(3)),
        UserStorageEntry::encode(owner(), "k1".to_string(), Entry::Integer(1)),
    ];
    let keys = vec!["k1".to_string(), "k2".to_string(), "k3".to_string()];
    let list = align_entries(&keys, &found).unwrap();
    assert_eq!(
        list.entries,
        vec![Some(Entry::Integer(1)), None, Some(Entry::Integer(3))]
    );
}

#[test]
fn align_entries_surfaces_corruption() {
    let mut bad = UserStorageEntry::encode(owner(), "k1".to_string(), Entry::Integer(1));
    bad.entry_value_integer = None;
    match align_entries(&vec!["k1".to_string()], &vec![bad]) {
        Err(Error::SerializationError(_)) => {}
        other => panic!("expected a serialization error, got {:?}", other),
    }
}

#[test]
fn plan_splits_deletes_from_upserts() {
    let batch = KeyEntryList {
        entries: vec![
            KeyEntryPair {
                key: "ka".to_string(),
                entry: None,
            },
            KeyEntryPair {
                key: "kb".to_string(),
                entry: Some(Entry::Boolean(true)),
            },
            KeyEntryPair {
                key: "kc".to_string(),
                entry: None,
            },
        ],
    };
    let (dels, sets) = plan_set_entries(&owner(), &batch);
    assert_eq!(dels, vec!["ka".to_string(), "kc".to_string()]);
    assert_eq!(sets.len(), 1);
    assert_eq!(sets[0].key, "kb");
    assert_eq!(sets[0].user_addr, owner());
    assert_eq!(sets[0].entry_type, "boolean");
    assert_eq!(sets[0].entry_value_boolean, Some(true));
}

#[test]
fn require_found_shapes_absence_as_not_found() {
    assert_eq!(
        require_found("k".to_string(), Some(Entry::Integer(1))),
        Ok(Entry::Integer(1))
    );
    assert_eq!(
        require_found("k".to_string(), None),
        Err(Error::KeyNotFound("k".to_string()))
    );
}
