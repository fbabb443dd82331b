//! The entry codec: round trips, tags, and failure on bad records.

use user_storage::error::Error;
use user_storage::models::{Entry, UserStorageEntry};

fn owner() -> String {
    "3PAbc".to_string()
}

#[test]
fn round_trip_binary() {
    let e = Entry::Binary("11yQm".to_string());
    let rec = UserStorageEntry::encode(owner(), "k1".to_string(), e.clone());
    assert_eq!(rec.decode().unwrap(), e);
}

#[test]
fn round_trip_boolean() {
    let e = Entry::Boolean(true);
    let rec = UserStorageEntry::encode(owner(), "k2".to_string(), e.clone());
    assert_eq!(rec.decode().unwrap(), e);
}

#[test]
fn round_trip_integer() {
    let e = Entry::Integer(-42);
    let rec = UserStorageEntry::encode(owner(), "k3".to_string(), e.clone());
    assert_eq!(rec.decode().unwrap(), e);
}

#[test]
fn round_trip_json() {
    let e = Entry::Json("{\"a\":[1,2,{\"b\":null}]}".to_string());
    let rec = UserStorageEntry::encode(owner(), "k4".to_string(), e.clone());
    assert_eq!(rec.decode().unwrap(), e);
}

#[test]
fn round_trip_string() {
    let e = Entry::String("hello world".to_string());
    let rec = UserStorageEntry::encode(owner(), "k5".to_string(), e.clone());
    assert_eq!(rec.decode().unwrap(), e);
}

#[test]
fn encode_populates_exactly_one_column() {
    let rec = UserStorageEntry::encode(owner(), "k".to_string(), Entry::Integer(7));
    assert_eq!(rec.entry_type, "integer");
    assert_eq!(rec.key, "k");
    assert_eq!(rec.user_addr, owner());
    assert!(rec.entry_value_binary.is_none());
    assert!(rec.entry_value_boolean.is_none());
    assert_eq!(rec.entry_value_integer, Some(7));
    assert!(rec.entry_value_json.is_none());
    assert!(rec.entry_value_string.is_none());
}

#[test]
fn encode_keeps_binary_text_exactly() {
    let b58 = "11yQm42AbcXYZ".to_string();
    let rec = UserStorageEntry::encode(owner(), "k".to_string(), Entry::Binary(b58.clone()));
    assert_eq!(rec.entry_type, "binary");
    assert_eq!(rec.entry_value_binary, Some(b58));
}

#[test]
fn decode_unknown_tag_fails() {
    let mut rec = UserStorageEntry::encode(owner(), "k".to_string(), Entry::Boolean(false));
    rec.entry_type = "timestamp".to_string();
    match rec.decode() {
        Err(Error::SerializationError(_)) => {}
        other => panic!("expected a serialization error, got {:?}", other),
    }
}

#[test]
fn decode_null_named_column_fails() {
    let mut rec = UserStorageEntry::encode(owner(), "k".to_string(), Entry::Boolean(false));
    rec.entry_value_boolean = None;
    match rec.decode() {
        Err(Error::SerializationError(_)) => {}
        other => panic!("expected a serialization error, got {:?}", other),
    }
}

#[test]
fn decode_reads_only_the_named_column() {
    let mut rec = UserStorageEntry::encode(owner(), "k".to_string(), Entry::Integer(9));
    // A mismatched extra column does not confuse the decoder: the tag
    // names the integer column and that is what is read.
    rec.entry_value_string = Some("stray".to_string());
    assert_eq!(rec.decode().unwrap(), Entry::Integer(9));
}
