//! The typed-entry data model and its codec onto a sparse-column record.
//!
//! An [`Entry`] is the tagged value a caller stores under a key.  A
//! [`UserStorageEntry`] is its persisted form: one `entry_type` tag plus
//! five nullable typed columns, of which exactly one is populated.  The
//! codec between the two is total on entries and fails fast on records
//! whose tag names no known kind or a column that is null.

use vstd::pervasive::unreached;
use vstd::prelude::*;

use crate::error::Error;

verus! {

pub type Key = String;

pub type UserAddress = String;

/// The tagged value a caller stores under a key.
///
/// The binary payload is carried as base-58 text exactly as it arrived on
/// the wire; the JSON payload is carried as its serialized text.  This
/// layer preserves both strings bidirectionally and never re-interprets
/// them.
#[derive(Clone, Debug, PartialEq)]
pub enum Entry {
    Binary(String),
    Boolean(bool),
    Integer(i64),
    Json(String),
    String(String),
}

/// The mathematical shadow of an [`Entry`]: the same five kinds over
/// character sequences and plain scalars.
pub enum EntryView {
    Binary(Seq<char>),
    Boolean(bool),
    Integer(i64),
    Json(Seq<char>),
    String(Seq<char>),
}

impl View for Entry {
    type V = EntryView;

    open spec fn view(&self) -> EntryView {
        match self {
            Entry::Binary(s) => EntryView::Binary(s@),
            Entry::Boolean(b) => EntryView::Boolean(*b),
            Entry::Integer(i) => EntryView::Integer(*i),
            Entry::Json(s) => EntryView::Json(s@),
            Entry::String(s) => EntryView::String(s@),
        }
    }
}

/// The view of an optional entry.
pub open spec fn opt_entry_view(o: Option<Entry>) -> Option<EntryView> {
    match o {
        Some(e) => Some(e@),
        None => None,
    }
}

impl Entry {
    /// An explicit copy whose contract, unlike a derived clone's, is
    /// visible to callers.
    pub fn duplicate(&self) -> (r: Entry)
        ensures
            r == *self,
    {
        match self {
            Entry::Binary(s) => Entry::Binary(s.clone()),
            Entry::Boolean(b) => Entry::Boolean(*b),
            Entry::Integer(i) => Entry::Integer(*i),
            Entry::Json(s) => Entry::Json(s.clone()),
            Entry::String(s) => Entry::String(s.clone()),
        }
    }
}

/// A batch of key/optional-entry pairs, as the combined set-or-delete
/// endpoint receives them: a present entry means upsert, an absent one
/// means delete.
#[derive(Clone, Debug, PartialEq)]
pub struct KeyEntryList {
    pub entries: Vec<KeyEntryPair>,
}

/// A batch read's answer: one optional entry per requested key, in
/// request order.
#[derive(Clone, Debug, PartialEq)]
pub struct NullableEntryList {
    pub entries: Vec<Option<Entry>>,
}

impl View for NullableEntryList {
    type V = Seq<Option<EntryView>>;

    open spec fn view(&self) -> Seq<Option<EntryView>> {
        Seq::new(self.entries@.len(), |i: int| opt_entry_view(self.entries@[i]))
    }
}

/// One key with an optional entry.
#[derive(Clone, Debug, PartialEq)]
pub struct KeyEntryPair {
    pub key: Key,
    pub entry: Option<Entry>,
}

/// A batch of keys to read or delete.
#[derive(Clone, Debug, PartialEq)]
pub struct KeyList {
    pub keys: Vec<Key>,
}

/// A batch of keys, as the query-string form of the batch read carries
/// them.
#[derive(Clone, Debug, PartialEq)]
pub struct KeysRequest {
    pub keys: Vec<String>,
}

/// A sparse batch answer: a pair per requested key that was present,
/// `None` in the slots of absent keys.
#[derive(Clone, Debug, PartialEq)]
pub struct EntriesList {
    pub entries: Vec<Option<KeyEntryPair>>,
}

/// The persisted, sparse-column form of one stored value.
///
/// Identity is the pair (`key`, `user_addr`); `entry_type` names the one
/// populated column among the five typed ones.
#[derive(Clone, Debug)]
pub struct UserStorageEntry {
    pub key: Key,
    pub user_addr: UserAddress,
    pub entry_type: String,
    pub entry_value_binary: Option<String>,
    pub entry_value_boolean: Option<bool>,
    pub entry_value_integer: Option<i64>,
    pub entry_value_json: Option<String>,
    pub entry_value_string: Option<String>,
}

/// The mathematical shadow of a [`UserStorageEntry`].
pub struct RecordView {
    pub key: Seq<char>,
    pub user_addr: Seq<char>,
    pub entry_type: Seq<char>,
    pub entry_value_binary: Option<Seq<char>>,
    pub entry_value_boolean: Option<bool>,
    pub entry_value_integer: Option<i64>,
    pub entry_value_json: Option<Seq<char>>,
    pub entry_value_string: Option<Seq<char>>,
}

pub open spec fn opt_str_view(o: Option<String>) -> Option<Seq<char>> {
    match o {
        Some(s) => Some(s@),
        None => None,
    }
}

impl View for UserStorageEntry {
    type V = RecordView;

    open spec fn view(&self) -> RecordView {
        RecordView {
            key: self.key@,
            user_addr: self.user_addr@,
            entry_type: self.entry_type@,
            entry_value_binary: opt_str_view(self.entry_value_binary),
            entry_value_boolean: self.entry_value_boolean,
            entry_value_integer: self.entry_value_integer,
            entry_value_json: opt_str_view(self.entry_value_json),
            entry_value_string: opt_str_view(self.entry_value_string),
        }
    }
}

/// String equality by content, with the contract spelled out over views.
pub fn string_eq(a: &String, b: &str) -> (r: bool)
    ensures
        r == (a@ == b@),
{
    let bs: String = b.to_owned();
    *a == bs
}

/// What `encode` writes: the record for `e` under the identity
/// (`key`, `user_addr`), with exactly the column of `e`'s kind populated.
pub open spec fn spec_encode(user_addr: Seq<char>, key: Seq<char>, e: EntryView) -> RecordView {
    let empty = RecordView {
        key: key,
        user_addr: user_addr,
        entry_type: Seq::<char>::empty(),
        entry_value_binary: None,
        entry_value_boolean: None,
        entry_value_integer: None,
        entry_value_json: None,
        entry_value_string: None,
    };
    match e {
        EntryView::Binary(s) => RecordView {
            entry_type: "binary"@,
            entry_value_binary: Some(s),
            ..empty
        },
        EntryView::Boolean(b) => RecordView {
            entry_type: "boolean"@,
            entry_value_boolean: Some(b),
            ..empty
        },
        EntryView::Integer(i) => RecordView {
            entry_type: "integer"@,
            entry_value_integer: Some(i),
            ..empty
        },
        EntryView::Json(s) => RecordView { entry_type: "json"@, entry_value_json: Some(s), ..empty },
        EntryView::String(s) => RecordView {
            entry_type: "string"@,
            entry_value_string: Some(s),
            ..empty
        },
    }
}

/// What `decode` reads: `Some` entry when the tag is known and the column
/// it names is populated, `None` otherwise.  A record may only be decoded
/// by the column its tag names; nothing else is consulted.
pub open spec fn spec_decode(r: RecordView) -> Option<EntryView> {
    if r.entry_type == "binary"@ {
        match r.entry_value_binary {
            Some(s) => Some(EntryView::Binary(s)),
            None => None,
        }
    } else if r.entry_type == "boolean"@ {
        match r.entry_value_boolean {
            Some(b) => Some(EntryView::Boolean(b)),
            None => None,
        }
    } else if r.entry_type == "integer"@ {
        match r.entry_value_integer {
            Some(i) => Some(EntryView::Integer(i)),
            None => None,
        }
    } else if r.entry_type == "json"@ {
        match r.entry_value_json {
            Some(s) => Some(EntryView::Json(s)),
            None => None,
        }
    } else if r.entry_type == "string"@ {
        match r.entry_value_string {
            Some(s) => Some(EntryView::String(s)),
            None => None,
        }
    } else {
        None
    }
}

/// Record well-formedness: exactly one of the five typed columns is
/// populated, and it is the one named by `entry_type`.  Every record this
/// system writes satisfies it.
pub open spec fn record_wf(r: RecordView) -> bool {
    ||| (r.entry_type == "binary"@ && r.entry_value_binary is Some && r.entry_value_boolean is None
        && r.entry_value_integer is None && r.entry_value_json is None
        && r.entry_value_string is None)
    ||| (r.entry_type == "boolean"@ && r.entry_value_binary is None
        && r.entry_value_boolean is Some && r.entry_value_integer is None
        && r.entry_value_json is None && r.entry_value_string is None)
    ||| (r.entry_type == "integer"@ && r.entry_value_binary is None
        && r.entry_value_boolean is None && r.entry_value_integer is Some
        && r.entry_value_json is None && r.entry_value_string is None)
    ||| (r.entry_type == "json"@ && r.entry_value_binary is None && r.entry_value_boolean is None
        && r.entry_value_integer is None && r.entry_value_json is Some
        && r.entry_value_string is None)
    ||| (r.entry_type == "string"@ && r.entry_value_binary is None && r.entry_value_boolean is None
        && r.entry_value_integer is None && r.entry_value_json is None
        && r.entry_value_string is Some)
}

/// The five tag names are pairwise distinct character sequences.
pub proof fn lemma_tags_distinct()
    ensures
        "binary"@ != "boolean"@,
        "binary"@ != "integer"@,
        "binary"@ != "json"@,
        "binary"@ != "string"@,
        "boolean"@ != "integer"@,
        "boolean"@ != "json"@,
        "boolean"@ != "string"@,
        "integer"@ != "json"@,
        "integer"@ != "string"@,
        "json"@ != "string"@,
{
    reveal_strlit("binary");
    reveal_strlit("boolean");
    reveal_strlit("integer");
    reveal_strlit("json");
    reveal_strlit("string");
    assert("binary"@.len() == 6);
    assert("boolean"@.len() == 7);
    assert("integer"@.len() == 7);
    assert("json"@.len() == 4);
    assert("string"@.len() == 6);
    assert("integer"@[0] != "boolean"@[0]);
    assert("string"@[0] != "binary"@[0]);
}

impl UserStorageEntry {
    /// Whether this record is well-formed in the sense of [`record_wf`].
    pub open spec fn wf(&self) -> bool {
        record_wf(self@)
    }

    /// Encodes an entry into its persisted record under the given
    /// identity.  The result is well-formed and decodes back to the same
    /// entry: the codec loses nothing.
    pub fn encode(user_addr: UserAddress, key: Key, entry: Entry) -> (r: UserStorageEntry)
        ensures
            r@ == spec_encode(user_addr@, key@, entry@),
            r.wf(),
            spec_decode(r@) == Some(entry@),
    {
        proof {
            lemma_tags_distinct();
        }
        let blank = UserStorageEntry {
            key,
            user_addr,
            entry_type: String::new(),
            entry_value_binary: None,
            entry_value_boolean: None,
            entry_value_integer: None,
            entry_value_json: None,
            entry_value_string: None,
        };
        match entry {
            Entry::Binary(val) => UserStorageEntry {
                entry_type: "binary".to_owned(),
                entry_value_binary: Some(val),
                ..blank
            },
            Entry::Boolean(val) => UserStorageEntry {
                entry_type: "boolean".to_owned(),
                entry_value_boolean: Some(val),
                ..blank
            },
            Entry::Integer(val) => UserStorageEntry {
                entry_type: "integer".to_owned(),
                entry_value_integer: Some(val),
                ..blank
            },
            Entry::Json(val) => UserStorageEntry {
                entry_type: "json".to_owned(),
                entry_value_json: Some(val),
                ..blank
            },
            Entry::String(val) => UserStorageEntry {
                entry_type: "string".to_owned(),
                entry_value_string: Some(val),
                ..blank
            },
        }
    }

    /// Decodes this record back into the entry it stores.
    ///
    /// Fails if and only if the tag names no known kind or the column it
    /// names is null — on-disk corruption or a schema mismatch, which is
    /// surfaced, never silently coerced.
    pub fn decode(&self) -> (r: Result<Entry, Error>)
        ensures
            match r {
                Ok(e) => spec_decode(self@) == Some(e@),
                Err(e) => spec_decode(self@) is None && e is SerializationError,
            },
    {
        if string_eq(&self.entry_type, "binary") {
            match &self.entry_value_binary {
                Some(v) => Ok(Entry::Binary(v.clone())),
                None => Err(Error::SerializationError("binary column is null".to_owned())),
            }
        } else if string_eq(&self.entry_type, "boolean") {
            match &self.entry_value_boolean {
                Some(v) => Ok(Entry::Boolean(*v)),
                None => Err(Error::SerializationError("boolean column is null".to_owned())),
            }
        } else if string_eq(&self.entry_type, "integer") {
            match &self.entry_value_integer {
                Some(v) => Ok(Entry::Integer(*v)),
                None => Err(Error::SerializationError("integer column is null".to_owned())),
            }
        } else if string_eq(&self.entry_type, "json") {
            match &self.entry_value_json {
                Some(v) => Ok(Entry::Json(v.clone())),
                None => Err(Error::SerializationError("json column is null".to_owned())),
            }
        } else if string_eq(&self.entry_type, "string") {
            match &self.entry_value_string {
                Some(v) => Ok(Entry::String(v.clone())),
                None => Err(Error::SerializationError("string column is null".to_owned())),
            }
        } else {
            Err(Error::SerializationError("unknown entry type".to_owned()))
        }
    }
}

impl UserStorageEntry {
    /// Decodes a record known to be well-formed; such a decode cannot
    /// fail.
    pub fn decode_wf(&self) -> (r: Entry)
        requires
            self.wf(),
        ensures
            spec_decode(self@) == Some(r@),
    {
        proof {
            lemma_wf_record_decodes(self@);
        }
        match self.decode() {
            Ok(e) => e,
            Err(_) => unreached(),
        }
    }
}

/// Round trip: decoding an encoded record yields the entry back, for
/// every entry kind and every identity.
pub proof fn lemma_encode_decode_round_trip(user_addr: Seq<char>, key: Seq<char>, e: EntryView)
    ensures
        spec_decode(spec_encode(user_addr, key, e)) == Some(e),
{
    lemma_tags_distinct();
}

/// Every well-formed record decodes: the codec is total on what this
/// system writes.
pub proof fn lemma_wf_record_decodes(r: RecordView)
    requires
        record_wf(r),
    ensures
        spec_decode(r) is Some,
{
    lemma_tags_distinct();
}

} // verus!
