//! The storage-interface semantics: an in-memory table of records.
//!
//! This is the reference backend.  It pins down, in one verified place,
//! what `get`, `mget`, `set`, `mset`, `mdel` and the combined
//! set-or-delete batch mean: the store is a finite map from the identity
//! pair (owner, key) to an entry, every write is a full replacement, and
//! batch reads come back positionally aligned with the requested keys.
//! The network backends promise the same semantics against their remote
//! stores; callers and tests can hold them to this model.

use vstd::prelude::*;

use crate::error::Error;
use crate::models::{
    Entry,
    EntryView,
    KeyEntryPair,
    RecordView,
    UserStorageEntry,
    opt_entry_view,
    record_wf,
    spec_decode,
    string_eq,
};

verus! {

/// The identity of a record: the pair (owner, key).
pub open spec fn record_id(r: RecordView) -> (Seq<char>, Seq<char>) {
    (r.user_addr, r.key)
}

/// The entry a record stores, meaningful on well-formed records.
pub open spec fn record_entry(r: RecordView) -> EntryView {
    spec_decode(r)->Some_0
}

/// The views of a sequence of records.
pub open spec fn rviews(s: Seq<UserStorageEntry>) -> Seq<RecordView> {
    Seq::new(s.len(), |i: int| s[i]@)
}

/// No two records in the sequence share an identity.
pub open spec fn ids_unique(s: Seq<RecordView>) -> bool {
    forall|i: int, j: int|
        0 <= i < j < s.len() ==> record_id(#[trigger] s[i]) != record_id(#[trigger] s[j])
}

/// The finite map a sequence of records denotes: later records win,
/// though under [`ids_unique`] there is nothing to win over.
pub open spec fn records_map(s: Seq<RecordView>) -> Map<(Seq<char>, Seq<char>), EntryView>
    decreases s.len(),
{
    if s.len() == 0 {
        Map::empty()
    } else {
        records_map(s.drop_last()).insert(record_id(s.last()), record_entry(s.last()))
    }
}

/// A key is in the denoted map exactly when some record carries it.
pub proof fn lemma_records_map_contains(s: Seq<RecordView>, id: (Seq<char>, Seq<char>))
    ensures
        records_map(s).contains_key(id) <==> exists|i: int|
            0 <= i < s.len() && record_id(#[trigger] s[i]) == id,
    decreases s.len(),
{
    if s.len() > 0 {
        lemma_records_map_contains(s.drop_last(), id);
        if record_id(s.last()) == id {
            assert(record_id(s[s.len() - 1]) == id);
        } else if records_map(s).contains_key(id) {
            let i = choose|i: int| 0 <= i < s.drop_last().len() && record_id(
                #[trigger] s.drop_last()[i],
            ) == id;
            assert(record_id(s[i]) == id);
        } else {
            assert forall|i: int| 0 <= i < s.len() implies record_id(#[trigger] s[i]) != id by {
                if i < s.len() - 1 {
                    assert(s.drop_last()[i] == s[i]);
                }
            }
        }
    }
}

/// Under unique identities, the denoted map sends each record's identity
/// to that record's entry.
pub proof fn lemma_records_map_index(s: Seq<RecordView>, i: int)
    requires
        ids_unique(s),
        0 <= i < s.len(),
    ensures
        records_map(s).contains_key(record_id(s[i])),
        records_map(s)[record_id(s[i])] == record_entry(s[i]),
    decreases s.len(),
{
    if i == s.len() - 1 {
    } else {
        assert(s.drop_last()[i] == s[i]);
        assert(ids_unique(s.drop_last())) by {
            assert forall|a: int, b: int| 0 <= a < b < s.drop_last().len() implies record_id(
                #[trigger] s.drop_last()[a],
            ) != record_id(#[trigger] s.drop_last()[b]) by {
                assert(s.drop_last()[a] == s[a]);
                assert(s.drop_last()[b] == s[b]);
            }
        }
        lemma_records_map_index(s.drop_last(), i);
        assert(record_id(s[i]) != record_id(s[s.len() - 1]));
    }
}

/// Appending a record inserts its entry under its identity.
pub proof fn lemma_records_map_push(s: Seq<RecordView>, r: RecordView)
    ensures
        records_map(s.push(r)) == records_map(s).insert(record_id(r), record_entry(r)),
{
    assert(s.push(r).drop_last() =~= s);
    assert(s.push(r).last() == r);
}

/// Removing the record at `i` removes its identity from the denoted map.
pub proof fn lemma_records_map_remove(s: Seq<RecordView>, i: int)
    requires
        ids_unique(s),
        0 <= i < s.len(),
    ensures
        records_map(s.remove(i)) == records_map(s).remove(record_id(s[i])),
    decreases s.len(),
{
    let id = record_id(s[i]);
    if i == s.len() - 1 {
        assert(s.remove(i) =~= s.drop_last());
        lemma_records_map_contains(s.drop_last(), id);
        assert forall|j: int| 0 <= j < s.drop_last().len() implies record_id(
            #[trigger] s.drop_last()[j],
        ) != id by {
            assert(s.drop_last()[j] == s[j]);
        }
        assert(!records_map(s.drop_last()).contains_key(id));
        assert(records_map(s).remove(id) =~= records_map(s.drop_last()));
    } else {
        let dl = s.drop_last();
        assert(ids_unique(dl)) by {
            assert forall|a: int, b: int| 0 <= a < b < dl.len() implies record_id(
                #[trigger] dl[a],
            ) != record_id(#[trigger] dl[b]) by {
                assert(dl[a] == s[a]);
                assert(dl[b] == s[b]);
            }
        }
        assert(dl[i] == s[i]);
        lemma_records_map_remove(dl, i);
        assert(s.remove(i).last() == s.last());
        assert(s.remove(i).drop_last() =~= dl.remove(i));
        assert(record_id(s.last()) != id);
        assert(records_map(dl).remove(id).insert(record_id(s.last()), record_entry(s.last()))
            =~= records_map(dl).insert(record_id(s.last()), record_entry(s.last())).remove(id));
    }
}

/// Removing a record keeps the remaining identities pairwise distinct.
pub proof fn lemma_ids_unique_remove(s: Seq<RecordView>, i: int)
    requires
        ids_unique(s),
        0 <= i < s.len(),
    ensures
        ids_unique(s.remove(i)),
{
    assert forall|a: int, b: int| 0 <= a < b < s.remove(i).len() implies record_id(
        #[trigger] s.remove(i)[a],
    ) != record_id(#[trigger] s.remove(i)[b]) by {
        if a < i {
            assert(s.remove(i)[a] == s[a]);
        } else {
            assert(s.remove(i)[a] == s[a + 1]);
        }
        if b < i {
            assert(s.remove(i)[b] == s[b]);
        } else {
            assert(s.remove(i)[b] == s[b + 1]);
        }
    }
}

/// Looks an identity up in a denoted map: `Some` entry or absence.
pub open spec fn map_get(
    m: Map<(Seq<char>, Seq<char>), EntryView>,
    user_addr: Seq<char>,
    key: Seq<char>,
) -> Option<EntryView> {
    if m.contains_key((user_addr, key)) {
        Some(m[(user_addr, key)])
    } else {
        None
    }
}

/// The views of a sequence of keys.
pub open spec fn key_views(ks: Seq<String>) -> Seq<Seq<char>> {
    Seq::new(ks.len(), |i: int| ks[i]@)
}

/// The map after deleting the given keys under one owner, in order.
pub open spec fn keys_removed(
    m: Map<(Seq<char>, Seq<char>), EntryView>,
    user_addr: Seq<char>,
    ks: Seq<Seq<char>>,
) -> Map<(Seq<char>, Seq<char>), EntryView>
    decreases ks.len(),
{
    if ks.len() == 0 {
        m
    } else {
        keys_removed(m, user_addr, ks.drop_last()).remove((user_addr, ks.last()))
    }
}

/// The map after upserting the given records, in order.
pub open spec fn records_upserted(
    m: Map<(Seq<char>, Seq<char>), EntryView>,
    rs: Seq<RecordView>,
) -> Map<(Seq<char>, Seq<char>), EntryView>
    decreases rs.len(),
{
    if rs.len() == 0 {
        m
    } else {
        records_upserted(m, rs.drop_last()).insert(
            record_id(rs.last()),
            record_entry(rs.last()),
        )
    }
}

/// The in-memory reference store: a table of well-formed records with
/// pairwise distinct identities, viewed as a finite map from (owner, key)
/// to the stored entry.
pub struct Store {
    records: Vec<UserStorageEntry>,
}

impl View for Store {
    type V = Map<(Seq<char>, Seq<char>), EntryView>;

    closed spec fn view(&self) -> Map<(Seq<char>, Seq<char>), EntryView> {
        records_map(rviews(self.records@))
    }
}

impl Store {
    /// Every record is well-formed and no identity occurs twice.
    pub closed spec fn wf(&self) -> bool {
        &&& forall|i: int|
            0 <= i < self.records@.len() ==> record_wf(#[trigger] self.records@[i]@)
        &&& ids_unique(rviews(self.records@))
    }

    /// What a lookup of (`user_addr`, `key`) yields on this store.
    pub open spec fn spec_get(&self, user_addr: Seq<char>, key: Seq<char>) -> Option<EntryView> {
        map_get(self@, user_addr, key)
    }

    /// An empty store.
    pub fn new() -> (r: Store)
        ensures
            r.wf(),
            r@ == Map::<(Seq<char>, Seq<char>), EntryView>::empty(),
    {
        let r = Store { records: Vec::new() };
        proof {
            assert(rviews(r.records@) =~= Seq::<RecordView>::empty());
        }
        r
    }

    /// The index of the record carrying (`user_addr`, `key`), if any.
    fn find_index(&self, user_addr: &String, key: &String) -> (r: Option<usize>)
        ensures
            match r {
                Some(i) => i < self.records@.len() && record_id(self.records@[i as int]@) == (
                    user_addr@,
                    key@,
                ),
                None => forall|j: int|
                    0 <= j < self.records@.len() ==> record_id(#[trigger] self.records@[j]@) != (
                        user_addr@,
                        key@,
                    ),
            },
    {
        let n = self.records.len();
        let mut i: usize = 0;
        while i < n
            invariant
                i <= n,
                n == self.records@.len(),
                forall|j: int|
                    0 <= j < i ==> record_id(#[trigger] self.records@[j]@) != (
                        user_addr@,
                        key@,
                    ),
            decreases n - i,
        {
            let rec = &self.records[i];
            if string_eq(&rec.user_addr, user_addr.as_str()) && string_eq(&rec.key, key.as_str()) {
                return Some(i);
            }
            i += 1;
        }
        None
    }

    /// Returns the current value under (`user_addr`, `key`), or absence.
    /// Absence is not an error.
    pub fn get(&self, user_addr: &String, key: &String) -> (r: Option<Entry>)
        requires
            self.wf(),
        ensures
            opt_entry_view(r) == self.spec_get(user_addr@, key@),
    {
        match self.find_index(user_addr, key) {
            Some(i) => {
                proof {
                    lemma_records_map_index(rviews(self.records@), i as int);
                }
                let e = self.records[i].decode_wf();
                Some(e)
            },
            None => {
                proof {
                    lemma_records_map_contains(rviews(self.records@), (user_addr@, key@));
                }
                None
            },
        }
    }

    /// Inserts or fully replaces the record under its own identity and
    /// returns the previously stored entry, if one existed.
    fn upsert_record(&mut self, rec: UserStorageEntry) -> (prev: Option<Entry>)
        requires
            old(self).wf(),
            rec.wf(),
        ensures
            final(self).wf(),
            final(self)@ == old(self)@.insert(record_id(rec@), record_entry(rec@)),
            opt_entry_view(prev) == map_get(old(self)@, rec@.user_addr, rec@.key),
    {
        let ghost s0 = rviews(self.records@);
        let found = self.find_index(&rec.user_addr, &rec.key);
        let prev: Option<Entry> = match found {
            Some(i) => {
                proof {
                    lemma_records_map_index(s0, i as int);
                }
                let old_rec = self.records.remove(i);
                proof {
                    lemma_records_map_remove(s0, i as int);
                    assert(rviews(self.records@) =~= s0.remove(i as int));
                    lemma_ids_unique_remove(s0, i as int);
                }
                Some(old_rec.decode_wf())
            },
            None => {
                proof {
                    lemma_records_map_contains(s0, (rec@.user_addr, rec@.key));
                }
                None
            },
        };
        let ghost s1 = rviews(self.records@);
        let ghost id = record_id(rec@);
        proof {
            // After the removal (or when nothing matched), no remaining
            // record carries the incoming identity.
            assert forall|j: int| 0 <= j < s1.len() implies record_id(#[trigger] s1[j]) != id by {
                if found is Some {
                    let ii = found->Some_0 as int;
                    if j < ii {
                        assert(s1[j] == s0[j]);
                    } else {
                        assert(s1[j] == s0[j + 1]);
                    }
                } else {
                    assert(s1[j] == s0[j]);
                }
            }
        }
        self.records.push(rec);
        proof {
            assert(rviews(self.records@) =~= s1.push(rec@));
            lemma_records_map_push(s1, rec@);
            assert(ids_unique(s1.push(rec@))) by {
                assert forall|a: int, b: int| 0 <= a < b < s1.push(rec@).len() implies record_id(
                    #[trigger] s1.push(rec@)[a],
                ) != record_id(#[trigger] s1.push(rec@)[b]) by {
                    if b < s1.len() {
                        assert(s1.push(rec@)[a] == s1[a]);
                        assert(s1.push(rec@)[b] == s1[b]);
                    } else {
                        assert(s1.push(rec@)[a] == s1[a]);
                        assert(s1.push(rec@)[b] == rec@);
                    }
                }
            }
            if found is Some {
                // remove then insert of the same identity is plain insert
                assert(records_map(s0).remove(id).insert(id, record_entry(rec@)) =~= records_map(
                    s0,
                ).insert(id, record_entry(rec@)));
            }
        }
        prev
    }

    /// Batch lookup, positionally aligned: the result has one slot per
    /// requested key, and slot `i` answers for `keys[i]` exactly what a
    /// single lookup would.  A missing key yields `None` at its position
    /// and is never an error.
    pub fn mget(&self, user_addr: &String, keys: &Vec<String>) -> (r: Vec<Option<Entry>>)
        requires
            self.wf(),
        ensures
            r@.len() == keys@.len(),
            forall|i: int|
                0 <= i < keys@.len() ==> opt_entry_view(#[trigger] r@[i]) == self.spec_get(
                    user_addr@,
                    keys@[i]@,
                ),
    {
        let mut r: Vec<Option<Entry>> = Vec::new();
        let n = keys.len();
        let mut i: usize = 0;
        while i < n
            invariant
                i <= n,
                n == keys@.len(),
                r@.len() == i,
                self.wf(),
                forall|j: int|
                    0 <= j < i ==> opt_entry_view(#[trigger] r@[j]) == self.spec_get(
                        user_addr@,
                        keys@[j]@,
                    ),
            decreases n - i,
        {
            let e = self.get(user_addr, &keys[i]);
            r.push(e);
            i += 1;
        }
        r
    }

    /// Removes the record under (`user_addr`, `key`) if one exists;
    /// removing an absent key is not an error and changes nothing.
    fn delete_key(&mut self, user_addr: &String, key: &String)
        requires
            old(self).wf(),
        ensures
            final(self).wf(),
            final(self)@ == old(self)@.remove((user_addr@, key@)),
    {
        let ghost s0 = rviews(self.records@);
        match self.find_index(user_addr, key) {
            Some(i) => {
                self.records.remove(i);
                proof {
                    lemma_records_map_remove(s0, i as int);
                    assert(rviews(self.records@) =~= s0.remove(i as int));
                    lemma_ids_unique_remove(s0, i as int);
                    assert forall|j: int|
                        0 <= j < self.records@.len() implies record_wf(
                        #[trigger] self.records@[j]@,
                    ) by {
                        if j < i as int {
                            assert(self.records@[j] == old(self).records@[j]);
                        } else {
                            assert(self.records@[j] == old(self).records@[j + 1]);
                        }
                    }
                }
            },
            None => {
                proof {
                    lemma_records_map_contains(s0, (user_addr@, key@));
                    assert(old(self)@.remove((user_addr@, key@)) =~= old(self)@);
                }
            },
        }
    }

    /// Upserts `entry` under (`user_addr`, `key`): every write is a full
    /// replacement.  Returns the previous value, letting the caller tell
    /// "created" from "replaced".
    pub fn set(&mut self, user_addr: &String, key: &String, entry: Entry) -> (prev: Option<Entry>)
        requires
            old(self).wf(),
        ensures
            final(self).wf(),
            final(self)@ == old(self)@.insert((user_addr@, key@), entry@),
            opt_entry_view(prev) == map_get(old(self)@, user_addr@, key@),
    {
        let rec = UserStorageEntry::encode(user_addr.clone(), key.clone(), entry);
        self.upsert_record(rec)
    }

    /// Batch delete under one owner: removes each listed key in order.
    /// Keys that are absent simply do not change the store; their absence
    /// is not an error.
    pub fn mdel(&mut self, user_addr: &String, keys: &Vec<String>)
        requires
            old(self).wf(),
        ensures
            final(self).wf(),
            final(self)@ == keys_removed(old(self)@, user_addr@, key_views(keys@)),
    {
        let ghost kv = key_views(keys@);
        let n = keys.len();
        let mut i: usize = 0;
        while i < n
            invariant
                i <= n,
                n == keys@.len(),
                kv == key_views(keys@),
                self.wf(),
                self@ == keys_removed(old(self)@, user_addr@, kv.take(i as int)),
            decreases n - i,
        {
            proof {
                assert(kv.take(i + 1).drop_last() =~= kv.take(i as int));
                assert(kv.take(i + 1).last() == keys@[i as int]@);
            }
            self.delete_key(user_addr, &keys[i]);
            i += 1;
        }
        proof {
            assert(kv.take(n as int) =~= kv);
        }
    }

    /// Batch upsert: applies each already-encoded record in order, each
    /// one a full replacement under its own identity.
    pub fn mset(&mut self, entries: Vec<UserStorageEntry>)
        requires
            old(self).wf(),
            forall|i: int| 0 <= i < entries@.len() ==> (#[trigger] entries@[i]).wf(),
        ensures
            final(self).wf(),
            final(self)@ == records_upserted(old(self)@, rviews(entries@)),
    {
        let ghost rv = rviews(entries@);
        let mut rest = entries;
        let ghost n = rv.len();
        while rest.len() > 0
            invariant
                rest@.len() <= n,
                rv == rviews(entries@),
                n == rv.len(),
                rest@ =~= entries@.skip(n - rest@.len()),
                forall|i: int| 0 <= i < rest@.len() ==> (#[trigger] rest@[i]).wf(),
                self.wf(),
                self@ == records_upserted(old(self)@, rv.take(n - rest@.len())),
            decreases rest@.len(),
        {
            let ghost k = n - rest@.len();
            let rec = rest.remove(0);
            proof {
                assert(rec == entries@[k]);
                assert(rv.take(k + 1).drop_last() =~= rv.take(k));
                assert(rv.take(k + 1).last() == rec@);
                assert forall|i: int| 0 <= i < rest@.len() implies (#[trigger] rest@[i]).wf() by {
                    assert(rest@[i] == entries@[k + 1 + i]);
                }
                assert(rest@ =~= entries@.skip(k + 1));
            }
            self.upsert_record(rec);
        }
        proof {
            assert(rv.take(n as int) =~= rv);
        }
    }

    /// The combined set-or-delete batch: applies the pairs in order,
    /// deleting each key whose entry is absent and upserting each key
    /// whose entry is present, and returns the previous value of every
    /// touched key, positionally aligned with the pairs.
    pub fn set_entries(&mut self, user_addr: &String, pairs: &Vec<KeyEntryPair>) -> (prev: Vec<
        Option<Entry>,
    >)
        requires
            old(self).wf(),
        ensures
            final(self).wf(),
            final(self)@ == pairs_applied(old(self)@, user_addr@, pair_views(pairs@)),
            prev@.len() == pairs@.len(),
            forall|i: int|
                0 <= i < pairs@.len() ==> opt_entry_view(#[trigger] prev@[i]) == map_get(
                    old(self)@,
                    user_addr@,
                    pairs@[i].key@,
                ),
    {
        let ghost pv = pair_views(pairs@);
        let n = pairs.len();
        let mut prev: Vec<Option<Entry>> = Vec::new();
        let mut i: usize = 0;
        while i < n
            invariant
                i <= n,
                n == pairs@.len(),
                self.wf(),
                self == old(self),
                prev@.len() == i,
                forall|j: int|
                    0 <= j < i ==> opt_entry_view(#[trigger] prev@[j]) == map_get(
                        old(self)@,
                        user_addr@,
                        pairs@[j].key@,
                    ),
            decreases n - i,
        {
            prev.push(self.get(user_addr, &pairs[i].key));
            i += 1;
        }
        let mut i: usize = 0;
        while i < n
            invariant
                i <= n,
                n == pairs@.len(),
                pv == pair_views(pairs@),
                self.wf(),
                self@ == pairs_applied(old(self)@, user_addr@, pv.take(i as int)),
            decreases n - i,
        {
            proof {
                assert(pv.take(i + 1).drop_last() =~= pv.take(i as int));
                assert(pv.take(i + 1).last() == pv[i as int]);
            }
            let pair = &pairs[i];
            match &pair.entry {
                Some(e) => {
                    self.set(user_addr, &pair.key, e.duplicate());
                },
                None => {
                    self.delete_key(user_addr, &pair.key);
                },
            }
            i += 1;
        }
        proof {
            assert(pv.take(n as int) =~= pv);
        }
        prev
    }

    /// Runs a transaction against the store, given the driver's verdict
    /// on whether it committed.  All of the operations take effect, in
    /// order, or none of them does: a transaction the driver rolled back
    /// leaves the store exactly as it was and surfaces a driver error.
    pub fn run_transaction(&mut self, ops: Vec<TxOp>, committed: bool) -> (r: Result<(), Error>)
        requires
            old(self).wf(),
            forall|i: int| 0 <= i < ops@.len() ==> (#[trigger] ops@[i]).wf(),
        ensures
            final(self).wf(),
            committed ==> r is Ok && final(self)@ == spec_apply_tx(old(self)@, tx_views(ops@)),
            !committed ==> final(self)@ == old(self)@ && (r matches Err(e) && e
                is DriverError),
    {
        if !committed {
            return Err(Error::DriverError("transaction rolled back".to_owned()));
        }
        let ghost tv = tx_views(ops@);
        let ghost n = tv.len();
        let mut rest = ops;
        while rest.len() > 0
            invariant
                rest@.len() <= n,
                tv == tx_views(ops@),
                n == tv.len(),
                rest@ =~= ops@.skip(n - rest@.len()),
                forall|i: int| 0 <= i < rest@.len() ==> (#[trigger] rest@[i]).wf(),
                self.wf(),
                self@ == spec_apply_tx(old(self)@, tv.take(n - rest@.len())),
            decreases rest@.len(),
        {
            let ghost k = n - rest@.len();
            let op = rest.remove(0);
            proof {
                assert(op == ops@[k]);
                assert(tv.take(k + 1).drop_last() =~= tv.take(k));
                assert(tv.take(k + 1).last() == op@);
                assert forall|i: int| 0 <= i < rest@.len() implies (#[trigger] rest@[i]).wf() by {
                    assert(rest@[i] == ops@[k + 1 + i]);
                }
                assert(rest@ =~= ops@.skip(k + 1));
            }
            match op {
                TxOp::MDel { user_addr, keys } => {
                    self.mdel(&user_addr, &keys);
                },
                TxOp::MSet { entries } => {
                    self.mset(entries);
                },
            }
        }
        proof {
            assert(tv.take(n as int) =~= tv);
        }
        Ok(())
    }
}

/// One operation inside a transaction against the durable store.
pub enum TxOp {
    /// Delete these keys under this owner.
    MDel { user_addr: String, keys: Vec<String> },
    /// Upsert these already-encoded records.
    MSet { entries: Vec<UserStorageEntry> },
}

/// The mathematical shadow of a [`TxOp`].
pub enum TxOpView {
    MDel { user_addr: Seq<char>, keys: Seq<Seq<char>> },
    MSet { entries: Seq<RecordView> },
}

impl View for TxOp {
    type V = TxOpView;

    open spec fn view(&self) -> TxOpView {
        match self {
            TxOp::MDel { user_addr, keys } => TxOpView::MDel {
                user_addr: user_addr@,
                keys: key_views(keys@),
            },
            TxOp::MSet { entries } => TxOpView::MSet { entries: rviews(entries@) },
        }
    }
}

impl TxOp {
    /// Every record an operation writes must be well-formed.
    pub open spec fn wf(&self) -> bool {
        match self {
            TxOp::MDel { .. } => true,
            TxOp::MSet { entries } => forall|i: int|
                0 <= i < entries@.len() ==> record_wf(#[trigger] entries@[i]@),
        }
    }
}

/// The views of a sequence of transaction operations.
pub open spec fn tx_views(ops: Seq<TxOp>) -> Seq<TxOpView> {
    Seq::new(ops.len(), |i: int| ops[i]@)
}

/// What one transaction operation does to the denoted map.
pub open spec fn spec_apply_op(
    m: Map<(Seq<char>, Seq<char>), EntryView>,
    op: TxOpView,
) -> Map<(Seq<char>, Seq<char>), EntryView> {
    match op {
        TxOpView::MDel { user_addr, keys } => keys_removed(m, user_addr, keys),
        TxOpView::MSet { entries } => records_upserted(m, entries),
    }
}

/// What a whole transaction does: its operations applied in order.
pub open spec fn spec_apply_tx(
    m: Map<(Seq<char>, Seq<char>), EntryView>,
    ops: Seq<TxOpView>,
) -> Map<(Seq<char>, Seq<char>), EntryView>
    decreases ops.len(),
{
    if ops.len() == 0 {
        m
    } else {
        spec_apply_op(spec_apply_tx(m, ops.drop_last()), ops.last())
    }
}

/// The views of a sequence of key/optional-entry pairs.
pub open spec fn pair_views(ps: Seq<KeyEntryPair>) -> Seq<(Seq<char>, Option<EntryView>)> {
    Seq::new(ps.len(), |i: int| (ps[i].key@, opt_entry_view(ps[i].entry)))
}

/// The map after applying key/optional-entry pairs in order under one
/// owner: an absent entry deletes its key, a present one replaces it.
pub open spec fn pairs_applied(
    m: Map<(Seq<char>, Seq<char>), EntryView>,
    user_addr: Seq<char>,
    ps: Seq<(Seq<char>, Option<EntryView>)>,
) -> Map<(Seq<char>, Seq<char>), EntryView>
    decreases ps.len(),
{
    if ps.len() == 0 {
        m
    } else {
        let applied = pairs_applied(m, user_addr, ps.drop_last());
        match ps.last().1 {
            Some(e) => applied.insert((user_addr, ps.last().0), e),
            None => applied.remove((user_addr, ps.last().0)),
        }
    }
}

/// Upsert idempotence: writing the same entry under the same identity a
/// second time leaves the store exactly as after the first write, and the
/// second write's previous value is that very entry.
pub proof fn lemma_set_idempotent(
    m: Map<(Seq<char>, Seq<char>), EntryView>,
    user_addr: Seq<char>,
    key: Seq<char>,
    e: EntryView,
)
    ensures
        m.insert((user_addr, key), e).insert((user_addr, key), e) == m.insert(
            (user_addr, key),
            e,
        ),
        map_get(m.insert((user_addr, key), e), user_addr, key) == Some(e),
{
    assert(m.insert((user_addr, key), e).insert((user_addr, key), e) =~= m.insert(
        (user_addr, key),
        e,
    ));
}

/// Delete idempotence: deleting a key that is absent leaves the store
/// untouched; the operation is total and signals no error.
pub proof fn lemma_delete_absent(
    m: Map<(Seq<char>, Seq<char>), EntryView>,
    user_addr: Seq<char>,
    key: Seq<char>,
)
    requires
        !m.contains_key((user_addr, key)),
    ensures
        keys_removed(m, user_addr, seq![key]) == m,
{
    assert(seq![key].drop_last() =~= Seq::<Seq<char>>::empty());
    assert(seq![key].last() == key);
    assert(keys_removed(m, user_addr, Seq::<Seq<char>>::empty()) == m);
    assert(m.remove((user_addr, key)) =~= m);
}

/// A mixed batch of one delete and one upsert, run as a transaction:
/// when it commits, the deleted key is gone and the upserted key holds
/// its new entry.  (When the driver rolls it back, `run_transaction`'s
/// contract already says the store is left exactly as it was: neither
/// the delete nor the upsert takes effect.)
pub proof fn lemma_atomic_mixed_batch(
    m: Map<(Seq<char>, Seq<char>), EntryView>,
    user_addr: Seq<char>,
    key_a: Seq<char>,
    key_b: Seq<char>,
    rec_b: RecordView,
)
    requires
        key_a != key_b,
        record_id(rec_b) == (user_addr, key_b),
    ensures
        ({
            let ops = seq![
                TxOpView::MDel { user_addr, keys: seq![key_a] },
                TxOpView::MSet { entries: seq![rec_b] },
            ];
            let after = spec_apply_tx(m, ops);
            &&& after == m.remove((user_addr, key_a)).insert((user_addr, key_b), record_entry(
                rec_b,
            ))
            &&& !after.contains_key((user_addr, key_a))
            &&& map_get(after, user_addr, key_b) == Some(record_entry(rec_b))
        }),
{
    let ops = seq![
        TxOpView::MDel { user_addr, keys: seq![key_a] },
        TxOpView::MSet { entries: seq![rec_b] },
    ];
    let deleted = m.remove((user_addr, key_a));
    assert(ops.drop_last() =~= seq![TxOpView::MDel { user_addr, keys: seq![key_a] }]);
    assert(ops.drop_last().drop_last() =~= Seq::<TxOpView>::empty());
    assert(ops.drop_last().last() == TxOpView::MDel { user_addr, keys: seq![key_a] });
    assert(ops.last() == TxOpView::MSet { entries: seq![rec_b] });
    assert(seq![key_a].drop_last() =~= Seq::<Seq<char>>::empty());
    assert(seq![key_a].last() == key_a);
    assert(seq![rec_b].drop_last() =~= Seq::<RecordView>::empty());
    assert(seq![rec_b].last() == rec_b);
    assert(spec_apply_tx(m, Seq::<TxOpView>::empty()) == m);
    assert(keys_removed(m, user_addr, Seq::<Seq<char>>::empty()) == m);
    assert(keys_removed(m, user_addr, seq![key_a]) == deleted);
    assert(spec_apply_tx(m, ops.drop_last()) == deleted);
    assert(records_upserted(deleted, Seq::<RecordView>::empty()) == deleted);
    assert(records_upserted(deleted, seq![rec_b]) == deleted.insert(
        (user_addr, key_b),
        record_entry(rec_b),
    ));
}

/// Scoped isolation: a write under one owner is invisible to every other
/// owner, whatever that other owner already had under the same key.
pub proof fn lemma_owner_isolation(
    m: Map<(Seq<char>, Seq<char>), EntryView>,
    owner_a: Seq<char>,
    owner_b: Seq<char>,
    key: Seq<char>,
    e: EntryView,
)
    requires
        owner_a != owner_b,
    ensures
        map_get(m.insert((owner_a, key), e), owner_b, key) == map_get(m, owner_b, key),
{
}

} // verus!
