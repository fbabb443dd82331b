//! Request shaping for the storage endpoints: payload validation, the
//! alignment of sparse backend answers with the requested key order, the
//! split of a combined set-or-delete batch into its delete keys and its
//! upsert records, and the not-found shaping of single-key reads.
//!
//! Everything here is pure: the HTTP layer parses requests and hands
//! these functions plain values, and the backends hand them what the
//! remote store returned.

use vstd::prelude::*;
use vstd::utf8::encode_utf8;

use crate::error::Error;
use crate::decimal::{spec_udec, u64_to_dec};
use crate::models::{
    Entry,
    EntryView,
    KeyEntryList,
    NullableEntryList,
    RecordView,
    UserStorageEntry,
    opt_entry_view,
    spec_decode,
    spec_encode,
    string_eq,
};
use crate::models::lemma_encode_decode_round_trip;
use crate::store::{
    key_views,
    keys_removed,
    pair_views,
    pairs_applied,
    record_id,
    record_entry,
    records_upserted,
    rviews,
    spec_apply_tx,
    TxOpView,
};

verus! {

/// The largest serialized JSON payload one entry may carry, in bytes.
pub const MAX_JSON_PAYLOAD_SIZE: u64 = 1024 * 1024 * 1024;

/// The byte size of a JSON payload carried as text.
pub open spec fn spec_json_size(s: Seq<char>) -> usize {
    encode_utf8(s).len() as usize
}

/// Whether an entry passes validation: only a JSON payload over the size
/// limit is rejected.
pub open spec fn entry_valid(e: EntryView) -> bool {
    e matches EntryView::Json(s) ==> spec_json_size(s) <= MAX_JSON_PAYLOAD_SIZE
}

/// Validates one entry before it is stored under `key`.  Rejected
/// entries are reported to the caller and never retried; the error names
/// the offending key and carries the actual and allowed sizes.
pub fn validate_entry(key: &String, entry: &Entry) -> (r: Result<(), Error>)
    ensures
        r is Ok <==> entry_valid(entry@),
        r matches Err(e) ==> ({
            &&& entry@ matches EntryView::Json(s)
            &&& e matches Error::ValidationError(param, details)
            &&& param@ == key@
            &&& details matches Some(d)
            &&& d@.len() == 2
            &&& d@[0].0@ == "actual_size"@
            &&& d@[0].1@ == spec_udec(spec_json_size(s) as nat)
            &&& d@[1].0@ == "max_size"@
            &&& d@[1].1@ == spec_udec(MAX_JSON_PAYLOAD_SIZE as nat)
        }),
{
    match entry {
        Entry::Json(d) => {
            let payload_size = d.as_str().len() as u64;
            if payload_size > MAX_JSON_PAYLOAD_SIZE {
                let mut details: Vec<(String, String)> = Vec::new();
                details.push(("actual_size".to_owned(), u64_to_dec(payload_size)));
                details.push(("max_size".to_owned(), u64_to_dec(MAX_JSON_PAYLOAD_SIZE)));
                Err(Error::ValidationError(key.clone(), Some(details)))
            } else {
                Ok(())
            }
        },
        _ => Ok(()),
    }
}

/// Validates every present entry of a combined batch.  The batch may be
/// stored exactly when every entry it carries passes validation.
pub fn validate_entries(entries: &KeyEntryList) -> (r: Result<(), Error>)
    ensures
        r is Ok <==> forall|i: int|
            0 <= i < entries.entries@.len() ==> ((#[trigger] pair_views(entries.entries@)[i]).1
                matches Some(e) ==> entry_valid(e)),
        r matches Err(e) ==> ({
            &&& e matches Error::ValidationError(param, _)
            &&& exists|i: int|
                ({
                    &&& 0 <= i < entries.entries@.len()
                    &&& (#[trigger] pair_views(entries.entries@)[i]).0 == param@
                    &&& pair_views(entries.entries@)[i].1 matches Some(ev) && !entry_valid(ev)
                })
        }),
{
    let n = entries.entries.len();
    let mut i: usize = 0;
    while i < n
        invariant
            i <= n,
            n == entries.entries@.len(),
            forall|j: int|
                0 <= j < i ==> ((#[trigger] pair_views(entries.entries@)[j]).1 matches Some(e)
                    ==> entry_valid(e)),
        decreases n - i,
    {
        let pair = &entries.entries[i];
        match &pair.entry {
            Some(e) => {
                let checked = validate_entry(&pair.key, e);
                match checked {
                    Ok(_) => {},
                    Err(err) => {
                        proof {
                            assert(pair_views(entries.entries@)[i as int].1 == Some(e@));
                            assert(!(pair_views(entries.entries@)[i as int].1 matches Some(ev)
                                ==> entry_valid(ev)));
                        }
                        return Err(err);
                    },
                }
            },
            None => {},
        }
        i += 1;
    }
    Ok(())
}

/// The first record in `rs` carrying `key`, if any.
pub open spec fn spec_find_key(rs: Seq<RecordView>, key: Seq<char>) -> Option<RecordView>
    decreases rs.len(),
{
    if rs.len() == 0 {
        None
    } else if rs.first().key == key {
        Some(rs.first())
    } else {
        spec_find_key(rs.drop_first(), key)
    }
}

/// What aligning the records `rs` with the requested `keys` yields: one
/// optional entry per key, in key order, or failure as soon as a matched
/// record cannot be decoded.
pub open spec fn spec_align(rs: Seq<RecordView>, keys: Seq<Seq<char>>) -> Result<
    Seq<Option<EntryView>>,
    (),
>
    decreases keys.len(),
{
    if keys.len() == 0 {
        Ok(Seq::<Option<EntryView>>::empty())
    } else {
        match spec_align(rs, keys.drop_last()) {
            Err(e) => Err(e),
            Ok(prefix) => match spec_find_key(rs, keys.last()) {
                None => Ok(prefix.push(None)),
                Some(rec) => match spec_decode(rec) {
                    Some(e) => Ok(prefix.push(Some(e))),
                    None => Err(()),
                },
            },
        }
    }
}

/// Once a prefix of the keys fails to align, the whole batch fails.
proof fn lemma_align_err_persists(rs: Seq<RecordView>, keys: Seq<Seq<char>>, k: int)
    requires
        0 <= k <= keys.len(),
        spec_align(rs, keys.take(k)) is Err,
    ensures
        spec_align(rs, keys) is Err,
    decreases keys.len(),
{
    if k < keys.len() {
        assert(keys.drop_last().take(k) =~= keys.take(k));
        lemma_align_err_persists(rs, keys.drop_last(), k);
    } else {
        assert(keys.take(k) =~= keys);
    }
}

/// The index of the first record carrying `key`, if any.
fn find_by_key(found: &Vec<UserStorageEntry>, key: &String) -> (r: Option<usize>)
    ensures
        match r {
            Some(i) => i < found@.len() && spec_find_key(rviews(found@), key@) == Some(
                found@[i as int]@,
            ),
            None => spec_find_key(rviews(found@), key@) is None,
        },
{
    let rv = Ghost(rviews(found@));
    let n = found.len();
    let mut i: usize = 0;
    proof {
        assert(rv@.skip(0) =~= rv@);
    }
    while i < n
        invariant
            i <= n,
            n == found@.len(),
            rv@ == rviews(found@),
            spec_find_key(rv@, key@) == spec_find_key(rv@.skip(i as int), key@),
        decreases n - i,
    {
        proof {
            assert(rv@.skip(i as int).first() == found@[i as int]@);
        }
        if string_eq(&found[i].key, key.as_str()) {
            return Some(i);
        }
        proof {
            assert(rv@.skip(i as int).drop_first() =~= rv@.skip(i + 1));
        }
        i += 1;
    }
    proof {
        assert(rv@.skip(n as int) =~= Seq::<RecordView>::empty());
    }
    None
}

/// Aligns what the durable backend returned for a batch read with the
/// requested key order: slot `i` of the result answers for `keys[i]`,
/// with `None` for a key no record carries.  A record that cannot be
/// decoded fails the whole read: it is corruption, surfaced, never
/// guessed at.
pub fn align_entries(keys: &Vec<String>, found: &Vec<UserStorageEntry>) -> (r: Result<
    NullableEntryList,
    Error,
>)
    ensures
        match r {
            Ok(list) => spec_align(rviews(found@), key_views(keys@)) == Ok::<_, ()>(list@),
            Err(e) => spec_align(rviews(found@), key_views(keys@)) is Err && e
                is SerializationError,
        },
{
    let ghost rv = rviews(found@);
    let ghost kv = key_views(keys@);
    let n = keys.len();
    let mut out: Vec<Option<Entry>> = Vec::new();
    let mut i: usize = 0;
    proof {
        assert(kv.take(0) =~= Seq::<Seq<char>>::empty());
        assert(Seq::new(out@.len(), |j: int| opt_entry_view(out@[j])) =~= Seq::<
            Option<EntryView>,
        >::empty());
    }
    while i < n
        invariant
            i <= n,
            n == keys@.len(),
            rv == rviews(found@),
            kv == key_views(keys@),
            out@.len() == i,
            spec_align(rv, kv.take(i as int)) == Ok::<_, ()>(
                Seq::new(out@.len(), |j: int| opt_entry_view(out@[j])),
            ),
        decreases n - i,
    {
        let ghost out0 = out@;
        proof {
            assert(kv.take(i + 1).drop_last() =~= kv.take(i as int));
            assert(kv.take(i + 1).last() == keys@[i as int]@);
        }
        match find_by_key(found, &keys[i]) {
            None => {
                out.push(None);
            },
            Some(idx) => {
                match found[idx].decode() {
                    Ok(e) => {
                        out.push(Some(e));
                    },
                    Err(err) => {
                        proof {
                            lemma_align_err_persists(rv, kv, i + 1);
                        }
                        return Err(err);
                    },
                }
            },
        }
        i += 1;
        proof {
            assert(Seq::new(out@.len(), |j: int| opt_entry_view(out@[j])) =~= Seq::new(
                out0.len(),
                |j: int| opt_entry_view(out0[j]),
            ).push(opt_entry_view(out@.last())));
        }
    }
    proof {
        assert(kv.take(n as int) =~= kv);
    }
    let list = NullableEntryList { entries: out };
    proof {
        assert(list@ =~= Seq::new(list.entries@.len(), |j: int| opt_entry_view(list.entries@[j])));
    }
    Ok(list)
}

/// The keys a combined batch deletes: those of its pairs whose entry is
/// absent, in order.
pub open spec fn spec_keys_to_delete(ps: Seq<(Seq<char>, Option<EntryView>)>) -> Seq<Seq<char>>
    decreases ps.len(),
{
    if ps.len() == 0 {
        Seq::<Seq<char>>::empty()
    } else {
        let prefix = spec_keys_to_delete(ps.drop_last());
        if ps.last().1 is None {
            prefix.push(ps.last().0)
        } else {
            prefix
        }
    }
}

/// The records a combined batch upserts: one encoded record per pair
/// whose entry is present, in order, under the given owner.
pub open spec fn spec_records_to_set(
    user_addr: Seq<char>,
    ps: Seq<(Seq<char>, Option<EntryView>)>,
) -> Seq<RecordView>
    decreases ps.len(),
{
    if ps.len() == 0 {
        Seq::<RecordView>::empty()
    } else {
        let prefix = spec_records_to_set(user_addr, ps.drop_last());
        match ps.last().1 {
            Some(e) => prefix.push(spec_encode(user_addr, ps.last().0, e)),
            None => prefix,
        }
    }
}

/// Splits a combined batch into the keys to delete and the records to
/// upsert, the records encoded under `user_addr` and ready for one
/// atomic transaction.
pub fn plan_set_entries(user_addr: &String, entries: &KeyEntryList) -> (r: (
    Vec<String>,
    Vec<UserStorageEntry>,
))
    ensures
        key_views(r.0@) == spec_keys_to_delete(pair_views(entries.entries@)),
        rviews(r.1@) == spec_records_to_set(user_addr@, pair_views(entries.entries@)),
        forall|i: int| 0 <= i < r.1@.len() ==> (#[trigger] r.1@[i]).wf(),
{
    let ghost pv = pair_views(entries.entries@);
    let n = entries.entries.len();
    let mut dels: Vec<String> = Vec::new();
    let mut sets: Vec<UserStorageEntry> = Vec::new();
    let mut i: usize = 0;
    while i < n
        invariant
            i <= n,
            n == entries.entries@.len(),
            pv == pair_views(entries.entries@),
            key_views(dels@) == spec_keys_to_delete(pv.take(i as int)),
            rviews(sets@) == spec_records_to_set(user_addr@, pv.take(i as int)),
            forall|j: int| 0 <= j < sets@.len() ==> (#[trigger] sets@[j]).wf(),
        decreases n - i,
    {
        let ghost dels0 = dels@;
        let ghost sets0 = sets@;
        proof {
            assert(pv.take(i + 1).drop_last() =~= pv.take(i as int));
            assert(pv.take(i + 1).last() == pv[i as int]);
        }
        let pair = &entries.entries[i];
        match &pair.entry {
            Some(e) => {
                let rec = UserStorageEntry::encode(
                    user_addr.clone(),
                    pair.key.clone(),
                    e.duplicate(),
                );
                sets.push(rec);
                proof {
                    assert(rviews(sets@) =~= rviews(sets0).push(sets@.last()@));
                }
            },
            None => {
                dels.push(pair.key.clone());
                proof {
                    assert(key_views(dels@) =~= key_views(dels0).push(dels@.last()@));
                }
            },
        }
        i += 1;
    }
    proof {
        assert(pv.take(n as int) =~= pv);
    }
    (dels, sets)
}

/// No pair carries the key `k`, so no planned record carries the
/// identity (`user_addr`, `k`).
proof fn lemma_records_to_set_ids(
    user_addr: Seq<char>,
    ps: Seq<(Seq<char>, Option<EntryView>)>,
    k: Seq<char>,
)
    requires
        forall|i: int| 0 <= i < ps.len() ==> (#[trigger] ps[i]).0 != k,
    ensures
        forall|j: int|
            0 <= j < spec_records_to_set(user_addr, ps).len() ==> record_id(
                #[trigger] spec_records_to_set(user_addr, ps)[j],
            ) != (user_addr, k),
    decreases ps.len(),
{
    if ps.len() > 0 {
        assert forall|i: int| 0 <= i < ps.drop_last().len() implies (#[trigger] ps.drop_last()[
            i
        ]).0 != k by {
            assert(ps.drop_last()[i] == ps[i]);
        }
        lemma_records_to_set_ids(user_addr, ps.drop_last(), k);
        assert(ps[ps.len() - 1].0 != k);
        let full = spec_records_to_set(user_addr, ps);
        let shorter = spec_records_to_set(user_addr, ps.drop_last());
        match ps.last().1 {
            Some(e) => {
                let rec = spec_encode(user_addr, ps.last().0, e);
                assert(record_id(rec) == (user_addr, ps.last().0));
                assert(full == shorter.push(rec));
                assert forall|j: int| 0 <= j < full.len() implies record_id(#[trigger] full[j])
                    != (user_addr, k) by {
                    if j < full.len() - 1 {
                        assert(full[j] == shorter[j]);
                    } else {
                        assert(full[j] == rec);
                    }
                }
            },
            None => {
                assert(full == shorter);
            },
        }
    }
}

/// Removing an identity that no upserted record carries commutes with
/// the batch of upserts.
proof fn lemma_upsert_remove_commutes(
    m: Map<(Seq<char>, Seq<char>), EntryView>,
    rs: Seq<RecordView>,
    id: (Seq<char>, Seq<char>),
)
    requires
        forall|j: int| 0 <= j < rs.len() ==> record_id(#[trigger] rs[j]) != id,
    ensures
        records_upserted(m.remove(id), rs) == records_upserted(m, rs).remove(id),
    decreases rs.len(),
{
    if rs.len() == 0 {
    } else {
        assert forall|j: int| 0 <= j < rs.drop_last().len() implies record_id(
            #[trigger] rs.drop_last()[j],
        ) != id by {
            assert(rs.drop_last()[j] == rs[j]);
        }
        lemma_upsert_remove_commutes(m, rs.drop_last(), id);
        let last_id = record_id(rs.last());
        let last_e = record_entry(rs.last());
        assert(records_upserted(m, rs.drop_last()).insert(last_id, last_e).remove(id)
            =~= records_upserted(m, rs.drop_last()).remove(id).insert(last_id, last_e));
    }
}

/// On pairwise-distinct keys, running the planned deletes first and the
/// planned upserts second — as the durable backend's one transaction
/// does — yields exactly the per-pair semantics of the combined batch.
pub proof fn lemma_plan_matches_pairs(
    m: Map<(Seq<char>, Seq<char>), EntryView>,
    user_addr: Seq<char>,
    ps: Seq<(Seq<char>, Option<EntryView>)>,
)
    requires
        forall|i: int, j: int|
            0 <= i < j < ps.len() ==> (#[trigger] ps[i]).0 != (#[trigger] ps[j]).0,
    ensures
        records_upserted(
            keys_removed(m, user_addr, spec_keys_to_delete(ps)),
            spec_records_to_set(user_addr, ps),
        ) == pairs_applied(m, user_addr, ps),
    decreases ps.len(),
{
    if ps.len() == 0 {
    } else {
        let prefix = ps.drop_last();
        let p = ps.last();
        assert forall|i: int, j: int| 0 <= i < j < prefix.len() implies (#[trigger] prefix[i]).0
            != (#[trigger] prefix[j]).0 by {
            assert(prefix[i] == ps[i]);
            assert(prefix[j] == ps[j]);
        }
        lemma_plan_matches_pairs(m, user_addr, prefix);
        assert forall|i: int| 0 <= i < prefix.len() implies (#[trigger] prefix[i]).0 != p.0 by {
            assert(prefix[i] == ps[i]);
            assert(p == ps[ps.len() - 1]);
        }
        match p.1 {
            Some(e) => {
                let rec = spec_encode(user_addr, p.0, e);
                assert(spec_records_to_set(user_addr, ps) == spec_records_to_set(
                    user_addr,
                    prefix,
                ).push(rec));
                assert(spec_records_to_set(user_addr, prefix).push(rec).drop_last()
                    =~= spec_records_to_set(user_addr, prefix));
                lemma_encode_decode_round_trip(user_addr, p.0, e);
                assert(record_entry(rec) == e);
            },
            None => {
                let deletes = spec_keys_to_delete(prefix);
                assert(spec_keys_to_delete(ps) == deletes.push(p.0));
                assert(deletes.push(p.0).drop_last() =~= deletes);
                assert(keys_removed(m, user_addr, deletes.push(p.0)) == keys_removed(
                    m,
                    user_addr,
                    deletes,
                ).remove((user_addr, p.0)));
                lemma_records_to_set_ids(user_addr, prefix, p.0);
                lemma_upsert_remove_commutes(
                    keys_removed(m, user_addr, deletes),
                    spec_records_to_set(user_addr, prefix),
                    (user_addr, p.0),
                );
            },
        }
    }
}

/// The same, stated of the transaction the durable backend runs: one
/// delete operation followed by one upsert operation, committed as a
/// unit, equals the combined batch's per-pair semantics.
pub proof fn lemma_plan_transaction_semantics(
    m: Map<(Seq<char>, Seq<char>), EntryView>,
    user_addr: Seq<char>,
    ps: Seq<(Seq<char>, Option<EntryView>)>,
)
    requires
        forall|i: int, j: int|
            0 <= i < j < ps.len() ==> (#[trigger] ps[i]).0 != (#[trigger] ps[j]).0,
    ensures
        spec_apply_tx(
            m,
            seq![
                TxOpView::MDel { user_addr, keys: spec_keys_to_delete(ps) },
                TxOpView::MSet { entries: spec_records_to_set(user_addr, ps) },
            ],
        ) == pairs_applied(m, user_addr, ps),
{
    let ops = seq![
        TxOpView::MDel { user_addr, keys: spec_keys_to_delete(ps) },
        TxOpView::MSet { entries: spec_records_to_set(user_addr, ps) },
    ];
    assert(ops.drop_last() =~= seq![
        TxOpView::MDel { user_addr, keys: spec_keys_to_delete(ps) },
    ]);
    assert(ops.drop_last().drop_last() =~= Seq::<TxOpView>::empty());
    assert(ops.drop_last().last() == TxOpView::MDel {
        user_addr,
        keys: spec_keys_to_delete(ps),
    });
    assert(ops.last() == TxOpView::MSet { entries: spec_records_to_set(user_addr, ps) });
    assert(spec_apply_tx(m, Seq::<TxOpView>::empty()) == m);
    assert(spec_apply_tx(m, ops.drop_last()) == keys_removed(
        m,
        user_addr,
        spec_keys_to_delete(ps),
    ));
    assert(spec_apply_tx(m, ops) == records_upserted(
        keys_removed(m, user_addr, spec_keys_to_delete(ps)),
        spec_records_to_set(user_addr, ps),
    ));
    lemma_plan_matches_pairs(m, user_addr, ps);
}

/// Shapes a single-key read: absence of the key is the one condition
/// reported as not found.
pub fn require_found(key: String, entry: Option<Entry>) -> (r: Result<Entry, Error>)
    ensures
        match entry {
            Some(e) => r == Ok::<Entry, Error>(e),
            None => r == Err::<Entry, Error>(Error::KeyNotFound(key)),
        },
{
    match entry {
        Some(e) => Ok(e),
        None => Err(Error::KeyNotFound(key)),
    }
}

} // verus!
