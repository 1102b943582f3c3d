//! The record lists of a DNS contract, kept in the contract's storage.

use near_sdk::store::IterableMap;
use vstd::prelude::*;

use crate::record::DnsRecord;
use crate::record::DnsRecordView;

verus! {

/// A record as the storage holds it: its fields in declaration order, which is
/// also how a record is laid out in storage.
pub type StoredRecord = (String, String, u32, Option<u16>);

/// The record that a stored record stands for, as plain values.
pub open spec fn row_view(row: StoredRecord) -> DnsRecordView {
    DnsRecordView { record_type: row.0@, value: row.1@, ttl: row.2, priority: row.3 }
}

/// The records that stored records stand for.
pub open spec fn rows_view(rows: Seq<StoredRecord>) -> Seq<DnsRecordView> {
    rows.map_values(|row: StoredRecord| row_view(row))
}

/// What a store holds, as plain values: what a lookup under each key finds,
/// and the keys that the store lists, in iteration order.
#[verifier::ext_equal]
pub struct StoreView {
    pub values: Map<Seq<char>, Seq<DnsRecordView>>,
    pub keys: Seq<Seq<char>>,
}

/// The store's invariant: no key is listed twice, and a lookup of a listed key
/// finds records.
pub open spec fn store_ok(s: StoreView) -> bool {
    &&& s.keys.no_duplicates()
    &&& forall|i: int| 0 <= i < s.keys.len() ==> s.values.dom().contains(#[trigger] s.keys[i])
}

/// The records that a lookup of `k` finds, if any.
pub open spec fn records_at(s: StoreView, k: Seq<char>) -> Option<Seq<DnsRecordView>> {
    s.values.get(k)
}

/// The store after `IterableMap::insert(k, v)`: the key takes the records, and
/// goes last in the key list unless a lookup of it found records before.
pub open spec fn put(s: StoreView, k: Seq<char>, v: Seq<DnsRecordView>) -> StoreView {
    StoreView {
        values: s.values.insert(k, v),
        keys: if s.values.dom().contains(k) {
            s.keys
        } else {
            s.keys.push(k)
        },
    }
}

/// The store after `IterableMap::remove(k)` of a listed key: its records go,
/// and the last key of the list moves into its place. A key that is not listed
/// leaves the store as it is.
pub open spec fn take_out(s: StoreView, k: Seq<char>) -> StoreView {
    if s.keys.contains(k) {
        let i = s.keys.index_of(k);
        StoreView {
            values: s.values.remove(k),
            keys: s.keys.update(i, s.keys.last()).drop_last(),
        }
    } else {
        s
    }
}

/// The listed keys, each with the records that a lookup of it finds.
pub open spec fn listed(s: StoreView) -> Seq<(Seq<char>, Seq<DnsRecordView>)> {
    s.keys.map_values(|k: Seq<char>| (k, s.values[k]))
}

/// An entry copied out of a store, as plain values.
pub open spec fn entry_view(e: (String, Vec<StoredRecord>)) -> (Seq<char>, Seq<DnsRecordView>) {
    (e.0@, rows_view(e.1@))
}

/// The records of a DNS contract, kept in a `near_sdk::store::IterableMap`
/// under a storage prefix.
#[verifier::external_body]
pub struct RecordStore {
    map: IterableMap<String, Vec<StoredRecord>>,
}

/// What a lookup of each key in a store finds: the records that the storage
/// holds for the key under the store's prefix.
pub uninterp spec fn store_values(store: RecordStore) -> Map<Seq<char>, Seq<DnsRecordView>>;

/// The keys that a store lists, in iteration order.
pub uninterp spec fn store_keys(store: RecordStore) -> Seq<Seq<char>>;

/// A store as plain values.
pub open spec fn store_view(store: RecordStore) -> StoreView {
    StoreView { values: store_values(store), keys: store_keys(store) }
}

impl RecordStore {
    /// A store over `IterableMap::new(prefix)`. The map holds the length of its
    /// key list itself, so a new store lists no keys. Its lookups read the
    /// storage under the prefix, which may hold records that an earlier map
    /// under the same prefix wrote; nothing is said of those.
    #[verifier::external_body]
    pub fn new(prefix: u8) -> (s: Self)
        ensures
            store_keys(s) == Seq::<Seq<char>>::empty(),
    {
        RecordStore { map: IterableMap::new(prefix) }
    }

    /// `IterableMap::get` with the records copied out: what a lookup of the key finds.
    #[verifier::external_body]
    pub fn get(&self, key: &str) -> (r: Option<Vec<StoredRecord>>)
        ensures
            match store_values(*self).get(key@) {
                Some(v) => r matches Some(rows) && rows_view(rows@) == v,
                None => r is None,
            },
    {
        self.map.get(key).cloned()
    }

    /// `IterableMap::insert`: the key takes the records; it joins the end of the
    /// key list when no records were found under it (see `put`).
    #[verifier::external_body]
    pub fn insert(&mut self, key: String, rows: Vec<StoredRecord>)
        ensures
            store_view(*final(self)) == put(store_view(*old(self)), key@, rows_view(rows@)),
    {
        self.map.insert(key, rows);
    }

    /// `IterableMap::remove` of a listed key: its records go, and the last
    /// listed key takes its place (see `take_out`). The map finds the place
    /// through the index that it keeps beside each value, which it set when it
    /// listed the key and updates on every such move.
    #[verifier::external_body]
    pub fn remove(&mut self, key: &str)
        requires
            store_ok(store_view(*old(self))),
            store_keys(*old(self)).contains(key@),
        ensures
            store_view(*final(self)) == take_out(store_view(*old(self)), key@),
    {
        self.map.remove(key);
    }

    /// `IterableMap::keys`, copied out in iteration order.
    #[verifier::external_body]
    pub fn keys(&self) -> (r: Vec<String>)
        ensures
            r.deep_view() == store_keys(*self),
    {
        self.map.keys().cloned().collect()
    }

    /// `IterableMap::iter`, copied out in iteration order: each listed key with
    /// its records. The map finds the records of each listed key.
    #[verifier::external_body]
    pub fn entries(&self) -> (r: Vec<(String, Vec<StoredRecord>)>)
        requires
            store_ok(store_view(*self)),
        ensures
            r@.map_values(|e: (String, Vec<StoredRecord>)| entry_view(e)) == listed(
                store_view(*self),
            ),
    {
        self.map.iter().map(|(k, v)| (k.clone(), v.clone())).collect()
    }
}

/// The stored form of a record.
pub fn to_row(record: &DnsRecord) -> (row: StoredRecord)
    ensures
        row_view(row) == record@,
{
    (record.record_type.clone(), record.value.clone(), record.ttl, record.priority)
}

/// The record that a stored record stands for.
pub fn from_row(row: &StoredRecord) -> (record: DnsRecord)
    ensures
        record@ == row_view(*row),
{
    DnsRecord { record_type: row.0.clone(), value: row.1.clone(), ttl: row.2, priority: row.3 }
}

/// The stored form of a list of records.
pub fn to_rows(records: &Vec<DnsRecord>) -> (rows: Vec<StoredRecord>)
    ensures
        rows_view(rows@) == records.deep_view(),
{
    let mut rows: Vec<StoredRecord> = Vec::new();
    let mut i: usize = 0;
    while i < records.len()
        invariant
            i <= records@.len(),
            rows_view(rows@) == records.deep_view().take(i as int),
        decreases records.len() - i,
    {
        let ghost before = rows@;
        let row = to_row(&records[i]);
        rows.push(row);
        assert(rows@ =~= before.push(row));
        assert(rows_view(rows@) =~= rows_view(before).push(row_view(row)));
        assert(records.deep_view()[i as int] == records@[i as int]@);
        assert(rows_view(rows@) =~= records.deep_view().take(i + 1));
        i += 1;
    }
    assert(records.deep_view().take(records@.len() as int) =~= records.deep_view());
    rows
}

/// The records that a list of stored records stands for.
pub fn from_rows(rows: &Vec<StoredRecord>) -> (records: Vec<DnsRecord>)
    ensures
        records.deep_view() == rows_view(rows@),
{
    let mut records: Vec<DnsRecord> = Vec::new();
    let mut i: usize = 0;
    while i < rows.len()
        invariant
            i <= rows@.len(),
            records.deep_view() == rows_view(rows@).take(i as int),
        decreases rows.len() - i,
    {
        let ghost before = records.deep_view();
        let record = from_row(&rows[i]);
        records.push(record);
        assert(records.deep_view() =~= before.push(record@));
        assert(rows_view(rows@)[i as int] == row_view(rows@[i as int]));
        assert(records.deep_view() =~= rows_view(rows@).take(i + 1));
        i += 1;
    }
    assert(rows_view(rows@).take(rows@.len() as int) =~= rows_view(rows@));
    records
}

/// `put` keeps the store's invariant; afterwards the key finds the records and
/// every other key finds what it found.
pub proof fn lemma_put(s: StoreView, k: Seq<char>, v: Seq<DnsRecordView>)
    requires
        store_ok(s),
    ensures
        store_ok(put(s, k, v)),
        records_at(put(s, k, v), k) == Some(v),
        forall|k2: Seq<char>| k2 != k ==> records_at(put(s, k, v), k2) == records_at(s, k2),
{
    let p = put(s, k, v);
    if !s.values.dom().contains(k) {
        assert(!s.keys.contains(k));
        assert forall|i: int, j: int|
            0 <= i < p.keys.len() && 0 <= j < p.keys.len() && i != j implies p.keys[i]
            != p.keys[j] by {
            if i < s.keys.len() && j < s.keys.len() {
            } else if i < s.keys.len() {
                assert(s.keys[i] != k);
            } else {
                assert(s.keys[j] != k);
            }
        }
    }
}

/// `take_out` keeps the store's invariant; afterwards a listed key finds no
/// records, every other key finds what it found, and the listed keys are the
/// former ones without `k`.
pub proof fn lemma_take_out(s: StoreView, k: Seq<char>)
    requires
        store_ok(s),
    ensures
        store_ok(take_out(s, k)),
        s.keys.contains(k) ==> records_at(take_out(s, k), k) is None,
        forall|k2: Seq<char>| k2 != k ==> records_at(take_out(s, k), k2) == records_at(s, k2),
        forall|k2: Seq<char>| #[trigger]
            take_out(s, k).keys.contains(k2) <==> (s.keys.contains(k2) && k2 != k),
{
    let t = take_out(s, k);
    if s.keys.contains(k) {
        let i0 = s.keys.index_of(k);
        let last = s.keys.len() - 1;
        assert(s.keys[i0] == k);
        assert forall|i: int| 0 <= i < t.keys.len() implies #[trigger] t.keys[i] == (if i == i0 {
            s.keys[last]
        } else {
            s.keys[i]
        }) by {}
        assert forall|i: int, j: int|
            0 <= i < t.keys.len() && 0 <= j < t.keys.len() && i != j implies t.keys[i]
            != t.keys[j] by {
            let ei = if i == i0 {
                last
            } else {
                i
            };
            let ej = if j == i0 {
                last
            } else {
                j
            };
            assert(t.keys[i] == s.keys[ei]);
            assert(t.keys[j] == s.keys[ej]);
        }
        assert forall|i: int| 0 <= i < t.keys.len() implies t.values.dom().contains(
            #[trigger] t.keys[i],
        ) by {
            let ei = if i == i0 {
                last
            } else {
                i
            };
            assert(t.keys[i] == s.keys[ei]);
            assert(ei != i0);
        }
        assert forall|k2: Seq<char>| #[trigger]
            t.keys.contains(k2) <==> (s.keys.contains(k2) && k2 != k) by {
            if t.keys.contains(k2) {
                let i = choose|i: int| 0 <= i < t.keys.len() && t.keys[i] == k2;
                let ei = if i == i0 {
                    last
                } else {
                    i
                };
                assert(s.keys[ei] == k2);
                assert(ei != i0);
            }
            if s.keys.contains(k2) && k2 != k {
                let j = choose|j: int| 0 <= j < s.keys.len() && s.keys[j] == k2;
                assert(j != i0);
                let tj = if j == last {
                    i0
                } else {
                    j
                };
                assert(t.keys[tj] == k2);
            }
        }
    }
}

} // verus!
