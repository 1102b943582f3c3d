//! The DNS contract: record lists under `name:TYPE` keys, changed only by the owner.

use vstd::prelude::*;

use crate::account::current_account;
use crate::account::is_valid_account_id;
use crate::account::parent_account;
use crate::account::parent_account_id;
use crate::account::predecessor_account;
use crate::account::valid_account_id;
use crate::record::DnsRecord;
use crate::record::DnsRecordView;
use crate::store::entry_view;
use crate::store::from_rows;
use crate::store::lemma_put;
use crate::store::lemma_take_out;
use crate::store::listed;
use crate::store::records_at;
use crate::store::put;
use crate::store::rows_view;
use crate::store::store_ok;
use crate::store::store_view;
use crate::store::take_out;
use crate::store::to_row;
use crate::store::to_rows;
use crate::store::RecordStore;
use crate::store::StoreView;
use crate::store::StoredRecord;
use crate::text::before_first;
use crate::text::occurs_at;
use crate::text::concat;
use crate::text::dedup;
use crate::text::lemma_dedup;
use crate::text::is_ascii_text;
use crate::text::lemma_ascii_case;
use crate::text::lowercase;
use crate::text::same_text;
use crate::text::starts_with_text;
use crate::text::text_before;
use crate::text::to_lowercase;
use crate::text::to_uppercase;
use crate::text::uppercase;

verus! {

/// Why the contract refused a change.
#[derive(Debug, PartialEq, Eq, Structural)]
pub enum ContractError {
    /// The caller is not the owner of the contract.
    NotOwner,
    /// `dns_update` was given no records.
    EmptyRecords,
    /// `dns_update` was given records of more than one type.
    MixedRecordTypes,
    /// The new owner is not a valid account id.
    InvalidAccountId,
}

/// The storage prefix of the records: the byte of `r`.
pub const RECORDS_PREFIX: u8 = 0x72;

/// The record types that `dns_query_all` goes through, in order.
pub open spec fn record_types() -> Seq<Seq<char>> {
    seq![
        "A"@,
        "AAAA"@,
        "CNAME"@,
        "MX"@,
        "NS"@,
        "TXT"@,
        "SRV"@,
        "SOA"@,
        "PTR"@,
        "CAA"@,
    ]
}

/// The storage key of a name and a record type: the lowercased name, a colon,
/// and the uppercased type.
pub open spec fn storage_key(name: Seq<char>, record_type: Seq<char>) -> Seq<char> {
    lowercase(name) + ":"@ + uppercase(record_type)
}

/// The records of every type in `types` under `name`, one type after another.
pub open spec fn records_of_types(s: StoreView, name: Seq<char>, types: Seq<Seq<char>>) -> Seq<
    DnsRecordView,
>
    decreases types.len(),
{
    if types.len() == 0 {
        Seq::empty()
    } else {
        let before = records_of_types(s, name, types.drop_last());
        match records_at(s, storage_key(name, types.last())) {
            Some(v) => before + v,
            None => before,
        }
    }
}

/// The name part of a storage key: the text before its first colon.
pub open spec fn key_name(k: Seq<char>) -> Seq<char> {
    before_first(k, ':')
}

/// Whether a storage key belongs to the (lowercased) name `lname`: it begins
/// with the name and a colon, as every key of the name with any type does.
pub open spec fn belongs_to(k: Seq<char>, lname: Seq<char>) -> bool {
    occurs_at(k, lname + ":"@, 0)
}

/// The keys in `ks` that belong to `lname`, in order.
pub open spec fn keys_of_name(ks: Seq<Seq<char>>, lname: Seq<char>) -> Seq<Seq<char>>
    decreases ks.len(),
{
    if ks.len() == 0 {
        Seq::empty()
    } else {
        let before = keys_of_name(ks.drop_last(), lname);
        if belongs_to(ks.last(), lname) {
            before.push(ks.last())
        } else {
            before
        }
    }
}

/// The store after taking out the keys `ks`, one after another.
pub open spec fn take_out_all(s: StoreView, ks: Seq<Seq<char>>) -> StoreView
    decreases ks.len(),
{
    if ks.len() == 0 {
        s
    } else {
        take_out(take_out_all(s, ks.drop_last()), ks.last())
    }
}

/// The names that have records: the name part of each listed key, each name
/// once, in the order of the keys.
pub open spec fn names_of(s: StoreView) -> Seq<Seq<char>> {
    dedup(s.keys.map_values(|k: Seq<char>| key_name(k)))
}

/// Whether every listed key finds a non-empty list of records.
pub open spec fn lists_nonempty(s: StoreView) -> bool {
    forall|i: int| #![trigger s.keys[i]] 0 <= i < s.keys.len() ==> s.values[s.keys[i]].len() > 0
}

/// Whether `k` is the key of some name with the type of `record`.
pub open spec fn key_fits(k: Seq<char>, record: DnsRecordView) -> bool {
    exists|n: Seq<char>| k == #[trigger] storage_key(n, record.record_type)
}

/// Whether every record with an ASCII type under a listed key sits under the
/// key of some name with its own type: a lowercased name, a colon, and the
/// record's type in upper case.
pub open spec fn keys_carry_types(s: StoreView) -> bool {
    forall|i: int, j: int|
        #![trigger s.values[s.keys[i]][j]]
        0 <= i < s.keys.len() && 0 <= j < s.values[s.keys[i]].len() && is_ascii_text(
            s.values[s.keys[i]][j].record_type,
        ) ==> key_fits(s.keys[i], s.values[s.keys[i]][j])
}

/// Whether every record of `v` with an ASCII type fits the key `k`.
pub open spec fn list_fits(k: Seq<char>, v: Seq<DnsRecordView>) -> bool {
    forall|j: int|
        0 <= j < v.len() && is_ascii_text(#[trigger] v[j].record_type) ==> key_fits(k, v[j])
}

/// Whether every record has the type of the first, compared in upper case.
pub open spec fn same_type(records: Seq<DnsRecordView>) -> bool {
    forall|i: int|
        0 <= i < records.len() ==> uppercase(#[trigger] records[i].record_type) == uppercase(
            records[0].record_type,
        )
}

/// What `dns_update` by `caller` answers, and the store it leaves.
pub open spec fn update_outcome(
    s: StoreView,
    owner: Seq<char>,
    caller: Seq<char>,
    name: Seq<char>,
    records: Seq<DnsRecordView>,
) -> (Result<(), ContractError>, StoreView) {
    if caller != owner {
        (Err(ContractError::NotOwner), s)
    } else if records.len() == 0 {
        (Err(ContractError::EmptyRecords), s)
    } else if !same_type(records) {
        (Err(ContractError::MixedRecordTypes), s)
    } else {
        (Ok(()), put(s, storage_key(name, uppercase(records[0].record_type)), records))
    }
}

/// What `dns_add` by `caller` answers, and the store it leaves: the record
/// goes after those already stored under its key.
pub open spec fn add_outcome(
    s: StoreView,
    owner: Seq<char>,
    caller: Seq<char>,
    name: Seq<char>,
    record: DnsRecordView,
) -> (Result<(), ContractError>, StoreView) {
    if caller != owner {
        (Err(ContractError::NotOwner), s)
    } else {
        let k = storage_key(name, record.record_type);
        let existing = match records_at(s, k) {
            Some(v) => v,
            None => Seq::empty(),
        };
        (Ok(()), put(s, k, existing.push(record)))
    }
}

/// What `dns_delete` by `caller` answers, and the store it leaves: the key of
/// the name and the type goes, or every listed key that belongs to the
/// lowercased name when no type is given. Only listed keys are taken out.
pub open spec fn delete_outcome(
    s: StoreView,
    owner: Seq<char>,
    caller: Seq<char>,
    name: Seq<char>,
    record_type: Option<Seq<char>>,
) -> (Result<(), ContractError>, StoreView) {
    if caller != owner {
        (Err(ContractError::NotOwner), s)
    } else {
        match record_type {
            Some(t) => (Ok(()), take_out(s, storage_key(name, t))),
            None => (Ok(()), take_out_all(s, keys_of_name(s.keys, lowercase(name)))),
        }
    }
}

/// What `transfer_ownership` by `caller` answers, and the owner it leaves. An
/// id that is not a valid account id is refused before the caller is looked at,
/// as the contract's argument parser refuses it.
pub open spec fn transfer_outcome(owner: Seq<char>, caller: Seq<char>, new_owner: Seq<char>) -> (
    Result<(), ContractError>,
    Seq<char>,
) {
    if !valid_account_id(new_owner) {
        (Err(ContractError::InvalidAccountId), owner)
    } else if caller != owner {
        (Err(ContractError::NotOwner), owner)
    } else {
        (Ok(()), new_owner)
    }
}

/// The owner of a new contract: the parent of the contract's account, or the
/// account that created it when the contract's account has no parent.
pub open spec fn initial_owner(current: Seq<char>, predecessor: Seq<char>) -> Seq<char> {
    match parent_account(current) {
        Some(p) => p,
        None => predecessor,
    }
}

/// A DNS contract, deployed as `dns.<account>`: record lists stored under
/// `name:TYPE` keys, and the account allowed to change them.
pub struct DnsContract {
    records: RecordStore,
    owner: String,
}

impl DnsContract {
    /// The stored records, as plain values.
    pub closed spec fn records_view(&self) -> StoreView {
        store_view(self.records)
    }

    /// The owner, as text.
    pub closed spec fn owner_text(&self) -> Seq<char> {
        self.owner@
    }

    /// The contract's invariant: no key is listed twice, every listed key
    /// finds a non-empty list of records, and every record with an ASCII type
    /// sits under the key of a name with its own type.
    pub open spec fn wf(&self) -> bool {
        &&& store_ok(self.records_view())
        &&& lists_nonempty(self.records_view())
        &&& keys_carry_types(self.records_view())
    }

    /// A new contract for the account that runs it. The owner is the parent
    /// account (`alice.near` for `dns.alice.near`), or the caller when the
    /// account has no parent.
    pub fn new() -> (r: Self)
        ensures
            r.wf(),
            r.records_view().keys == Seq::<Seq<char>>::empty(),
            exists|current: Seq<char>, predecessor: Seq<char>|
                valid_account_id(current) && valid_account_id(predecessor) && r.owner_text()
                    == initial_owner(current, predecessor),
    {
        let current = current_account();
        let predecessor = predecessor_account();
        Self::with_accounts(current.as_str(), predecessor.as_str())
    }

    /// A new contract running as `current_account`, created by `predecessor`.
    pub fn with_accounts(current_account: &str, predecessor: &str) -> (r: Self)
        ensures
            r.wf(),
            r.records_view().keys == Seq::<Seq<char>>::empty(),
            r.owner_text() == initial_owner(current_account@, predecessor@),
    {
        let owner = match parent_account_id(current_account) {
            Some(p) => p,
            None => predecessor.to_owned(),
        };
        DnsContract { records: RecordStore::new(RECORDS_PREFIX), owner }
    }

    /// The storage key of a name and a record type.
    fn make_key(name: &str, record_type: &str) -> (k: String)
        ensures
            k@ == storage_key(name@, record_type@),
    {
        let lower = to_lowercase(name);
        let upper = to_uppercase(record_type);
        let with_colon = concat(lower.as_str(), ":");
        concat(with_colon.as_str(), upper.as_str())
    }

    /// The records of `name` with type `record_type`, if any are stored.
    pub fn dns_query(&self, name: String, record_type: String) -> (r: Option<Vec<DnsRecord>>)
        ensures
            match records_at(self.records_view(), storage_key(name@, record_type@)) {
                Some(v) => r matches Some(x) && x.deep_view() == v,
                None => r is None,
            },
    {
        let key = Self::make_key(name.as_str(), record_type.as_str());
        match self.records.get(key.as_str()) {
            Some(rows) => Some(from_rows(&rows)),
            None => None,
        }
    }

    /// The record types that the contract goes through, in order.
    fn record_type_names() -> (r: Vec<&'static str>)
        ensures
            r@.map_values(|t: &str| t@) == record_types(),
    {
        let r = vec!["A", "AAAA", "CNAME", "MX", "NS", "TXT", "SRV", "SOA", "PTR", "CAA"];
        assert(r@.map_values(|t: &str| t@) =~= record_types());
        r
    }

    /// All records of `name`, type after type in the order of `record_types`.
    pub fn dns_query_all(&self, name: String) -> (r: Vec<DnsRecord>)
        ensures
            r.deep_view() == records_of_types(self.records_view(), name@, record_types()),
    {
        let types = Self::record_type_names();
        let ghost tv = types@.map_values(|t: &str| t@);
        let mut all: Vec<DnsRecord> = Vec::new();
        let mut i: usize = 0;
        assert(tv.take(0) =~= Seq::<Seq<char>>::empty());
        while i < types.len()
            invariant
                i <= types@.len(),
                tv == types@.map_values(|t: &str| t@),
                tv == record_types(),
                all.deep_view() == records_of_types(self.records_view(), name@, tv.take(i as int)),
            decreases types.len() - i,
        {
            assert(tv.take(i + 1).drop_last() =~= tv.take(i as int));
            assert(tv.take(i + 1).last() == types@[i as int]@);
            let key = Self::make_key(name.as_str(), types[i]);
            match self.records.get(key.as_str()) {
                Some(rows) => {
                    let found = from_rows(&rows);
                    let ghost before = all.deep_view();
                    let mut k: usize = 0;
                    while k < found.len()
                        invariant
                            k <= found@.len(),
                            all.deep_view() == before + found.deep_view().take(k as int),
                        decreases found.len() - k,
                    {
                        let ghost b2 = all.deep_view();
                        let d = found[k].duplicate();
                        all.push(d);
                        assert(all.deep_view() =~= b2.push(d@));
                        assert(found.deep_view()[k as int] == found@[k as int]@);
                        assert(all.deep_view() =~= before + found.deep_view().take(k + 1));
                        k += 1;
                    }
                    assert(found.deep_view().take(found@.len() as int) =~= found.deep_view());
                },
                None => {},
            }
            i += 1;
        }
        assert(tv.take(types@.len() as int) =~= tv);
        all
    }

    /// The names that have records, each once, in the order of the listed keys.
    pub fn dns_list_names(&self) -> (r: Vec<String>)
        ensures
            r.deep_view() == names_of(self.records_view()),
            r.deep_view().no_duplicates(),
    {
        let keys = self.records.keys();
        let ghost names = keys.deep_view().map_values(|k: Seq<char>| key_name(k));
        let mut out: Vec<String> = Vec::new();
        let mut i: usize = 0;
        assert(names.take(0) =~= Seq::<Seq<char>>::empty());
        while i < keys.len()
            invariant
                i <= keys@.len(),
                names == keys.deep_view().map_values(|k: Seq<char>| key_name(k)),
                out.deep_view() == dedup(names.take(i as int)),
            decreases keys.len() - i,
        {
            let name = text_before(keys[i].as_str(), ':');
            assert(names.take(i + 1).drop_last() =~= names.take(i as int));
            assert(names.take(i + 1).last() == name@);
            let mut seen = false;
            let mut j: usize = 0;
            while j < out.len()
                invariant
                    j <= out@.len(),
                    seen == (exists|t: int| 0 <= t < j && out.deep_view()[t] == name@),
                decreases out.len() - j,
            {
                assert(out.deep_view()[j as int] == out@[j as int]@);
                if same_text(out[j].as_str(), name.as_str()) {
                    seen = true;
                }
                j += 1;
            }
            let ghost before = out.deep_view();
            if !seen {
                out.push(name);
                assert(out.deep_view() =~= before.push(name@));
            }
            i += 1;
        }
        assert(names.take(keys@.len() as int) =~= names);
        proof {
            lemma_dedup(names);
        }
        out
    }

    /// Every listed key with its records, in iteration order.
    pub fn dns_list_all(&self) -> (r: Vec<(String, Vec<DnsRecord>)>)
        requires
            self.wf(),
        ensures
            r.deep_view() == listed(self.records_view()),
    {
        let stored = self.records.entries();
        let ghost all = listed(self.records_view());
        let mut out: Vec<(String, Vec<DnsRecord>)> = Vec::new();
        let mut i: usize = 0;
        while i < stored.len()
            invariant
                i <= stored@.len(),
                stored@.map_values(|e: (String, Vec<StoredRecord>)| entry_view(e)) == all,
                out.deep_view() == all.take(i as int),
            decreases stored.len() - i,
        {
            let key = stored[i].0.clone();
            let records = from_rows(&stored[i].1);
            let ghost before = out.deep_view();
            assert(entry_view(stored@[i as int]) == all[i as int]);
            assert(stored@[i as int].0@ == key@);
            out.push((key, records));
            assert(out.deep_view() =~= before.push(all[i as int]));
            assert(out.deep_view() =~= all.take(i + 1));
            i += 1;
        }
        assert(all.take(stored@.len() as int) =~= all);
        out
    }

    /// Whether the store lists `key`.
    fn is_listed(&self, key: &str) -> (r: bool)
        ensures
            r == self.records_view().keys.contains(key@),
    {
        let keys = self.records.keys();
        let mut i: usize = 0;
        while i < keys.len()
            invariant
                i <= keys@.len(),
                keys.deep_view() == self.records_view().keys,
                forall|j: int| 0 <= j < i ==> keys.deep_view()[j] != key@,
            decreases keys.len() - i,
        {
            assert(keys.deep_view()[i as int] == keys@[i as int]@);
            if same_text(keys[i].as_str(), key) {
                return true;
            }
            i += 1;
        }
        false
    }

    /// The owner of the contract.
    pub fn get_owner(&self) -> (r: String)
        ensures
            r@ == self.owner_text(),
    {
        self.owner.clone()
    }

    /// Whether `caller` is the owner.
    fn is_owner(&self, caller: &str) -> (r: bool)
        ensures
            r == (caller@ == self.owner_text()),
    {
        same_text(caller, self.owner.as_str())
    }

    /// Replaces the records of one type under `name` with `records`, when the
    /// transaction's caller is the owner; see `dns_update_by`.
    pub fn dns_update(&mut self, name: String, records: Vec<DnsRecord>) -> (r: Result<(), ContractError>)
        requires
            old(self).wf(),
        ensures
            final(self).wf(),
            final(self).owner_text() == old(self).owner_text(),
            exists|caller: Seq<char>|
                valid_account_id(caller) && (r, final(self).records_view()) == update_outcome(
                    old(self).records_view(),
                    old(self).owner_text(),
                    caller,
                    name@,
                    records.deep_view(),
                ),
    {
        let caller = predecessor_account();
        self.dns_update_by(caller.as_str(), name, records)
    }

    /// Replaces the records under `name` of the type of `records` (taken in
    /// upper case) with `records`. Only the owner may; the records must not be
    /// empty and must all have one type.
    pub fn dns_update_by(&mut self, caller: &str, name: String, records: Vec<DnsRecord>) -> (r:
        Result<(), ContractError>)
        requires
            old(self).wf(),
        ensures
            final(self).wf(),
            final(self).owner_text() == old(self).owner_text(),
            (r, final(self).records_view()) == update_outcome(
                old(self).records_view(),
                old(self).owner_text(),
                caller@,
                name@,
                records.deep_view(),
            ),
    {
        if !self.is_owner(caller) {
            return Err(ContractError::NotOwner);
        }
        if records.len() == 0 {
            return Err(ContractError::EmptyRecords);
        }
        let record_type = to_uppercase(records[0].record_type.as_str());
        let mut i: usize = 0;
        while i < records.len()
            invariant
                i <= records@.len(),
                records@.len() > 0,
                self.wf(),
                self.records_view() == old(self).records_view(),
                self.owner_text() == old(self).owner_text(),
                caller@ == self.owner_text(),
                record_type@ == uppercase(records.deep_view()[0].record_type),
                forall|j: int|
                    0 <= j < i ==> uppercase(#[trigger] records.deep_view()[j].record_type)
                        == record_type@,
            decreases records.len() - i,
        {
            let t = to_uppercase(records[i].record_type.as_str());
            assert(records.deep_view()[i as int] == records@[i as int]@);
            if !same_text(t.as_str(), record_type.as_str()) {
                assert(uppercase(records.deep_view()[i as int].record_type) != uppercase(
                    records.deep_view()[0].record_type,
                ));
                assert(!same_type(records.deep_view()));
                return Err(ContractError::MixedRecordTypes);
            }
            i += 1;
        }
        let key = Self::make_key(name.as_str(), record_type.as_str());
        let rows = to_rows(&records);
        proof {
            lemma_put(self.records_view(), key@, rows_view(rows@));
            lemma_nonempty_put(self.records_view(), key@, rows_view(rows@));
            lemma_update_fits(name@, records.deep_view());
            lemma_types_put(self.records_view(), key@, rows_view(rows@));
        }
        self.records.insert(key, rows);
        Ok(())
    }

    /// Adds one record after those of its type under `name`, when the
    /// transaction's caller is the owner; see `dns_add_by`.
    pub fn dns_add(&mut self, name: String, record: DnsRecord) -> (r: Result<(), ContractError>)
        requires
            old(self).wf(),
        ensures
            final(self).wf(),
            final(self).owner_text() == old(self).owner_text(),
            exists|caller: Seq<char>|
                valid_account_id(caller) && (r, final(self).records_view()) == add_outcome(
                    old(self).records_view(),
                    old(self).owner_text(),
                    caller,
                    name@,
                    record@,
                ),
    {
        let caller = predecessor_account();
        self.dns_add_by(caller.as_str(), name, record)
    }

    /// Adds one record after those already stored under its name and type.
    /// Only the owner may.
    pub fn dns_add_by(&mut self, caller: &str, name: String, record: DnsRecord) -> (r: Result<
        (),
        ContractError,
    >)
        requires
            old(self).wf(),
        ensures
            final(self).wf(),
            final(self).owner_text() == old(self).owner_text(),
            (r, final(self).records_view()) == add_outcome(
                old(self).records_view(),
                old(self).owner_text(),
                caller@,
                name@,
                record@,
            ),
    {
        if !self.is_owner(caller) {
            return Err(ContractError::NotOwner);
        }
        let key = Self::make_key(name.as_str(), record.record_type.as_str());
        let mut rows = match self.records.get(key.as_str()) {
            Some(rows) => rows,
            None => Vec::new(),
        };
        let ghost before = rows@;
        assert(rows_view(before) == match records_at(self.records_view(), key@) {
            Some(v) => v,
            None => Seq::<DnsRecordView>::empty(),
        }) by {
            if records_at(self.records_view(), key@) is None {
                assert(rows_view(before) =~= Seq::<DnsRecordView>::empty());
            }
        }
        let row = to_row(&record);
        rows.push(row);
        assert(rows_view(rows@) =~= rows_view(before).push(record@));
        proof {
            lemma_put(self.records_view(), key@, rows_view(rows@));
            lemma_nonempty_put(self.records_view(), key@, rows_view(rows@));
            lemma_add_fits(self.records_view(), name@, record@);
            lemma_types_put(self.records_view(), key@, rows_view(rows@));
        }
        self.records.insert(key, rows);
        Ok(())
    }

    /// Deletes the records of one type under `name`, or every record of the
    /// name when no type is given, when the transaction's caller is the owner;
    /// see `dns_delete_by`.
    pub fn dns_delete(&mut self, name: String, record_type: Option<String>) -> (r: Result<
        (),
        ContractError,
    >)
        requires
            old(self).wf(),
        ensures
            final(self).wf(),
            final(self).owner_text() == old(self).owner_text(),
            exists|caller: Seq<char>|
                valid_account_id(caller) && (r, final(self).records_view()) == delete_outcome(
                    old(self).records_view(),
                    old(self).owner_text(),
                    caller,
                    name@,
                    record_type.deep_view(),
                ),
    {
        let caller = predecessor_account();
        self.dns_delete_by(caller.as_str(), name, record_type)
    }

    /// Deletes the records of one type under `name`, or every record of the
    /// name (every listed key that begins with the lowercased name and a colon) when no
    /// type is given. Only the owner may.
    pub fn dns_delete_by(&mut self, caller: &str, name: String, record_type: Option<String>) -> (r:
        Result<(), ContractError>)
        requires
            old(self).wf(),
        ensures
            final(self).wf(),
            final(self).owner_text() == old(self).owner_text(),
            (r, final(self).records_view()) == delete_outcome(
                old(self).records_view(),
                old(self).owner_text(),
                caller@,
                name@,
                record_type.deep_view(),
            ),
    {
        if !self.is_owner(caller) {
            return Err(ContractError::NotOwner);
        }
        match record_type {
            Some(rt) => {
                let key = Self::make_key(name.as_str(), rt.as_str());
                if self.is_listed(key.as_str()) {
                    proof {
                        lemma_take_out(self.records_view(), key@);
                        lemma_nonempty_take_out(self.records_view(), key@);
                        lemma_types_take_out(self.records_view(), key@);
                    }
                    self.records.remove(key.as_str());
                }
            },
            None => {
                let lname = to_lowercase(name.as_str());
                let prefix = concat(lname.as_str(), ":");
                let keys = self.records.keys();
                let ghost s0 = self.records_view();
                let ghost ks = keys.deep_view();
                let mut i: usize = 0;
                assert(ks.take(0) =~= Seq::<Seq<char>>::empty());
                while i < keys.len()
                    invariant
                        i <= keys@.len(),
                        ks == keys.deep_view(),
                        ks == s0.keys,
                        store_ok(s0),
                        lname@ == lowercase(name@),
                        prefix@ == lname@ + ":"@,
                        self.wf(),
                        self.owner_text() == old(self).owner_text(),
                        self.records_view() == take_out_all(s0, keys_of_name(ks.take(i as int), lname@)),
                    decreases keys.len() - i,
                {
                    assert(keys.deep_view()[i as int] == keys@[i as int]@);
                    assert(ks.take(i + 1).drop_last() =~= ks.take(i as int));
                    assert(ks.take(i + 1).last() == ks[i as int]);
                    if starts_with_text(keys[i].as_str(), prefix.as_str()) {
                        proof {
                            lemma_take_out_all(s0, keys_of_name(ks.take(i as int), lname@));
                            lemma_keys_of_name(ks.take(i as int), lname@);
                            assert(s0.keys.contains(ks[i as int]));
                            if keys_of_name(ks.take(i as int), lname@).contains(ks[i as int]) {
                                let j = choose|j: int|
                                    0 <= j < i && ks.take(i as int)[j] == ks[i as int];
                                assert(ks[j] == ks[i as int]);
                            }
                            lemma_take_out(self.records_view(), ks[i as int]);
                            lemma_nonempty_take_out(self.records_view(), ks[i as int]);
                            lemma_types_take_out(self.records_view(), ks[i as int]);
                        }
                        self.records.remove(keys[i].as_str());
                        proof {
                            let prev = keys_of_name(ks.take(i as int), lname@);
                            assert(keys_of_name(ks.take(i + 1), lname@) == prev.push(ks[i as int]));
                            assert(prev.push(ks[i as int]).drop_last() =~= prev);
                        }
                    } else {
                        assert(keys_of_name(ks.take(i + 1), lname@) == keys_of_name(
                            ks.take(i as int),
                            lname@,
                        ));
                    }
                    i += 1;
                }
                assert(ks.take(keys@.len() as int) =~= ks);
            },
        }
        Ok(())
    }

    /// Hands the contract to `new_owner`, when the transaction's caller is the
    /// owner; see `transfer_ownership_by`.
    pub fn transfer_ownership(&mut self, new_owner: String) -> (r: Result<(), ContractError>)
        requires
            old(self).wf(),
        ensures
            final(self).wf(),
            final(self).records_view() == old(self).records_view(),
            exists|caller: Seq<char>|
                valid_account_id(caller) && (r, final(self).owner_text()) == transfer_outcome(
                    old(self).owner_text(),
                    caller,
                    new_owner@,
                ),
    {
        let caller = predecessor_account();
        self.transfer_ownership_by(caller.as_str(), new_owner)
    }

    /// Hands the contract to `new_owner`, which must be a valid account id.
    /// Only the owner may.
    pub fn transfer_ownership_by(&mut self, caller: &str, new_owner: String) -> (r: Result<
        (),
        ContractError,
    >)
        requires
            old(self).wf(),
        ensures
            final(self).wf(),
            final(self).records_view() == old(self).records_view(),
            (r, final(self).owner_text()) == transfer_outcome(
                old(self).owner_text(),
                caller@,
                new_owner@,
            ),
    {
        if !is_valid_account_id(new_owner.as_str()) {
            return Err(ContractError::InvalidAccountId);
        }
        if !self.is_owner(caller) {
            return Err(ContractError::NotOwner);
        }
        self.owner = new_owner;
        Ok(())
    }
}

/// Putting a non-empty list keeps every listed key's list non-empty.
pub proof fn lemma_nonempty_put(s: StoreView, k: Seq<char>, v: Seq<DnsRecordView>)
    requires
        store_ok(s),
        lists_nonempty(s),
        v.len() > 0,
    ensures
        lists_nonempty(put(s, k, v)),
{
    let p = put(s, k, v);
    assert forall|i: int| 0 <= i < p.keys.len() implies p.values[p.keys[i]].len() > 0 by {
        if p.keys[i] != k {
            assert(i < s.keys.len());
            assert(s.values[s.keys[i]].len() > 0);
        }
    }
}

/// Taking out a key keeps every listed key's list non-empty.
pub proof fn lemma_nonempty_take_out(s: StoreView, k: Seq<char>)
    requires
        store_ok(s),
        lists_nonempty(s),
    ensures
        lists_nonempty(take_out(s, k)),
{
    let t = take_out(s, k);
    lemma_take_out(s, k);
    assert forall|i: int| 0 <= i < t.keys.len() implies t.values[t.keys[i]].len() > 0 by {
        let k2 = t.keys[i];
        assert(t.keys.contains(k2));
        assert(s.keys.contains(k2) && k2 != k);
        let j = choose|j: int| 0 <= j < s.keys.len() && s.keys[j] == k2;
        assert(s.values[s.keys[j]].len() > 0);
        assert(records_at(t, k2) == records_at(s, k2));
    }
}

/// Putting a list keeps the records' keys fitting their types, when the key is
/// listed afterwards only if its records fit it.
pub proof fn lemma_types_put(s: StoreView, k: Seq<char>, v: Seq<DnsRecordView>)
    requires
        store_ok(s),
        keys_carry_types(s),
        (s.keys.contains(k) || !s.values.dom().contains(k)) ==> list_fits(k, v),
    ensures
        keys_carry_types(put(s, k, v)),
{
    let p = put(s, k, v);
    assert forall|i: int, j: int|
        0 <= i < p.keys.len() && 0 <= j < p.values[p.keys[i]].len() && is_ascii_text(
            #[trigger] p.values[p.keys[i]][j].record_type,
        ) implies key_fits(p.keys[i], p.values[p.keys[i]][j]) by {
        if p.keys[i] == k {
            if s.values.dom().contains(k) {
                assert(s.keys[i] == k);
                assert(s.keys.contains(k));
            }
            assert(list_fits(k, v));
            assert(p.values[k] == v);
        } else {
            assert(i < s.keys.len());
            assert(s.keys[i] == p.keys[i]);
            assert(p.values[p.keys[i]] == s.values[s.keys[i]]);
            assert(s.values[s.keys[i]][j] == p.values[p.keys[i]][j]);
        }
    }
}

/// Taking out a key keeps the records' keys fitting their types.
pub proof fn lemma_types_take_out(s: StoreView, k: Seq<char>)
    requires
        store_ok(s),
        keys_carry_types(s),
    ensures
        keys_carry_types(take_out(s, k)),
{
    let t = take_out(s, k);
    lemma_take_out(s, k);
    assert forall|i: int, j: int|
        0 <= i < t.keys.len() && 0 <= j < t.values[t.keys[i]].len() && is_ascii_text(
            #[trigger] t.values[t.keys[i]][j].record_type,
        ) implies key_fits(t.keys[i], t.values[t.keys[i]][j]) by {
        let k2 = t.keys[i];
        assert(t.keys.contains(k2));
        assert(s.keys.contains(k2) && k2 != k);
        let i2 = choose|i2: int| 0 <= i2 < s.keys.len() && s.keys[i2] == k2;
        assert(records_at(t, k2) == records_at(s, k2));
        assert(t.values[k2] == s.values[k2]);
        assert(s.values[s.keys[i2]][j] == t.values[t.keys[i]][j]);
    }
}

/// The records that `dns_update` stores fit the key it stores them under.
pub proof fn lemma_update_fits(name: Seq<char>, records: Seq<DnsRecordView>)
    requires
        records.len() > 0,
        same_type(records),
    ensures
        list_fits(storage_key(name, uppercase(records[0].record_type)), records),
{
    let u = uppercase(records[0].record_type);
    let k = storage_key(name, u);
    assert forall|j: int|
        0 <= j < records.len() && is_ascii_text(#[trigger] records[j].record_type) implies key_fits(
        k,
        records[j],
    ) by {
        let t = records[j].record_type;
        lemma_ascii_case(t);
        assert(uppercase(t) == u);
        assert(uppercase(u) == u);
        assert(k == storage_key(name, t));
    }
}

/// The records that `dns_add` stores fit the key it stores them under, when
/// that key is listed or finds nothing.
pub proof fn lemma_add_fits(s: StoreView, name: Seq<char>, record: DnsRecordView)
    requires
        store_ok(s),
        keys_carry_types(s),
    ensures
        ({
            let k = storage_key(name, record.record_type);
            let existing = match records_at(s, k) {
                Some(v) => v,
                None => Seq::empty(),
            };
            (s.keys.contains(k) || !s.values.dom().contains(k)) ==> list_fits(
                k,
                existing.push(record),
            )
        }),
{
    let k = storage_key(name, record.record_type);
    let existing = match records_at(s, k) {
        Some(v) => v,
        None => Seq::empty(),
    };
    if s.keys.contains(k) || !s.values.dom().contains(k) {
        let v = existing.push(record);
        assert forall|j: int|
            0 <= j < v.len() && is_ascii_text(#[trigger] v[j].record_type) implies key_fits(
            k,
            v[j],
        ) by {
            if j == existing.len() {
                assert(k == storage_key(name, v[j].record_type));
            } else {
                let i = choose|i: int| 0 <= i < s.keys.len() && s.keys[i] == k;
                assert(existing == s.values[s.keys[i]]);
                assert(s.values[s.keys[i]][j] == v[j]);
            }
        }
    }
}

/// `keys_of_name` keeps exactly the keys of `ks` that belong to `name`.
pub proof fn lemma_keys_of_name(ks: Seq<Seq<char>>, name: Seq<char>)
    ensures
        forall|k: Seq<char>| #[trigger]
            keys_of_name(ks, name).contains(k) <==> (ks.contains(k) && belongs_to(k, name)),
    decreases ks.len(),
{
    if ks.len() > 0 {
        let init = ks.drop_last();
        lemma_keys_of_name(init, name);
        assert forall|k: Seq<char>| #[trigger]
            keys_of_name(ks, name).contains(k) <==> (ks.contains(k) && belongs_to(k, name)) by {
            assert(ks =~= init.push(ks.last()));
            assert(ks.contains(k) <==> (init.contains(k) || k == ks.last())) by {
                if ks.contains(k) {
                    let i = choose|i: int| 0 <= i < ks.len() && ks[i] == k;
                    if i < ks.len() - 1 {
                        assert(init[i] == k);
                    }
                }
                if init.contains(k) {
                    let i = choose|i: int| 0 <= i < init.len() && init[i] == k;
                    assert(ks[i] == k);
                }
                if k == ks.last() {
                    assert(ks[ks.len() - 1] == k);
                }
            }
            let before = keys_of_name(init, name);
            if belongs_to(ks.last(), name) {
                assert(before.push(ks.last()).contains(k) <==> (before.contains(k) || k
                    == ks.last())) by {
                    if before.push(ks.last()).contains(k) {
                        let i = choose|i: int|
                            0 <= i < before.push(ks.last()).len() && before.push(ks.last())[i]
                                == k;
                        if i < before.len() {
                            assert(before[i] == k);
                        }
                    }
                    if before.contains(k) {
                        let i = choose|i: int| 0 <= i < before.len() && before[i] == k;
                        assert(before.push(ks.last())[i] == k);
                    }
                    if k == ks.last() {
                        assert(before.push(ks.last())[before.len() as int] == k);
                    }
                }
            }
        }
    }
}

/// Taking out the keys `ks` one after another keeps the store's invariant,
/// unlists exactly those keys, leaves a listed one of them finding nothing,
/// and leaves every other key finding what it found.
pub proof fn lemma_take_out_all(s: StoreView, ks: Seq<Seq<char>>)
    requires
        store_ok(s),
    ensures
        store_ok(take_out_all(s, ks)),
        forall|k: Seq<char>| #[trigger]
            take_out_all(s, ks).keys.contains(k) <==> (s.keys.contains(k) && !ks.contains(k)),
        forall|k: Seq<char>|
            s.keys.contains(k) && ks.contains(k) ==> #[trigger] records_at(take_out_all(s, ks), k)
                is None,
        forall|k: Seq<char>| !ks.contains(k) ==> #[trigger] records_at(take_out_all(s, ks), k) == records_at(
            s,
            k,
        ),
    decreases ks.len(),
{
    if ks.len() > 0 {
        let init = ks.drop_last();
        let last = ks.last();
        lemma_take_out_all(s, init);
        let before = take_out_all(s, init);
        lemma_take_out(before, last);
        assert forall|k: Seq<char>| ks.contains(k) <==> (init.contains(k) || k == last) by {
            if ks.contains(k) {
                let i = choose|i: int| 0 <= i < ks.len() && ks[i] == k;
                if i < ks.len() - 1 {
                    assert(init[i] == k);
                }
            }
            if init.contains(k) {
                let i = choose|i: int| 0 <= i < init.len() && init[i] == k;
                assert(ks[i] == k);
            }
            if k == last {
                assert(ks[ks.len() - 1] == k);
            }
        }
        let after = take_out_all(s, ks);
        assert(after == take_out(before, last));
        assert forall|k: Seq<char>|
            s.keys.contains(k) && ks.contains(k) implies #[trigger] records_at(after, k) is None by {
            assert(records_at(take_out_all(s, init), k) == records_at(before, k));
            if k != last {
                assert(init.contains(k));
                assert(records_at(take_out(before, last), k) == records_at(before, k));
            } else if init.contains(k) {
                assert(!before.keys.contains(k));
                assert(take_out(before, last) == before);
            } else {
                assert(before.keys.contains(k));
            }
        }
        assert forall|k: Seq<char>| !ks.contains(k) implies #[trigger] records_at(after, k) == records_at(
            s,
            k,
        ) by {
            assert(!init.contains(k));
            assert(k != last);
            assert(records_at(take_out_all(s, init), k) == records_at(s, k));
            assert(records_at(take_out(before, last), k) == records_at(before, k));
        }
        assert forall|k: Seq<char>| #[trigger]
            after.keys.contains(k) <==> (s.keys.contains(k) && !ks.contains(k)) by {
            assert(take_out_all(s, init).keys.contains(k) <==> (s.keys.contains(k)
                && !init.contains(k)));
            assert(take_out(before, last).keys.contains(k) <==> (before.keys.contains(k) && k
                != last));
        }
    }
}

/// For an ASCII name and type, `dns_query` reads the same key as a query of
/// the lowercased name with the uppercased type, so their answers agree.
pub proof fn law_query_ignores_case(name: Seq<char>, record_type: Seq<char>)
    requires
        is_ascii_text(name),
        is_ascii_text(record_type),
    ensures
        storage_key(lowercase(name), uppercase(record_type)) == storage_key(name, record_type),
{
    lemma_ascii_case(name);
    lemma_ascii_case(record_type);
}

/// The owner's `dns_update` succeeds for a non-empty list of records of one
/// type; afterwards `dns_query` of the name with the key's type (the first
/// record's type in upper case) gives exactly those records, every other key
/// keeps its records, and the invariant holds.
pub proof fn law_update_then_query(
    s: StoreView,
    owner: Seq<char>,
    name: Seq<char>,
    records: Seq<DnsRecordView>,
)
    requires
        store_ok(s),
        records.len() > 0,
        same_type(records),
    ensures
        ({
            let (r, after) = update_outcome(s, owner, owner, name, records);
            let k = storage_key(name, uppercase(records[0].record_type));
            &&& r is Ok
            &&& records_at(after, k) == Some(records)
            &&& forall|other: Seq<char>| other != k ==> records_at(after, other) == records_at(s, other)
            &&& store_ok(after)
        }),
{
    lemma_put(s, storage_key(name, uppercase(records[0].record_type)), records);
}

/// The owner's `dns_add` puts the record after those already stored under its
/// name and type, and keeps every other key with its records.
pub proof fn law_add_appends(s: StoreView, owner: Seq<char>, name: Seq<char>, record: DnsRecordView)
    requires
        store_ok(s),
    ensures
        ({
            let (r, after) = add_outcome(s, owner, owner, name, record);
            let k = storage_key(name, record.record_type);
            let existing = match records_at(s, k) {
                Some(v) => v,
                None => Seq::empty(),
            };
            &&& r is Ok
            &&& records_at(after, k) == Some(existing.push(record))
            &&& forall|other: Seq<char>| other != k ==> records_at(after, other) == records_at(s, other)
            &&& store_ok(after)
        }),
{
    let k = storage_key(name, record.record_type);
    let existing = match records_at(s, k) {
        Some(v) => v,
        None => Seq::empty(),
    };
    lemma_put(s, k, existing.push(record));
}

/// The owner's `dns_delete` of one type leaves no records under the name and
/// type, when every record found under that key was stored through the
/// contract's own list of keys, and keeps every other key with its records.
pub proof fn law_delete_removes(
    s: StoreView,
    owner: Seq<char>,
    name: Seq<char>,
    record_type: Seq<char>,
)
    requires
        store_ok(s),
        s.keys.contains(storage_key(name, record_type)) || !s.values.dom().contains(
            storage_key(name, record_type),
        ),
    ensures
        ({
            let (r, after) = delete_outcome(s, owner, owner, name, Some(record_type));
            let k = storage_key(name, record_type);
            &&& r is Ok
            &&& records_at(after, k) is None
            &&& forall|other: Seq<char>| other != k ==> records_at(after, other) == records_at(s, other)
            &&& store_ok(after)
        }),
{
    lemma_take_out(s, storage_key(name, record_type));
}

/// The owner's `dns_delete` without a type leaves no listed key of the name:
/// every key of the lowercased name with any type that was listed finds no
/// records, no listed key belongs to the name any more, and every key that
/// does not belong to it keeps its records.
pub proof fn law_delete_name_removes_all(s: StoreView, owner: Seq<char>, name: Seq<char>)
    requires
        store_ok(s),
    ensures
        ({
            let (r, after) = delete_outcome(s, owner, owner, name, None);
            &&& r is Ok
            &&& store_ok(after)
            &&& forall|i: int|
                0 <= i < after.keys.len() ==> !belongs_to(#[trigger] after.keys[i], lowercase(name))
            &&& forall|t: Seq<char>|
                s.keys.contains(#[trigger] storage_key(name, t)) ==> records_at(
                    after,
                    storage_key(name, t),
                ) is None
            &&& forall|k: Seq<char>|
                !belongs_to(k, lowercase(name)) ==> #[trigger] records_at(after, k) == records_at(s, k)
            &&& forall|k: Seq<char>|
                !belongs_to(k, lowercase(name)) ==> (#[trigger] after.keys.contains(k)
                    <==> s.keys.contains(k))
        }),
{
    let ks = keys_of_name(s.keys, lowercase(name));
    lemma_keys_of_name(s.keys, lowercase(name));
    lemma_take_out_all(s, ks);
    let after = take_out_all(s, ks);
    assert forall|i: int| 0 <= i < after.keys.len() implies !belongs_to(
        #[trigger] after.keys[i],
        lowercase(name),
    ) by {
        assert(after.keys.contains(after.keys[i]));
    }
    assert forall|t: Seq<char>| s.keys.contains(#[trigger] storage_key(name, t)) implies records_at(
        after,
        storage_key(name, t),
    ) is None by {
        let k = storage_key(name, t);
        let p = lowercase(name) + ":"@;
        assert(k =~= p + uppercase(t));
        assert(k.subrange(0, p.len() as int) =~= p);
        assert(belongs_to(k, lowercase(name)));
        assert(ks.contains(k));
    }
}

/// A change asked for by anyone but the owner is refused with `NotOwner`
/// and leaves the records and the owner as they were (a new owner given as a
/// valid account id, for `transfer_ownership`).
pub proof fn law_only_owner_changes(
    s: StoreView,
    owner: Seq<char>,
    caller: Seq<char>,
    name: Seq<char>,
    records: Seq<DnsRecordView>,
    record: DnsRecordView,
    record_type: Option<Seq<char>>,
    new_owner: Seq<char>,
)
    requires
        caller != owner,
        valid_account_id(new_owner),
    ensures
        update_outcome(s, owner, caller, name, records) == (
        Err::<(), ContractError>(ContractError::NotOwner),
        s,
    ),
        add_outcome(s, owner, caller, name, record) == (
        Err::<(), ContractError>(ContractError::NotOwner),
        s,
    ),
        delete_outcome(s, owner, caller, name, record_type) == (
        Err::<(), ContractError>(ContractError::NotOwner),
        s,
    ),
        transfer_outcome(owner, caller, new_owner) == (
        Err::<(), ContractError>(ContractError::NotOwner),
        owner,
    ),
{
}

/// After the owner hands the contract to a valid account, that account may
/// change the records and the former owner, if another account, may not.
pub proof fn law_transfer_hands_over(
    s: StoreView,
    owner: Seq<char>,
    new_owner: Seq<char>,
    name: Seq<char>,
    record: DnsRecordView,
)
    requires
        valid_account_id(new_owner),
        new_owner != owner,
    ensures
        ({
            let (r, after) = transfer_outcome(owner, owner, new_owner);
            &&& r is Ok
            &&& after == new_owner
            &&& add_outcome(s, after, owner, name, record).0 == Err::<(), ContractError>(
                ContractError::NotOwner,
            )
            &&& add_outcome(s, after, new_owner, name, record).0 is Ok
        }),
{
}

/// `dns_list_names` lists the name part of each listed key, each exactly once.
pub proof fn law_names_listed_once(s: StoreView)
    ensures
        names_of(s).no_duplicates(),
        forall|n: Seq<char>|
            names_of(s).contains(n) <==> exists|i: int|
                0 <= i < s.keys.len() && n == key_name(#[trigger] s.keys[i]),
{
    let ks = s.keys.map_values(|k: Seq<char>| key_name(k));
    lemma_dedup(ks);
    assert forall|n: Seq<char>|
        names_of(s).contains(n) <==> exists|i: int|
            0 <= i < s.keys.len() && n == key_name(#[trigger] s.keys[i]) by {
        if names_of(s).contains(n) {
            assert(ks.contains(n));
            let i = choose|i: int| 0 <= i < ks.len() && ks[i] == n;
            assert(n == key_name(s.keys[i]));
        }
        if exists|i: int| 0 <= i < s.keys.len() && n == key_name(#[trigger] s.keys[i]) {
            let i = choose|i: int| 0 <= i < s.keys.len() && n == key_name(#[trigger] s.keys[i]);
            assert(ks[i] == n);
            assert(ks.contains(n));
        }
    }
}

/// The records that `dns_query(name, t)` gives, as a list (none for no records).
pub open spec fn query_list(s: StoreView, name: Seq<char>, t: Seq<char>) -> Seq<DnsRecordView> {
    match records_at(s, storage_key(name, t)) {
        Some(v) => v,
        None => Seq::empty(),
    }
}

/// How many records the queries of `name` with each type of `types` give together.
pub open spec fn records_found(s: StoreView, name: Seq<char>, types: Seq<Seq<char>>) -> nat
    decreases types.len(),
{
    if types.len() == 0 {
        0
    } else {
        records_found(s, name, types.drop_last()) + query_list(s, name, types.last()).len()
    }
}

/// `dns_query_all` gives every record of every type: adding a type adds all
/// the records that `dns_query` gives for it, after the others; so it holds
/// as many records as the queries of each type give together, and each of them.
pub proof fn law_query_all_gives_every_record(
    s: StoreView,
    name: Seq<char>,
    types: Seq<Seq<char>>,
    t: Seq<char>,
)
    ensures
        records_of_types(s, name, types.push(t)) == records_of_types(s, name, types) + query_list(
            s,
            name,
            t,
        ),
        records_of_types(s, name, types).len() == records_found(s, name, types),
        forall|k: int, j: int|
            0 <= k < types.len() && 0 <= j < query_list(s, name, types[k]).len()
                ==> records_of_types(s, name, types).contains(
                #[trigger] query_list(s, name, types[k])[j],
            ),
    decreases types.len(),
{
    assert(types.push(t).drop_last() =~= types);
    if types.len() > 0 {
        let init = types.drop_last();
        law_query_all_gives_every_record(s, name, init, types.last());
        assert(init.push(types.last()) =~= types);
        let before = records_of_types(s, name, init);
        let last = query_list(s, name, types.last());
        assert forall|k: int, j: int|
            0 <= k < types.len() && 0 <= j < query_list(s, name, types[k]).len()
                implies records_of_types(s, name, types).contains(
            #[trigger] query_list(s, name, types[k])[j],
        ) by {
            let all = before + last;
            if k < types.len() - 1 {
                assert(init[k] == types[k]);
                let x = query_list(s, name, init[k])[j];
                assert(before.contains(x));
                let p = choose|p: int| 0 <= p < before.len() && before[p] == x;
                assert(all[p] == x);
            } else {
                assert(all[before.len() + j] == last[j]);
            }
        }
    }
}

} // verus!
