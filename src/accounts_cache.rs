use vstd::prelude::*;
use dashmap::DashMap;
use crate::order_manager::Pubkey;

verus! {

#[verifier::external_type_specification]
#[verifier::external_body]
#[verifier::reject_recursive_types(K)]
#[verifier::reject_recursive_types(V)]
#[verifier::reject_recursive_types(S)]
pub struct ExDashMap<K, V, S>(DashMap<K, V, S>);

/// What a map of account snapshots holds: per key, the account bytes and the
/// slot at which they were read.
pub uninterp spec fn snapshot_entries(m: DashMap<Pubkey, (Vec<u8>, u64)>) -> Map<Pubkey, (Seq<u8>, u64)>;

/// Relies on `DashMap::new`: a new map holds no entry.
#[verifier::external_body]
fn snapshot_map_new() -> (r: DashMap<Pubkey, (Vec<u8>, u64)>)
    ensures
        snapshot_entries(r).dom() == Set::<Pubkey>::empty(),
{
    DashMap::new()
}

/// Relies on `DashMap::insert`: afterwards the key holds the new value and
/// every other key keeps its entry.
#[verifier::external_body]
fn snapshot_map_insert(m: &mut DashMap<Pubkey, (Vec<u8>, u64)>, key: Pubkey, value: (Vec<u8>, u64))
    ensures
        snapshot_entries(*final(m)) == snapshot_entries(*old(m)).insert(key, (value.0@, value.1)),
{
    m.insert(key, value);
}

/// Relies on `DashMap::get`: the entry stored under the key, copied out of the
/// read guard, or `None` where the key has none.
#[verifier::external_body]
fn snapshot_map_get(m: &DashMap<Pubkey, (Vec<u8>, u64)>, key: &Pubkey) -> (r: Option<(Vec<u8>, u64)>)
    ensures
        r is Some <==> snapshot_entries(*m).contains_key(*key),
        r is Some ==> (r.unwrap().0@, r.unwrap().1) == snapshot_entries(*m)[*key],
{
    match m.get(key) {
        Some(entry) => Some((entry.value().0.clone(), entry.value().1)),
        None => None,
    }
}

/// A snapshot of one account: its raw bytes and the slot at which they were read.
#[derive(Clone, Debug)]
pub struct AccountState {
    pub account: Vec<u8>,
    pub slot: u64,
}

/// Process-wide store of the latest snapshot of each watched account.
pub struct AccountsCache {
    map: DashMap<Pubkey, (Vec<u8>, u64)>,
}

impl AccountsCache {
    /// Per key, the bytes and slot of the latest snapshot written.
    pub closed spec fn view(&self) -> Map<Pubkey, (Seq<u8>, u64)> {
        snapshot_entries(self.map)
    }

    pub fn default() -> (r: Self)
        ensures
            r.view().dom() == Set::<Pubkey>::empty(),
    {
        AccountsCache { map: snapshot_map_new() }
    }

    pub fn new() -> (r: Self)
        ensures
            r.view().dom() == Set::<Pubkey>::empty(),
    {
        AccountsCache { map: snapshot_map_new() }
    }

    /// The latest snapshot of `key`, if one was written.
    pub fn get(&self, key: &Pubkey) -> (r: Option<AccountState>)
        ensures
            r is Some <==> self.view().contains_key(*key),
            r is Some ==> (r.unwrap().account@, r.unwrap().slot) == self.view()[*key],
    {
        match snapshot_map_get(&self.map, key) {
            Some(entry) => Some(AccountState { account: entry.0, slot: entry.1 }),
            None => None,
        }
    }

    /// Writes the snapshot unconditionally; other keys are untouched.
    pub fn insert(&mut self, key: Pubkey, data: AccountState)
        ensures
            final(self).view() == old(self).view().insert(key, (data.account@, data.slot)),
    {
        snapshot_map_insert(&mut self.map, key, (data.account, data.slot));
    }
}

/// After `insert(key, data)` completes, `get(key)` finds a snapshot whose
/// slot is at least `data.slot` (here: exactly the written snapshot), and
/// every other key reads as before the write.
pub proof fn lemma_insert_then_get(before: AccountsCache, after: AccountsCache, key: Pubkey, data: AccountState, other: Pubkey)
    requires
        after.view() == before.view().insert(key, (data.account@, data.slot)),
    ensures
        after.view().contains_key(key),
        after.view()[key].1 >= data.slot,
        after.view()[key] == (data.account@, data.slot),
        other != key ==> after.view().contains_key(other) == before.view().contains_key(other),
        other != key && before.view().contains_key(other) ==> after.view()[other] == before.view()[other],
{
}

} // verus!
