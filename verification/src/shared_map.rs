//! Maps that can be shared: who watches a key, and who is a member of what.

use dashmap::DashMap;
use vstd::prelude::*;

verus! {

/// A `dashmap::DashMap`. Verified code has one to itself while it changes it.
#[verifier::external_type_specification]
#[verifier::external_body]
#[verifier::reject_recursive_types(K)]
#[verifier::reject_recursive_types(V)]
#[verifier::reject_recursive_types(S)]
pub struct ExDashMap<K, V, S>(DashMap<K, V, S>);

/// A key of two numbers, and what two numbers are kept for it.
pub type PairMap = DashMap<(u8, u64), (u64, u64)>;

/// The entries of a map of pairs.
pub uninterp spec fn pairs_in(m: PairMap) -> Map<(u8, u64), (u64, u64)>;

/// `dashmap::DashMap::new`: a map without entries.
#[verifier::external_body]
pub(crate) fn new_pairs() -> (r: PairMap)
    ensures
        pairs_in(r).dom() == Set::<(u8, u64)>::empty(),
{
    DashMap::new()
}

/// `dashmap::DashMap::get`: the value stored for a key, `None` where there is
/// none.
#[verifier::external_body]
pub(crate) fn get_pair(m: &PairMap, key: (u8, u64)) -> (r: Option<(u64, u64)>)
    ensures
        r == if pairs_in(*m).dom().contains(key) {
            Some(pairs_in(*m)[key])
        } else {
            None
        },
{
    m.get(&key).map(|e| *e.value())
}

/// `dashmap::DashMap::insert`: stores a value for a key in place of the one
/// that was there, which it returns.
#[verifier::external_body]
pub(crate) fn insert_pair(m: &mut PairMap, key: (u8, u64), value: (u64, u64)) -> (r: Option<(u64, u64)>)
    ensures
        pairs_in(*final(m)) == pairs_in(*old(m)).insert(key, value),
        r == if pairs_in(*old(m)).dom().contains(key) {
            Some(pairs_in(*old(m))[key])
        } else {
            None
        },
{
    m.insert(key, value)
}

/// `dashmap::DashMap::remove`: takes a key and its value out and returns the
/// value.
#[verifier::external_body]
pub(crate) fn remove_pair(m: &mut PairMap, key: (u8, u64)) -> (r: Option<(u64, u64)>)
    ensures
        pairs_in(*final(m)) == pairs_in(*old(m)).remove(key),
        r == if pairs_in(*old(m)).dom().contains(key) {
            Some(pairs_in(*old(m))[key])
        } else {
            None
        },
{
    m.remove(&key).map(|e| e.1)
}

/// Sets of ids by id: a `dashmap::DashMap` of `hashbrown::HashSet`s. What it
/// holds is [`sets_in`].
#[verifier::external_body]
pub struct SetMap {
    map: DashMap<u64, hashbrown::HashSet<u64>>,
}

/// The sets of a map of sets.
pub uninterp spec fn sets_in(m: SetMap) -> Map<u64, Set<u64>>;

/// The set of an id; without one, the empty set.
pub open spec fn set_at(m: Map<u64, Set<u64>>, id: u64) -> Set<u64> {
    if m.dom().contains(id) {
        m[id]
    } else {
        Set::empty()
    }
}

impl SetMap {
    /// `dashmap::DashMap::new`: a map without entries.
    #[verifier::external_body]
    pub(crate) fn new() -> (r: Self)
        ensures
            sets_in(r).dom() == Set::<u64>::empty(),
    {
        SetMap { map: DashMap::new() }
    }

    /// `dashmap::DashMap::entry` with an empty set where there is none, and
    /// `hashbrown::HashSet::insert`: the set of an id has one more member.
    #[verifier::external_body]
    pub(crate) fn insert(&mut self, id: u64, member: u64)
        ensures
            sets_in(*final(self)) == sets_in(*old(self)).insert(id, set_at(sets_in(*old(self)), id).insert(member)),
    {
        self.map.entry(id).or_default().insert(member);
    }

    /// `dashmap::DashMap::get_mut`, then `hashbrown::HashSet::remove` and
    /// `hashbrown::HashSet::is_empty`: takes a member out of the set of an id
    /// and tells whether the set is now empty; `None` where there is no set.
    #[verifier::external_body]
    pub(crate) fn remove(&mut self, id: u64, member: u64) -> (r: Option<bool>)
        ensures
            match r {
                Some(empty) => {
                    let left = sets_in(*old(self))[id].remove(member);
                    &&& sets_in(*old(self)).dom().contains(id)
                    &&& sets_in(*final(self)) == sets_in(*old(self)).insert(id, left)
                    &&& empty <==> left == Set::<u64>::empty()
                },
                None => !sets_in(*old(self)).dom().contains(id) && sets_in(*final(self)) == sets_in(*old(self)),
            },
    {
        let mut set = self.map.get_mut(&id)?;
        set.remove(&member);
        Some(set.is_empty())
    }

    /// `dashmap::DashMap::remove`: takes the set of an id out.
    #[verifier::external_body]
    pub(crate) fn remove_set(&mut self, id: u64)
        ensures
            sets_in(*final(self)) == sets_in(*old(self)).remove(id),
    {
        let _ = self.map.remove(&id);
    }

    /// `dashmap::DashMap::get`, then `hashbrown::HashSet::iter`: the members of
    /// the set of an id, each of them once, in an order that is left open.
    #[verifier::external_body]
    pub(crate) fn members(&self, id: u64) -> (r: Option<Vec<u64>>)
        ensures
            match r {
                Some(list) => {
                    &&& sets_in(*self).dom().contains(id)
                    &&& list@.no_duplicates()
                    &&& list@.to_set() == sets_in(*self)[id]
                },
                None => !sets_in(*self).dom().contains(id),
            },
    {
        self.map.get(&id).map(|set| set.iter().copied().collect())
    }
}

} // verus!
