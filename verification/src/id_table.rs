//! Tables keyed by 64-bit ids: dense slots for the values, found again
//! through a hash index.

use vstd::prelude::*;

verus! {

/// Hash index from an id to the number of the slot that holds it, kept in a
/// `hashbrown::HashMap`. What it holds is [`slot_map`].
#[verifier::external_body]
pub struct SlotIndex {
    map: hashbrown::HashMap<u64, usize>,
}

/// The ids of a slot index, each with its slot.
pub uninterp spec fn slot_map(index: SlotIndex) -> Map<u64, usize>;

impl SlotIndex {
    /// `hashbrown::HashMap::new`: a map without entries.
    #[verifier::external_body]
    pub(crate) fn new() -> (r: Self)
        ensures
            slot_map(r).dom() == Set::<u64>::empty(),
    {
        SlotIndex { map: hashbrown::HashMap::new() }
    }

    /// `hashbrown::HashMap::get`: the value stored for a key, `None` where
    /// there is none.
    #[verifier::external_body]
    pub(crate) fn get(&self, id: u64) -> (r: Option<usize>)
        ensures
            r == if slot_map(*self).dom().contains(id) {
                Some(slot_map(*self)[id])
            } else {
                None
            },
    {
        self.map.get(&id).copied()
    }

    /// `hashbrown::HashMap::insert`: stores a value for a key in place of the
    /// one that was there, which it returns.
    #[verifier::external_body]
    pub(crate) fn insert(&mut self, id: u64, slot: usize) -> (r: Option<usize>)
        ensures
            slot_map(*final(self)) == slot_map(*old(self)).insert(id, slot),
            r == if slot_map(*old(self)).dom().contains(id) {
                Some(slot_map(*old(self))[id])
            } else {
                None
            },
    {
        self.map.insert(id, slot)
    }

    /// `hashbrown::HashMap::remove`: takes a key and its value out and returns
    /// the value.
    #[verifier::external_body]
    pub(crate) fn remove(&mut self, id: u64) -> (r: Option<usize>)
        ensures
            slot_map(*final(self)) == slot_map(*old(self)).remove(id),
            r == if slot_map(*old(self)).dom().contains(id) {
                Some(slot_map(*old(self))[id])
            } else {
                None
            },
    {
        self.map.remove(&id)
    }
}

/// A map from ids to values. The view is the map; [`IdTable::ids`] lists the
/// ids in the order of the slots.
pub struct IdTable<V> {
    index: SlotIndex,
    slots: Vec<(u64, V)>,
}

impl<V> View for IdTable<V> {
    type V = Map<u64, V>;

    closed spec fn view(&self) -> Map<u64, V> {
        Map::new(
            |id: u64| slot_map(self.index).dom().contains(id),
            |id: u64| self.slots@[slot_map(self.index)[id] as int].1,
        )
    }
}

impl<V> IdTable<V> {
    /// Index and slots agree.
    pub closed spec fn wf(&self) -> bool {
        &&& forall|i: int|
            0 <= i < self.slots@.len() ==> {
                &&& slot_map(self.index).dom().contains((#[trigger] self.slots@[i]).0)
                &&& slot_map(self.index)[self.slots@[i].0] == i
            }
        &&& forall|id: u64| #[trigger]
            slot_map(self.index).dom().contains(id) ==> {
                &&& slot_map(self.index)[id] < self.slots@.len()
                &&& self.slots@[slot_map(self.index)[id] as int].0 == id
            }
    }

    /// The ids in the order of their slots.
    pub closed spec fn ids(&self) -> Seq<u64> {
        self.slots@.map_values(|s: (u64, V)| s.0)
    }

    /// The ids are those of the map, each once.
    pub proof fn lemma_ids(&self)
        requires
            self.wf(),
        ensures
            self.ids().no_duplicates(),
            self.ids().to_set() == self@.dom(),
            self@.dom().finite(),
            self@.dom().len() == self.ids().len(),
            forall|i: int| 0 <= i < self.ids().len() ==> #[trigger] self@.dom().contains(self.ids()[i]),
    {
        let ids = self.ids();
        assert forall|i: int, j: int| 0 <= i < j < ids.len() implies ids[i] != ids[j] by {
            assert(ids[i] == self.slots@[i].0);
            assert(ids[j] == self.slots@[j].0);
        }
        assert forall|id: u64| ids.to_set().contains(id) <==> self@.dom().contains(id) by {
            if self@.dom().contains(id) {
                let i = slot_map(self.index)[id] as int;
                assert(ids[i] == id);
            }
            if ids.to_set().contains(id) {
                let i = choose|i: int| 0 <= i < ids.len() && ids[i] == id;
                assert(self.slots@[i].0 == id);
            }
        }
        assert(ids.to_set() =~= self@.dom());
        ids.unique_seq_to_set();
        vstd::seq_lib::seq_to_set_is_finite(ids);
        assert forall|i: int| 0 <= i < ids.len() implies #[trigger] self@.dom().contains(ids[i]) by {
            assert(ids.contains(ids[i]));
        }
    }

    /// A table without entries.
    pub fn new() -> (r: Self)
        ensures
            r.wf(),
            r@ == Map::<u64, V>::empty(),
            r.ids() == Seq::<u64>::empty(),
    {
        let r = IdTable { index: SlotIndex::new(), slots: Vec::new() };
        assert(r@ =~= Map::<u64, V>::empty());
        assert(r.ids() =~= Seq::<u64>::empty());
        r
    }

    /// Number of entries.
    pub fn len(&self) -> (r: usize)
        ensures
            r == self.ids().len(),
            self.wf() ==> r == self@.dom().len(),
    {
        proof {
            if self.wf() {
                self.lemma_ids();
            }
        }
        self.slots.len()
    }

    /// Whether there is no entry.
    pub fn is_empty(&self) -> (r: bool)
        requires
            self.wf(),
        ensures
            r <==> self@ == Map::<u64, V>::empty(),
    {
        proof {
            if self.slots@.len() == 0 {
                assert(self@ =~= Map::<u64, V>::empty());
            } else {
                assert(self@.dom().contains(self.slots@[0].0));
            }
        }
        self.slots.len() == 0
    }

    /// Whether an id has an entry.
    pub fn contains(&self, id: u64) -> (r: bool)
        requires
            self.wf(),
        ensures
            r <==> self@.dom().contains(id),
    {
        self.index.get(id).is_some()
    }

    /// The value of an id.
    pub fn get(&self, id: u64) -> (r: Option<&V>)
        requires
            self.wf(),
        ensures
            match r {
                Some(v) => self@.dom().contains(id) && *v == self@[id],
                None => !self@.dom().contains(id),
            },
    {
        match self.index.get(id) {
            Some(slot) => Some(&self.slots[slot].1),
            None => None,
        }
    }

    /// The id in slot `i`.
    pub fn id_at(&self, i: usize) -> (r: u64)
        requires
            i < self.ids().len(),
        ensures
            r == self.ids()[i as int],
            self.wf() ==> self@.dom().contains(r),
    {
        proof {
            if self.wf() {
                self.lemma_ids();
            }
        }
        self.slots[i].0
    }

    /// The value in slot `i`.
    pub fn value_at(&self, i: usize) -> (r: &V)
        requires
            self.wf(),
            i < self.ids().len(),
        ensures
            self@.dom().contains(self.ids()[i as int]),
            *r == self@[self.ids()[i as int]],
    {
        &self.slots[i].1
    }

    /// Stores a value in place of the one that was there, which is returned.
    pub fn insert(&mut self, id: u64, value: V) -> (r: Option<V>)
        requires
            old(self).wf(),
        ensures
            final(self).wf(),
            final(self)@ == old(self)@.insert(id, value),
            match r {
                Some(v) => old(self)@.dom().contains(id) && v == old(self)@[id] && final(self).ids() == old(self).ids(),
                None => !old(self)@.dom().contains(id) && final(self).ids() == old(self).ids().push(id),
            },
    {
        match self.index.get(id) {
            Some(slot) => {
                let mut entry = (id, value);
                std::mem::swap(&mut self.slots[slot], &mut entry);
                proof {
                    lemma_slot_update(*old(self), *self, id, slot as int, value);
                }
                Some(entry.1)
            },
            None => {
                let slot: usize = self.slots.len();
                let _ = self.index.insert(id, slot);
                self.slots.push((id, value));
                assert(self@ =~= old(self)@.insert(id, value));
                assert(self.ids() =~= old(self).ids().push(id));
                None
            },
        }
    }

    /// Takes an entry out and returns its value.
    pub fn remove(&mut self, id: u64) -> (r: Option<V>)
        requires
            old(self).wf(),
        ensures
            final(self).wf(),
            final(self)@ == old(self)@.remove(id),
            match r {
                Some(v) => old(self)@.dom().contains(id) && v == old(self)@[id],
                None => !old(self)@.dom().contains(id) && *final(self) == *old(self),
            },
    {
        match self.index.get(id) {
            Some(slot) => {
                let _ = self.index.remove(id);
                let entry = self.slots.swap_remove(slot);
                if slot < self.slots.len() {
                    let moved: u64 = self.slots[slot].0;
                    let _ = self.index.insert(moved, slot);
                }
                assert(self@ =~= old(self)@.remove(id));
                Some(entry.1)
            },
            None => {
                assert(self@ =~= old(self)@.remove(id));
                None
            },
        }
    }

    /// Takes the entries of some ids out.
    pub fn remove_all(&mut self, ids: &[u64])
        requires
            old(self).wf(),
        ensures
            final(self).wf(),
            final(self)@ == old(self)@.remove_keys(ids@.to_set()),
    {
        let mut i: usize = 0;
        assert(self@ =~= old(self)@.remove_keys(ids@.take(0).to_set()));
        while i < ids.len()
            invariant
                self.wf(),
                i <= ids@.len(),
                self@ == old(self)@.remove_keys(ids@.take(i as int).to_set()),
            decreases ids.len() - i,
        {
            let _ = self.remove(ids[i]);
            proof {
                let short = ids@.take(i as int);
                let long = ids@.take(i + 1);
                assert forall|x: u64| long.contains(x) <==> short.contains(x) || x == ids@[i as int] by {
                    if long.contains(x) {
                        let k = choose|k: int| 0 <= k < long.len() && long[k] == x;
                        if k < i {
                            assert(short[k] == x);
                        }
                    }
                    if short.contains(x) {
                        let k = choose|k: int| 0 <= k < short.len() && short[k] == x;
                        assert(long[k] == x);
                    }
                    assert(long[i as int] == ids@[i as int]);
                }
                assert(self@ =~= old(self)@.remove_keys(long.to_set()));
            }
            i += 1;
        }
        assert(ids@.take(i as int) =~= ids@);
    }

    /// Takes every entry out.
    pub fn clear(&mut self)
        ensures
            final(self).wf(),
            final(self)@ == Map::<u64, V>::empty(),
            final(self).ids() == Seq::<u64>::empty(),
    {
        self.index = SlotIndex::new();
        self.slots.clear();
        assert(self@ =~= Map::<u64, V>::empty());
        assert(self.ids() =~= Seq::<u64>::empty());
    }
}

/// Writing a value into the slot of an id stores it for that id alone.
proof fn lemma_slot_update<V>(before: IdTable<V>, after: IdTable<V>, id: u64, slot: int, value: V)
    requires
        before.wf(),
        slot_map(before.index).dom().contains(id),
        slot == slot_map(before.index)[id],
        after.index == before.index,
        after.slots@ == before.slots@.update(slot, (id, value)),
    ensures
        after.wf(),
        after@ == before@.insert(id, value),
        after.ids() == before.ids(),
{
    assert(after@ =~= before@.insert(id, value));
    assert(after.ids() =~= before.ids());
}

/// Key of a signed 32-bit number. Distinct numbers have distinct keys.
pub open spec fn key32(v: int) -> u64 {
    (v + 0x8000_0000) as u64
}

/// Key of a pair of signed 32-bit numbers. Distinct pairs have distinct keys.
pub open spec fn key_pair(x: int, z: int) -> u64 {
    ((x + 0x8000_0000) * 0x1_0000_0000 + (z + 0x8000_0000)) as u64
}

/// Computes [`key32`].
pub fn key_of_i32(v: i32) -> (r: u64)
    ensures
        r == key32(v as int),
{
    (v as i64 + 0x8000_0000) as u64
}

/// Computes [`key_pair`].
pub fn key_of_pair(x: i32, z: i32) -> (r: u64)
    ensures
        r == key_pair(x as int, z as int),
{
    (x as i64 + 0x8000_0000) as u64 * 0x1_0000_0000 + (z as i64 + 0x8000_0000) as u64
}

/// The pair of a key.
pub fn pair_of_key(k: u64) -> (r: (i32, i32))
    ensures
        key_pair(r.0 as int, r.1 as int) == k,
{
    (((k / 0x1_0000_0000) as i64 - 0x8000_0000) as i32, ((k % 0x1_0000_0000) as i64 - 0x8000_0000) as i32)
}

/// Keys determine what they were made of.
pub proof fn lemma_keys_injective()
    ensures
        forall|a: i32, b: i32| #[trigger] key32(a as int) == #[trigger] key32(b as int) ==> a == b,
        forall|x1: i32, z1: i32, x2: i32, z2: i32| #[trigger]
            key_pair(x1 as int, z1 as int) == #[trigger] key_pair(x2 as int, z2 as int) ==> x1 == x2 && z1 == z2,
{
}

} // verus!
