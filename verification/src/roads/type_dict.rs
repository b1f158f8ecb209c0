//! Small dictionaries that number the resource and paving types of a region.

use vstd::prelude::*;

use crate::id_table::{key32, key_of_i32, lemma_keys_injective, IdTable};

verus! {

/// Largest index of a dictionary: ten bits, with 0 left for "nothing".
pub const MAX_TYPE_INDEX: u16 = 1023;

/// A run of type ids where a type's position is its index. Position 0 is
/// taken by a zero that stands for no type, and no type occurs twice.
pub open spec fn valid_types(ids: Seq<i32>) -> bool {
    &&& 1 <= ids.len() <= MAX_TYPE_INDEX + 1
    &&& ids[0] == 0
    &&& forall|i: int, j: int| 1 <= i < j < ids.len() ==> ids[i] != ids[j]
}

/// Whether a type has the index `i`.
pub open spec fn is_slot(ids: Seq<i32>, id: i32, i: int) -> bool {
    1 <= i < ids.len() && ids[i] == id
}

/// The index of a type, where it has one.
pub open spec fn type_slot(ids: Seq<i32>, id: i32) -> Option<u16> {
    if exists|i: int| is_slot(ids, id, i) {
        Some((choose|i: int| is_slot(ids, id, i)) as u16)
    } else {
        None
    }
}

/// The dictionary after a sighting of a type: a new type goes to the end, as
/// long as there is room.
pub open spec fn interned(ids: Seq<i32>, id: i32) -> Seq<i32> {
    if type_slot(ids, id) is Some || ids.len() > MAX_TYPE_INDEX {
        ids
    } else {
        ids.push(id)
    }
}

/// An index that a type has is its index.
pub proof fn lemma_type_slot(ids: Seq<i32>, id: i32, i: int)
    requires
        valid_types(ids),
        is_slot(ids, id, i),
    ensures
        type_slot(ids, id) == Some(i as u16),
{
    let c = choose|c: int| is_slot(ids, id, c);
    assert(is_slot(ids, id, c));
    assert(c == i);
}

/// A sighting keeps the dictionary valid and every index that was given.
/// Afterwards the type has an index, unless the dictionary is full.
pub proof fn law_interning(ids: Seq<i32>, id: i32)
    requires
        valid_types(ids),
    ensures
        valid_types(interned(ids, id)),
        ids.is_prefix_of(interned(ids, id)),
        forall|other: i32| type_slot(ids, other) is Some ==> type_slot(interned(ids, id), other) == type_slot(ids, other),
        type_slot(interned(ids, id), id) is None <==> type_slot(ids, id) is None && ids.len() > MAX_TYPE_INDEX,
        interned(interned(ids, id), id) == interned(ids, id),
{
    let after = interned(ids, id);
    if type_slot(ids, id) is None {
        assert forall|i: int| 1 <= i < ids.len() implies ids[i] != id by {
            if ids[i] == id {
                assert(is_slot(ids, id, i));
            }
        }
        if ids.len() <= MAX_TYPE_INDEX {
            assert(is_slot(after, id, ids.len() as int));
            lemma_type_slot(after, id, ids.len() as int);
        }
    }
    assert forall|other: i32| type_slot(ids, other) is Some implies type_slot(after, other) == type_slot(ids, other) by {
        let i = choose|i: int| is_slot(ids, other, i);
        assert(is_slot(ids, other, i));
        lemma_type_slot(ids, other, i);
        assert(is_slot(after, other, i));
        lemma_type_slot(after, other, i);
    }
}

/// A dictionary of types. The view is the run of ids by index.
pub struct TypeDict {
    ids: Vec<i32>,
    index_by_id: IdTable<u16>,
}

impl View for TypeDict {
    type V = Seq<i32>;

    closed spec fn view(&self) -> Seq<i32> {
        self.ids@
    }
}

impl TypeDict {
    /// The ids are valid, and the lookup finds each where it stands.
    pub closed spec fn wf(&self) -> bool {
        &&& valid_types(self.ids@)
        &&& self.index_by_id.wf()
        &&& forall|i: int|
            1 <= i < self.ids@.len() ==> {
                &&& #[trigger] self.index_by_id@.dom().contains(key32(self.ids@[i] as int))
                &&& self.index_by_id@[key32(self.ids@[i] as int)] == i
            }
        &&& forall|id: i32|
            #[trigger] self.index_by_id@.dom().contains(key32(id as int)) ==> is_slot(
                self.ids@,
                id,
                self.index_by_id@[key32(id as int)] as int,
            )
    }

    /// What [`Self::wf`] says of the ids.
    pub proof fn lemma_valid(&self)
        requires
            self.wf(),
        ensures
            valid_types(self@),
    {
    }

    /// A dictionary without types.
    pub fn new() -> (r: Self)
        ensures
            r.wf(),
            r@ == seq![0i32],
    {
        let mut ids: Vec<i32> = Vec::new();
        ids.push(0);
        let r = TypeDict { ids, index_by_id: IdTable::new() };
        assert(r@ =~= seq![0i32]);
        r
    }

    /// The index of a type, where it has one.
    pub fn lookup(&self, id: i32) -> (r: Option<u16>)
        requires
            self.wf(),
        ensures
            r == type_slot(self@, id),
            r matches Some(i) ==> 1 <= i < self@.len() && self@[i as int] == id,
    {
        match self.index_by_id.get(key_of_i32(id)) {
            Some(i) => {
                proof {
                    lemma_type_slot(self.ids@, id, *i as int);
                }
                Some(*i)
            },
            None => {
                proof {
                    if type_slot(self.ids@, id) is Some {
                        let i = choose|i: int| is_slot(self.ids@, id, i);
                        assert(is_slot(self.ids@, id, i));
                        assert(self.index_by_id@.dom().contains(key32(self.ids@[i] as int)));
                    }
                }
                None
            },
        }
    }

    /// The index of a type, which gets one now if it has none and there is
    /// room.
    pub fn intern(&mut self, id: i32) -> (r: Option<u16>)
        requires
            old(self).wf(),
        ensures
            final(self).wf(),
            final(self)@ == interned(old(self)@, id),
            r == type_slot(final(self)@, id),
            r matches Some(i) ==> 1 <= i < final(self)@.len() && final(self)@[i as int] == id,
    {
        proof {
            law_interning(self@, id);
        }
        if let Some(i) = self.lookup(id) {
            return Some(i);
        }
        if self.ids.len() > MAX_TYPE_INDEX as usize {
            return None;
        }
        let i: u16 = self.ids.len() as u16;
        self.ids.push(id);
        let _ = self.index_by_id.insert(key_of_i32(id), i);
        proof {
            lemma_keys_injective();
            assert(is_slot(self.ids@, id, i as int));
            lemma_type_slot(self.ids@, id, i as int);
            assert forall|j: int| 1 <= j < self.ids@.len() implies {
                &&& #[trigger] self.index_by_id@.dom().contains(key32(self.ids@[j] as int))
                &&& self.index_by_id@[key32(self.ids@[j] as int)] == j
            } by {
                if j < i {
                    assert(self.ids@[j] == old(self).ids@[j]);
                    assert(old(self).index_by_id@.dom().contains(key32(old(self).ids@[j] as int)));
                }
            }
            assert forall|other: i32|
                #[trigger] self.index_by_id@.dom().contains(key32(other as int)) implies is_slot(
                self.ids@,
                other,
                self.index_by_id@[key32(other as int)] as int,
            ) by {
                if other != id {
                    assert(old(self).index_by_id@.dom().contains(key32(other as int)));
                    assert(is_slot(
                        old(self).ids@,
                        other,
                        old(self).index_by_id@[key32(other as int)] as int,
                    ));
                }
            }
        }
        Some(i)
    }

    /// The type with an index; 0 for index 0 and for an index that no type
    /// has.
    pub fn id_at(&self, index: u16) -> (r: i32)
        requires
            self.wf(),
        ensures
            r == if (index as int) < self@.len() {
                self@[index as int]
            } else {
                0
            },
    {
        if (index as usize) < self.ids.len() {
            self.ids[index as usize]
        } else {
            0
        }
    }

    /// The ids by index.
    pub fn ids(&self) -> (r: &[i32])
        ensures
            r@ == self@,
    {
        self.ids.as_slice()
    }
}

} // verus!
