//! The list of harvestable resource types.

use vstd::prelude::*;

use crate::id_table::{key32, key_of_i32, lemma_keys_injective};
use crate::sorted::{contains_key, sort_dedup_keys, strictly_ascending};

verus! {

/// The value of a JSON text as a list of 32-bit numbers, where it is one.
pub uninterp spec fn json_i32_list(text: Seq<char>) -> Option<Seq<i32>>;

/// `serde_json::from_str` into a list of `i32`: `None` stands for its error.
/// What a JSON text holds is left to the name.
#[verifier::external_body]
fn parse_i32_list(text: &str) -> (r: Option<Vec<i32>>)
    ensures
        match r {
            Some(v) => json_i32_list(text@) == Some(v@),
            None => json_i32_list(text@) is None,
        },
{
    serde_json::from_str::<Vec<i32>>(text).ok()
}

/// Resource types that forestry and mining harvest, sorted for lookup.
pub struct HarvestableIds {
    keys: Vec<u64>,
}

impl HarvestableIds {
    /// The keys are sorted and stand for 32-bit ids.
    pub closed spec fn wf(&self) -> bool {
        &&& strictly_ascending(self.keys@)
        &&& forall|i: int| 0 <= i < self.keys@.len() ==> #[trigger] self.keys@[i] < 0x1_0000_0000
    }

    /// Whether a resource type is on the list.
    pub closed spec fn lists(&self, resource_id: i32) -> bool {
        self.keys@.contains(key32(resource_id as int))
    }

    /// Number of resource types on the list.
    pub closed spec fn count(&self) -> nat {
        self.keys@.len()
    }

    /// The list of the given ids. Order and repeats do not matter.
    pub fn from_ids(ids: &[i32]) -> (r: Self)
        ensures
            r.wf(),
            forall|id: i32| r.lists(id) <==> ids@.contains(id),
    {
        let mut keys: Vec<u64> = Vec::new();
        let mut i: usize = 0;
        while i < ids.len()
            invariant
                i <= ids@.len(),
                keys@.len() == i,
                forall|j: int| 0 <= j < i ==> keys@[j] == key32(ids@[j] as int),
            decreases ids.len() - i,
        {
            keys.push(key_of_i32(ids[i]));
            i += 1;
        }
        let ghost raw = keys@;
        let r = HarvestableIds { keys: sort_dedup_keys(keys) };
        proof {
            lemma_keys_injective();
            assert forall|id: i32| r.lists(id) <==> ids@.contains(id) by {
                if ids@.contains(id) {
                    let j = choose|j: int| 0 <= j < ids@.len() && ids@[j] == id;
                    assert(raw[j] == key32(id as int));
                }
                if raw.contains(key32(id as int)) {
                    let j = choose|j: int| 0 <= j < raw.len() && raw[j] == key32(id as int);
                    assert(ids@[j] == id);
                }
            }
            assert forall|i: int| 0 <= i < r.keys@.len() implies #[trigger] r.keys@[i] < 0x1_0000_0000 by {
                assert(r.keys@.contains(r.keys@[i]));
                let j = choose|j: int| 0 <= j < raw.len() && raw[j] == r.keys@[i];
                assert(raw[j] == key32(ids@[j] as int));
            }
        }
        r
    }

    /// The list in a JSON text; `None` where the text is not a list of ids.
    pub fn parse(text: &str) -> (r: Option<Self>)
        ensures
            match r {
                Some(list) => {
                    &&& list.wf()
                    &&& json_i32_list(text@) is Some
                    &&& forall|id: i32| list.lists(id) <==> json_i32_list(text@)->0.contains(id)
                },
                None => json_i32_list(text@) is None,
            },
    {
        match parse_i32_list(text) {
            Some(ids) => Some(HarvestableIds::from_ids(ids.as_slice())),
            None => None,
        }
    }

    /// Whether a resource type is on the list.
    pub fn contains(&self, resource_id: i32) -> (r: bool)
        requires
            self.wf(),
        ensures
            r <==> self.lists(resource_id),
    {
        contains_key(self.keys.as_slice(), key_of_i32(resource_id))
    }

    /// Number of resource types on the list.
    pub fn len(&self) -> (r: usize)
        ensures
            r == self.count(),
    {
        self.keys.len()
    }
}

} // verus!
