//! Numbers for claims: an overlay cell has sixteen bits for the claim it
//! belongs to, so each claim of a region gets a small index.

use vstd::prelude::*;

use crate::id_table::IdTable;

verus! {

/// Largest index of a claim; 0 stands for no claim.
pub const MAX_CLAIM_INDEX: usize = 65535;

/// A run of claims where a claim's position is its index. Position 0 is taken
/// by a zero that stands for no claim, and no claim occurs twice.
pub open spec fn valid_claims(t: Seq<u64>) -> bool {
    &&& 1 <= t.len() <= MAX_CLAIM_INDEX + 1
    &&& t[0] == 0
    &&& t.no_duplicates()
}

/// Whether a claim has the index `i`.
pub open spec fn is_claim_slot(t: Seq<u64>, claim: u64, i: int) -> bool {
    0 <= i < t.len() && t[i] == claim
}

/// The index of a claim: 0 where it has none.
pub open spec fn claim_slot(t: Seq<u64>, claim: u64) -> u16 {
    if exists|i: int| is_claim_slot(t, claim, i) {
        (choose|i: int| is_claim_slot(t, claim, i)) as u16
    } else {
        0
    }
}

/// The run after a sighting of a claim: a new claim goes to the end, as long as
/// there is room.
pub open spec fn with_claim(t: Seq<u64>, claim: u64) -> Seq<u64> {
    if t.contains(claim) || t.len() > MAX_CLAIM_INDEX {
        t
    } else {
        t.push(claim)
    }
}

/// A position that holds a claim is its index.
pub proof fn lemma_claim_slot(t: Seq<u64>, claim: u64, i: int)
    requires
        valid_claims(t),
        is_claim_slot(t, claim, i),
    ensures
        claim_slot(t, claim) == i,
{
    let c = choose|c: int| is_claim_slot(t, claim, c);
    assert(is_claim_slot(t, claim, c));
    assert(c == i);
}

/// A sighting keeps the run valid and every index that was given. Afterwards
/// the claim can be found again by its index, unless the run was full.
pub proof fn law_claims_keep_their_index(t: Seq<u64>, claim: u64)
    requires
        valid_claims(t),
    ensures
        valid_claims(with_claim(t, claim)),
        t.is_prefix_of(with_claim(t, claim)),
        forall|other: u64| t.contains(other) ==> claim_slot(with_claim(t, claim), other) == claim_slot(t, other),
        t.contains(claim) || t.len() <= MAX_CLAIM_INDEX ==> with_claim(t, claim)[claim_slot(
            with_claim(t, claim),
            claim,
        ) as int] == claim,
        with_claim(with_claim(t, claim), claim) == with_claim(t, claim),
{
    let after = with_claim(t, claim);
    if !t.contains(claim) && t.len() <= MAX_CLAIM_INDEX {
        assert(after[t.len() as int] == claim);
        assert(is_claim_slot(after, claim, t.len() as int));
        assert(after.contains(claim));
        lemma_claim_slot(after, claim, t.len() as int);
    }
    assert forall|other: u64| t.contains(other) implies claim_slot(after, other) == claim_slot(t, other) by {
        let i = choose|i: int| 0 <= i < t.len() && t[i] == other;
        assert(is_claim_slot(t, other, i));
        lemma_claim_slot(t, other, i);
        assert(is_claim_slot(after, other, i));
        lemma_claim_slot(after, other, i);
    }
    if t.contains(claim) {
        let i = choose|i: int| 0 <= i < t.len() && t[i] == claim;
        assert(is_claim_slot(t, claim, i));
        lemma_claim_slot(t, claim, i);
    }
}

/// The claims of a region by their index. The view is the run of claims.
pub struct ClaimIndexTable {
    claim_table: Vec<u64>,
    entity_to_index: IdTable<u16>,
}

impl View for ClaimIndexTable {
    type V = Seq<u64>;

    closed spec fn view(&self) -> Seq<u64> {
        self.claim_table@
    }
}

impl ClaimIndexTable {
    /// The run is valid, and the lookup finds each claim where it stands.
    pub closed spec fn wf(&self) -> bool {
        &&& valid_claims(self.claim_table@)
        &&& self.entity_to_index.wf()
        &&& forall|i: int|
            1 <= i < self.claim_table@.len() ==> {
                &&& #[trigger] self.entity_to_index@.dom().contains(self.claim_table@[i])
                &&& self.entity_to_index@[self.claim_table@[i]] == i
            }
        &&& forall|claim: u64| #[trigger]
            self.entity_to_index@.dom().contains(claim) ==> is_claim_slot(
                self.claim_table@,
                claim,
                self.entity_to_index@[claim] as int,
            )
    }

    /// What [`Self::wf`] says of the run.
    pub proof fn lemma_valid(&self)
        requires
            self.wf(),
        ensures
            valid_claims(self@),
    {
    }

    /// A table without claims.
    pub fn new() -> (r: Self)
        ensures
            r.wf(),
            r@ == seq![0u64],
    {
        let mut claim_table: Vec<u64> = Vec::new();
        claim_table.push(0);
        assert(claim_table@ =~= seq![0u64]);
        ClaimIndexTable { claim_table, entity_to_index: IdTable::new() }
    }

    /// The claims by their index.
    pub fn claim_table(&self) -> (r: &[u64])
        ensures
            r@ == self@,
    {
        self.claim_table.as_slice()
    }

    /// Number of claims with an index.
    pub fn distinct_claim_count(&self) -> (r: u32)
        requires
            self.wf(),
        ensures
            r == self@.len() - 1,
    {
        (self.claim_table.len() - 1) as u32
    }

    /// The index of a claim, a new one where it has none. Without room for
    /// another claim, and for claim 0, the index is 0.
    pub fn alloc_or_lookup(&mut self, claim_entity_id: u64) -> (r: u16)
        requires
            old(self).wf(),
        ensures
            final(self).wf(),
            final(self)@ == with_claim(old(self)@, claim_entity_id),
            r == claim_slot(final(self)@, claim_entity_id),
    {
        if claim_entity_id == 0 {
            assert(is_claim_slot(self.claim_table@, 0, 0));
            proof {
                lemma_claim_slot(self.claim_table@, 0, 0);
            }
            return 0;
        }
        match self.entity_to_index.get(claim_entity_id) {
            Some(i) => {
                let idx: u16 = *i;
                proof {
                    lemma_claim_slot(self.claim_table@, claim_entity_id, idx as int);
                }
                return idx;
            },
            None => {},
        }
        assert forall|i: int| 0 <= i < self.claim_table@.len() implies self.claim_table@[i] != claim_entity_id by {
            if i >= 1 {
                assert(self.entity_to_index@.dom().contains(self.claim_table@[i]));
            }
        }
        if self.claim_table.len() > MAX_CLAIM_INDEX {
            return 0;
        }
        let idx: u16 = self.claim_table.len() as u16;
        self.claim_table.push(claim_entity_id);
        let _ = self.entity_to_index.insert(claim_entity_id, idx);
        proof {
            assert(is_claim_slot(self.claim_table@, claim_entity_id, idx as int));
            lemma_claim_slot(self.claim_table@, claim_entity_id, idx as int);
        }
        idx
    }
}

impl Default for ClaimIndexTable {
    fn default() -> (r: Self)
        ensures
            r.wf(),
            r@ == seq![0u64],
    {
        ClaimIndexTable::new()
    }
}

} // verus!
