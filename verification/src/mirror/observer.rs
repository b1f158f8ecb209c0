//! Who is told of the updates of a database.

use vstd::prelude::*;

use crate::name_table::NameTable;
use crate::text::{chars_of, text_of};

verus! {

/// Observers of databases, by number, in the order in which they came.
pub struct ObserverRegistry {
    by_database: NameTable<Vec<u64>>,
}

/// The observers of a database.
pub open spec fn observers_in(m: Map<Seq<char>, Seq<u64>>, database: Seq<char>) -> Seq<u64> {
    if m.dom().contains(database) {
        m[database]
    } else {
        Seq::empty()
    }
}

impl View for ObserverRegistry {
    type V = Map<Seq<char>, Seq<u64>>;

    closed spec fn view(&self) -> Map<Seq<char>, Seq<u64>> {
        Map::new(
            |x: Seq<char>| self.by_database@.dom().contains(x),
            |x: Seq<char>| self.by_database@[x]@,
        )
    }
}

impl ObserverRegistry {
    /// The table is well formed.
    pub closed spec fn wf(&self) -> bool {
        self.by_database.wf()
    }

    /// Nobody observes.
    pub fn new() -> (r: Self)
        ensures
            r.wf(),
            r@ == Map::<Seq<char>, Seq<u64>>::empty(),
    {
        let r = ObserverRegistry { by_database: NameTable::new() };
        assert(r@ =~= Map::<Seq<char>, Seq<u64>>::empty());
        r
    }

    /// An observer of a database comes, behind those that are there.
    pub fn register(&mut self, database: &str, observer: u64)
        requires
            old(self).wf(),
        ensures
            final(self).wf(),
            final(self)@ == old(self)@.insert(database@, observers_in(old(self)@, database@).push(observer)),
    {
        let ghost before = self@;
        let mut list: Vec<u64> = match self.by_database.remove(database) {
            Some(l) => l,
            None => Vec::new(),
        };
        assert(list@ =~= observers_in(before, database@));
        list.push(observer);
        let ghost after = list@;
        let _ = self.by_database.insert(text_of(chars_of(database).as_slice()), list);
        assert(self@ =~= before.insert(database@, after));
    }

    /// The observers of a database, in the order in which they are told.
    pub fn observers_for(&self, database: &str) -> (r: Vec<u64>)
        requires
            self.wf(),
        ensures
            r@ == observers_in(self@, database@),
    {
        let mut out: Vec<u64> = Vec::new();
        if let Some(list) = self.by_database.get(database) {
            let mut i: usize = 0;
            assert(list@ == self@[database@]);
            while i < list.len()
                invariant
                    i <= list@.len(),
                    out@ == list@.take(i as int),
                decreases list.len() - i,
            {
                out.push(list[i]);
                assert(out@ =~= list@.take(i + 1));
                i += 1;
            }
            assert(list@.take(i as int) =~= list@);
        } else {
            assert(out@ =~= Seq::<u64>::empty());
        }
        out
    }
}

/// Registering for one database tells nobody else.
pub proof fn law_databases_are_observed_apart(m: Map<Seq<char>, Seq<u64>>, a: Seq<char>, b: Seq<char>, observer: u64)
    requires
        a != b,
    ensures
        observers_in(m.insert(a, observers_in(m, a).push(observer)), b) == observers_in(m, b),
{
}

} // verus!
