//! Numbers by name.

use vstd::prelude::*;

verus! {

/// Hash index from a name to a number, kept in a `hashbrown::HashMap`. What it
/// holds is [`named`], by the characters of the names.
#[verifier::external_body]
pub struct TextIndex {
    map: hashbrown::HashMap<String, u64>,
}

/// The names of a text index, each with its number.
pub uninterp spec fn named(index: TextIndex) -> Map<Seq<char>, u64>;

impl View for TextIndex {
    type V = Map<Seq<char>, u64>;

    open spec fn view(&self) -> Map<Seq<char>, u64> {
        named(*self)
    }
}

impl TextIndex {
    /// `hashbrown::HashMap::new`: a map without entries.
    #[verifier::external_body]
    pub(crate) fn new() -> (r: Self)
        ensures
            named(r).dom() == Set::<Seq<char>>::empty(),
    {
        TextIndex { map: hashbrown::HashMap::new() }
    }

    /// `hashbrown::HashMap::len`: the number of entries.
    #[verifier::external_body]
    pub(crate) fn len(&self) -> (r: usize)
        ensures
            r == named(*self).dom().len(),
    {
        self.map.len()
    }

    /// `hashbrown::HashMap::get`: the value stored for a key, `None` where
    /// there is none. Two strings are the same key if they have the same
    /// characters.
    #[verifier::external_body]
    pub(crate) fn get(&self, name: &str) -> (r: Option<u64>)
        ensures
            r == if named(*self).dom().contains(name@) {
                Some(named(*self)[name@])
            } else {
                None
            },
    {
        self.map.get(name).copied()
    }

    /// `hashbrown::HashMap::insert`: stores a value for a key in place of the
    /// one that was there, which it returns.
    #[verifier::external_body]
    pub(crate) fn insert(&mut self, name: String, number: u64) -> (r: Option<u64>)
        ensures
            named(*final(self)) == named(*old(self)).insert(name@, number),
            r == if named(*old(self)).dom().contains(name@) {
                Some(named(*old(self))[name@])
            } else {
                None
            },
    {
        self.map.insert(name, number)
    }

    /// `hashbrown::HashMap::remove`: takes a key and its value out and returns
    /// the value.
    #[verifier::external_body]
    pub(crate) fn remove(&mut self, name: &str) -> (r: Option<u64>)
        ensures
            named(*final(self)) == named(*old(self)).remove(name@),
            r == if named(*old(self)).dom().contains(name@) {
                Some(named(*old(self))[name@])
            } else {
                None
            },
    {
        self.map.remove(name)
    }
}

} // verus!
