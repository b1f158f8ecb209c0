//! A map from names to values, listed in the order of the names.

use vstd::prelude::*;

use crate::text::{chars_of, same_text};
use crate::text_order::{lemma_text_antisymmetric, lemma_text_total, lemma_text_transitive, text_le, text_not_after};

verus! {

/// A map from names to values. The view is the map; [`NameTable::names`] lists
/// the names in order.
pub struct NameTable<V> {
    entries: Vec<(String, V)>,
}

/// Names of entries.
pub open spec fn entry_names<V>(s: Seq<(String, V)>) -> Seq<Seq<char>> {
    s.map_values(|e: (String, V)| e.0@)
}

/// Whether texts are listed in order, each once.
pub open spec fn in_text_order(s: Seq<Seq<char>>) -> bool {
    forall|i: int, j: int| 0 <= i < j < s.len() ==> text_le(#[trigger] s[i], #[trigger] s[j]) && s[i] != s[j]
}

/// Position of a name among names.
pub open spec fn name_at(s: Seq<Seq<char>>, name: Seq<char>) -> int {
    choose|i: int| 0 <= i < s.len() && s[i] == name
}

impl<V> View for NameTable<V> {
    type V = Map<Seq<char>, V>;

    closed spec fn view(&self) -> Map<Seq<char>, V> {
        Map::new(
            |name: Seq<char>| self.names().contains(name),
            |name: Seq<char>| self.entries@[name_at(self.names(), name)].1,
        )
    }
}

impl<V> NameTable<V> {
    /// The names in order.
    pub closed spec fn names(&self) -> Seq<Seq<char>> {
        entry_names(self.entries@)
    }

    /// Names stand in order, each once.
    pub closed spec fn wf(&self) -> bool {
        in_text_order(self.names())
    }

    /// The names are those of the map, in order and each once.
    pub proof fn lemma_names(&self)
        requires
            self.wf(),
        ensures
            in_text_order(self.names()),
            self.names().no_duplicates(),
            self.names().to_set() == self@.dom(),
            self@.dom().finite(),
            self@.dom().len() == self.names().len(),
            forall|i: int| 0 <= i < self.names().len() ==> #[trigger] self@.dom().contains(self.names()[i]),
    {
        let n = self.names();
        assert(n.to_set() =~= self@.dom());
        n.unique_seq_to_set();
        vstd::seq_lib::seq_to_set_is_finite(n);
        assert forall|i: int| 0 <= i < n.len() implies #[trigger] self@.dom().contains(n[i]) by {
            assert(n.contains(n[i]));
        }
    }

    /// The value of the name at a position.
    proof fn lemma_value(&self, i: int)
        requires
            self.wf(),
            0 <= i < self.entries@.len(),
        ensures
            self@.dom().contains(self.entries@[i].0@),
            self@[self.entries@[i].0@] == self.entries@[i].1,
    {
        let n = self.names();
        assert(n[i] == self.entries@[i].0@);
        assert(n.contains(n[i]));
        let k = name_at(n, n[i]);
        if k < i {
            assert(n[k] != n[i]);
        } else if i < k {
            assert(n[i] != n[k]);
        }
    }

    /// A table without entries.
    pub fn new() -> (r: Self)
        ensures
            r.wf(),
            r@ == Map::<Seq<char>, V>::empty(),
            r.names() == Seq::<Seq<char>>::empty(),
    {
        let r = NameTable { entries: Vec::new() };
        assert(r.names() =~= Seq::<Seq<char>>::empty());
        assert(r@ =~= Map::<Seq<char>, V>::empty());
        r
    }

    /// Number of entries.
    pub fn len(&self) -> (r: usize)
        ensures
            r == self.names().len(),
            self.wf() ==> r == self@.dom().len(),
    {
        proof {
            if self.wf() {
                self.lemma_names();
            }
        }
        self.entries.len()
    }

    /// The name at position `i`.
    pub fn name_of(&self, i: usize) -> (r: &String)
        requires
            i < self.names().len(),
        ensures
            r@ == self.names()[i as int],
            self.wf() ==> self@.dom().contains(r@),
    {
        proof {
            if self.wf() {
                self.lemma_value(i as int);
            }
        }
        &self.entries[i].0
    }

    /// The value at position `i`.
    pub fn value_of(&self, i: usize) -> (r: &V)
        requires
            self.wf(),
            i < self.names().len(),
        ensures
            self@.dom().contains(self.names()[i as int]),
            *r == self@[self.names()[i as int]],
    {
        proof {
            self.lemma_value(i as int);
        }
        &self.entries[i].1
    }

    /// The entries in the order of their names.
    pub fn into_entries(self) -> (r: Vec<(String, V)>)
        requires
            self.wf(),
        ensures
            entry_names(r@) == self.names(),
            forall|i: int|
                0 <= i < r@.len() ==> self@.dom().contains((#[trigger] r@[i]).0@) && self@[r@[i].0@] == r@[i].1,
    {
        proof {
            assert forall|i: int| 0 <= i < self.entries@.len() implies self@.dom().contains(
                (#[trigger] self.entries@[i]).0@,
            ) && self@[self.entries@[i].0@] == self.entries@[i].1 by {
                self.lemma_value(i);
            }
        }
        self.entries
    }

    /// Position of the first name that does not come before a name.
    fn lower_bound(&self, name: &str) -> (k: usize)
        ensures
            k <= self.entries@.len(),
            forall|j: int| 0 <= j < k ==> text_le((#[trigger] self.entries@[j]).0@, name@) && self.entries@[j].0@ != name@,
            k < self.entries@.len() ==> self.entries@[k as int].0@ == name@ || !text_le(
                self.entries@[k as int].0@,
                name@,
            ),
    {
        let chars = chars_of(name);
        let mut k: usize = 0;
        while k < self.entries.len()
            invariant
                chars@ == name@,
                k <= self.entries@.len(),
                forall|j: int|
                    0 <= j < k ==> text_le((#[trigger] self.entries@[j]).0@, name@) && self.entries@[j].0@ != name@,
            decreases self.entries.len() - k,
        {
            if same_text(self.entries[k].0.as_str(), name) {
                return k;
            }
            if !text_not_after(chars_of(self.entries[k].0.as_str()).as_slice(), chars.as_slice()) {
                return k;
            }
            k += 1;
        }
        k
    }

    /// A name that does not stand at its lower bound has no entry.
    proof fn lemma_absent(&self, name: Seq<char>, k: int)
        requires
            self.wf(),
            0 <= k <= self.entries@.len(),
            forall|j: int| 0 <= j < k ==> text_le((#[trigger] self.entries@[j]).0@, name) && self.entries@[j].0@ != name,
            k < self.entries@.len() ==> self.entries@[k].0@ != name && !text_le(self.entries@[k].0@, name),
        ensures
            !self@.dom().contains(name),
            forall|j: int| k <= j < self.entries@.len() ==> text_le(name, (#[trigger] self.entries@[j]).0@)
                && self.entries@[j].0@ != name,
    {
        let n = self.names();
        assert forall|j: int| k <= j < self.entries@.len() implies text_le(name, (#[trigger] self.entries@[j]).0@)
            && self.entries@[j].0@ != name by {
            lemma_text_total(n[k], name);
            if j > k {
                assert(text_le(n[k], n[j]));
                lemma_text_transitive(name, n[k], n[j]);
                if n[j] == name {
                    lemma_text_antisymmetric(n[k], name);
                }
            }
        }
        if n.contains(name) {
            let j = choose|j: int| 0 <= j < n.len() && n[j] == name;
            assert(self.entries@[j].0@ == name);
        }
    }

    /// The value of a name.
    pub fn get(&self, name: &str) -> (r: Option<&V>)
        requires
            self.wf(),
        ensures
            match r {
                Some(v) => self@.dom().contains(name@) && *v == self@[name@],
                None => !self@.dom().contains(name@),
            },
    {
        let k: usize = self.lower_bound(name);
        if k < self.entries.len() && same_text(self.entries[k].0.as_str(), name) {
            proof {
                self.lemma_value(k as int);
            }
            return Some(&self.entries[k].1);
        }
        proof {
            self.lemma_absent(name@, k as int);
        }
        None
    }

    /// Stores a value in place of the one that was there, which is returned.
    pub fn insert(&mut self, name: String, value: V) -> (r: Option<V>)
        requires
            old(self).wf(),
        ensures
            final(self).wf(),
            final(self)@ == old(self)@.insert(name@, value),
            match r {
                Some(v) => old(self)@.dom().contains(name@) && v == old(self)@[name@],
                None => !old(self)@.dom().contains(name@),
            },
    {
        let k: usize = self.lower_bound(name.as_str());
        let ghost before = *self;
        let ghost n = self.names();
        let ghost key = name@;
        if k < self.entries.len() && same_text(self.entries[k].0.as_str(), name.as_str()) {
            proof {
                self.lemma_value(k as int);
            }
            let mut entry = (name, value);
            std::mem::swap(&mut self.entries[k], &mut entry);
            proof {
                assert(self.names() =~= n);
                assert forall|x: Seq<char>| n.contains(x) implies self@[x] == before@.insert(key, value)[x] by {
                    let i = choose|i: int| 0 <= i < n.len() && n[i] == x;
                    self.lemma_value(i);
                    before.lemma_value(i);
                    if i < k {
                        assert(n[i] != n[k as int]);
                    } else if i > k {
                        assert(n[k as int] != n[i]);
                    }
                }
                assert(n[k as int] == key);
                assert(n.contains(key));
                assert(self@ =~= before@.insert(key, value));
            }
            return Some(entry.1);
        }
        proof {
            self.lemma_absent(key, k as int);
        }
        self.entries.insert(k, (name, value));
        proof {
            let m = self.names();
            assert(m =~= n.insert(k as int, key));
            assert forall|i: int, j: int| 0 <= i < j < m.len() implies text_le(#[trigger] m[i], #[trigger] m[j]) && m[i]
                != m[j] by {
                let a = if i < k {
                    i
                } else {
                    i - 1
                };
                let b = if j < k {
                    j
                } else {
                    j - 1
                };
                if i == k {
                    assert(m[j] == n[b] && n[b] == before.entries@[b].0@);
                } else if j == k {
                    assert(m[i] == n[a] && n[a] == before.entries@[a].0@);
                } else {
                    assert(m[i] == n[a] && m[j] == n[b]);
                }
            }
            assert forall|x: Seq<char>| m.contains(x) <==> n.contains(x) || x == key by {
                if m.contains(x) {
                    let i = choose|i: int| 0 <= i < m.len() && m[i] == x;
                    if i < k {
                        assert(n[i] == x);
                    } else if i > k {
                        assert(n[i - 1] == x);
                    }
                }
                if n.contains(x) {
                    let i = choose|i: int| 0 <= i < n.len() && n[i] == x;
                    if i < k {
                        assert(m[i] == x);
                    } else {
                        assert(m[i + 1] == x);
                    }
                }
                assert(m[k as int] == key);
            }
            assert forall|x: Seq<char>| m.contains(x) implies self@[x] == before@.insert(key, value)[x] by {
                let i = choose|i: int| 0 <= i < m.len() && m[i] == x;
                self.lemma_value(i);
                if i < k {
                    before.lemma_value(i);
                } else if i > k {
                    before.lemma_value(i - 1);
                    assert(self.entries@[i] == before.entries@[i - 1]);
                }
            }
            assert(self@ =~= before@.insert(key, value));
        }
        None
    }

    /// Takes the value of a name out.
    pub fn remove(&mut self, name: &str) -> (r: Option<V>)
        requires
            old(self).wf(),
        ensures
            final(self).wf(),
            final(self)@ == old(self)@.remove(name@),
            match r {
                Some(v) => old(self)@.dom().contains(name@) && v == old(self)@[name@],
                None => !old(self)@.dom().contains(name@),
            },
    {
        let k: usize = self.lower_bound(name);
        let ghost before = *self;
        let ghost n = self.names();
        let ghost key = name@;
        if k < self.entries.len() && same_text(self.entries[k].0.as_str(), name) {
            proof {
                self.lemma_value(k as int);
            }
            let entry = self.entries.remove(k);
            proof {
                let m = self.names();
                assert(m =~= n.remove(k as int));
                assert forall|i: int, j: int| 0 <= i < j < m.len() implies text_le(#[trigger] m[i], #[trigger] m[j])
                    && m[i] != m[j] by {
                    let a = if i < k {
                        i
                    } else {
                        i + 1
                    };
                    let b = if j < k {
                        j
                    } else {
                        j + 1
                    };
                    assert(m[i] == n[a] && m[j] == n[b]);
                }
                assert forall|x: Seq<char>| m.contains(x) <==> n.contains(x) && x != key by {
                    if m.contains(x) {
                        let i = choose|i: int| 0 <= i < m.len() && m[i] == x;
                        if i < k {
                            assert(n[i] == x && n[i] != n[k as int]);
                        } else {
                            assert(n[i + 1] == x && n[k as int] != n[i + 1]);
                        }
                    }
                    if n.contains(x) && x != key {
                        let i = choose|i: int| 0 <= i < n.len() && n[i] == x;
                        if i < k {
                            assert(m[i] == x);
                        } else {
                            assert(i != k);
                            assert(m[i - 1] == x);
                        }
                    }
                }
                assert forall|x: Seq<char>| m.contains(x) implies self@[x] == before@[x] by {
                    let i = choose|i: int| 0 <= i < m.len() && m[i] == x;
                    self.lemma_value(i);
                    if i < k {
                        before.lemma_value(i);
                    } else {
                        before.lemma_value(i + 1);
                        assert(self.entries@[i] == before.entries@[i + 1]);
                    }
                }
                assert(self@ =~= before@.remove(key));
            }
            return Some(entry.1);
        }
        proof {
            self.lemma_absent(key, k as int);
            assert(self@ =~= before@.remove(key));
        }
        None
    }
}

} // verus!
