//! Sorted runs of 64-bit keys.

use vstd::prelude::*;

verus! {

/// Ascending order, equal neighbours allowed.
pub open spec fn ascending(s: Seq<u64>) -> bool {
    forall|i: int, j: int| 0 <= i < j < s.len() ==> s[i] <= s[j]
}

/// Ascending order without repeats.
pub open spec fn strictly_ascending(s: Seq<u64>) -> bool {
    forall|i: int, j: int| 0 <= i < j < s.len() ==> s[i] < s[j]
}

/// `slice::sort_unstable` on 64-bit numbers: the same numbers, each as often
/// as before, in ascending order.
#[verifier::external_body]
fn sort_unstable(keys: &mut Vec<u64>)
    ensures
        ascending(final(keys)@),
        final(keys)@.to_multiset() == old(keys)@.to_multiset(),
{
    keys.sort_unstable();
}

/// Sorts keys. The result holds each key as often as the argument.
pub fn sort_keys(keys: Vec<u64>) -> (r: Vec<u64>)
    ensures
        ascending(r@),
        r@.to_multiset() == keys@.to_multiset(),
        r@.len() == keys@.len(),
        forall|k: u64|
            #![trigger r@.contains(k)]
            #![trigger keys@.contains(k)]
            r@.contains(k) <==> keys@.contains(k),
{
    let mut sorted = keys;
    sort_unstable(&mut sorted);
    proof {
        lemma_same_members(sorted@, keys@);
    }
    sorted
}

/// Sorts keys and keeps one of each.
pub fn sort_dedup_keys(keys: Vec<u64>) -> (r: Vec<u64>)
    ensures
        strictly_ascending(r@),
        r@.to_set() == keys@.to_set(),
        forall|k: u64|
            #![trigger r@.contains(k)]
            #![trigger keys@.contains(k)]
            r@.contains(k) <==> keys@.contains(k),
{
    let sorted = sort_keys(keys);
    let mut out: Vec<u64> = Vec::new();
    let mut i: usize = 0;
    while i < sorted.len()
        invariant
            i <= sorted@.len(),
            ascending(sorted@),
            strictly_ascending(out@),
            i == 0 <==> out@.len() == 0,
            i > 0 ==> out@.last() == sorted@[i - 1],
            forall|j: int| 0 <= j < i ==> out@.contains(#[trigger] sorted@[j]),
            forall|j: int| 0 <= j < out@.len() ==> sorted@.contains(#[trigger] out@[j]),
        decreases sorted.len() - i,
    {
        let ghost before = out@;
        if i == 0 || sorted[i] != sorted[i - 1] {
            out.push(sorted[i]);
            proof {
                assert(out@.last() == sorted@[i as int]);
                assert forall|j: int| 0 <= j < i implies out@.contains(#[trigger] sorted@[j]) by {
                    let p = choose|p: int| 0 <= p < before.len() && before[p] == sorted@[j];
                    assert(out@[p] == sorted@[j]);
                }
                assert forall|a: int, b: int| 0 <= a < b < out@.len() implies out@[a] < out@[b] by {
                    if b == before.len() {
                        assert(before.last() == sorted@[i - 1]);
                    }
                }
            }
        } else {
            assert(out@[out@.len() - 1] == sorted@[i as int]);
        }
        i += 1;
    }
    proof {
        assert forall|k: u64|
            #![trigger out@.contains(k)]
            #![trigger keys@.contains(k)]
            out@.contains(k) <==> keys@.contains(k) by {
            if out@.contains(k) {
                let j = choose|j: int| 0 <= j < out@.len() && out@[j] == k;
                assert(sorted@.contains(out@[j]));
            }
            if keys@.contains(k) {
                assert(sorted@.contains(k));
                let j = choose|j: int| 0 <= j < sorted@.len() && sorted@[j] == k;
                assert(out@.contains(sorted@[j]));
            }
        }
        assert(out@.to_set() =~= keys@.to_set());
    }
    out
}

/// Whether a key occurs in an ascending run, by binary search.
pub fn contains_key(keys: &[u64], key: u64) -> (r: bool)
    requires
        ascending(keys@),
    ensures
        r <==> keys@.contains(key),
{
    let mut lo: usize = 0;
    let mut hi: usize = keys.len();
    while lo < hi
        invariant
            lo <= hi <= keys@.len(),
            ascending(keys@),
            forall|i: int| 0 <= i < lo ==> keys@[i] < key,
            forall|i: int| hi <= i < keys@.len() ==> keys@[i] > key,
        decreases hi - lo,
    {
        let mid: usize = lo + (hi - lo) / 2;
        let probe: u64 = keys[mid];
        if probe == key {
            assert(keys@[mid as int] == key);
            return true;
        }
        if probe < key {
            lo = mid + 1;
        } else {
            hi = mid;
        }
    }
    false
}

/// Runs with the same multiset have the same members and the same length.
pub proof fn lemma_same_members(a: Seq<u64>, b: Seq<u64>)
    requires
        a.to_multiset() == b.to_multiset(),
    ensures
        a.len() == b.len(),
        forall|k: u64|
            #![trigger a.contains(k)]
            #![trigger b.contains(k)]
            a.contains(k) <==> b.contains(k),
{
    broadcast use vstd::seq_lib::group_to_multiset_ensures;

    assert(a.to_multiset().len() == a.len());
    assert(b.to_multiset().len() == b.len());
    assert forall|k: u64|
            #![trigger a.contains(k)]
            #![trigger b.contains(k)]
            a.contains(k) <==> b.contains(k) by {
        assert(a.contains(k) <==> a.to_multiset().count(k) > 0);
        assert(b.contains(k) <==> b.to_multiset().count(k) > 0);
    }
}

/// Two strictly ascending runs with the same members are equal.
pub proof fn law_sorted_set_is_unique(a: Seq<u64>, b: Seq<u64>)
    requires
        strictly_ascending(a),
        strictly_ascending(b),
        forall|k: u64|
            #![trigger a.contains(k)]
            #![trigger b.contains(k)]
            a.contains(k) <==> b.contains(k),
    ensures
        a == b,
    decreases a.len(),
{
    if a.len() == 0 {
        if b.len() > 0 {
            assert(b.contains(b[0]));
        }
        assert(a =~= b);
    } else {
        assert(a.contains(a.last()));
        assert(b.contains(a.last()));
        assert(b.contains(b.last()));
        assert(a.contains(b.last()));
        let p = choose|p: int| 0 <= p < b.len() && b[p] == a.last();
        let q = choose|q: int| 0 <= q < a.len() && a[q] == b.last();
        assert(a.last() == b.last());
        let a1 = a.drop_last();
        let b1 = b.drop_last();
        assert forall|k: u64|
            #![trigger a1.contains(k)]
            #![trigger b1.contains(k)]
            a1.contains(k) <==> b1.contains(k) by {
            if a1.contains(k) {
                let i = choose|i: int| 0 <= i < a1.len() && a1[i] == k;
                assert(a[i] == k && k < a.last());
                assert(a.contains(k));
                let j = choose|j: int| 0 <= j < b.len() && b[j] == k;
                assert(b1[j] == k);
            }
            if b1.contains(k) {
                let i = choose|i: int| 0 <= i < b1.len() && b1[i] == k;
                assert(b[i] == k && k < b.last());
                assert(b.contains(k));
                let j = choose|j: int| 0 <= j < a.len() && a[j] == k;
                assert(a1[j] == k);
            }
        }
        law_sorted_set_is_unique(a1, b1);
        assert(a =~= a1.push(a.last()));
        assert(b =~= b1.push(b.last()));
    }
}

/// Positions in the order of their keys, equal keys in the order of their
/// positions.
pub open spec fn is_stable_order(keys: Seq<u32>, p: Seq<int>) -> bool {
    &&& p.len() == keys.len()
    &&& forall|k: int| 0 <= k < p.len() ==> 0 <= #[trigger] p[k] < keys.len()
    &&& forall|i: int| 0 <= i < keys.len() ==> #[trigger] p.contains(i)
    &&& forall|k: int, l: int|
        #![trigger p[k], p[l]]
        0 <= k < l < p.len() ==> keys[p[k]] < keys[p[l]] || keys[p[k]] == keys[p[l]] && p[k] < p[l]
}

/// The positions that a list of indices stands for.
pub open spec fn positions(p: Seq<usize>) -> Seq<int> {
    p.map_values(|i: usize| i as int)
}

/// A key and a position as one number.
spec fn ranked(key: u32, i: int) -> u64 {
    (key * 0x1_0000_0000 + i) as u64
}

/// Whether a number is that of a key and its position.
spec fn is_rank(keys: Seq<u32>, n: u64) -> bool {
    exists|j: int| 0 <= j < keys.len() && n == #[trigger] ranked(keys[j], j)
}

/// The stable order of keys.
pub fn stable_order(keys: &[u32]) -> (r: Vec<usize>)
    requires
        keys@.len() <= 0xffff_ffff,
    ensures
        is_stable_order(keys@, positions(r@)),
{
    let mut ranks: Vec<u64> = Vec::new();
    let mut i: usize = 0;
    while i < keys.len()
        invariant
            i <= keys@.len() <= 0xffff_ffff,
            ranks@.len() == i,
            forall|j: int| 0 <= j < i ==> #[trigger] ranks@[j] == ranked(keys@[j], j),
        decreases keys.len() - i,
    {
        ranks.push(keys[i] as u64 * 0x1_0000_0000 + i as u64);
        i += 1;
    }
    let ghost all = ranks@;
    let sorted = sort_dedup_keys(ranks);
    proof {
        assert(all.no_duplicates());
        assert(sorted@.no_duplicates());
        all.unique_seq_to_set();
        sorted@.unique_seq_to_set();
        assert(sorted@.len() == all.len());
        assert forall|k: int| 0 <= k < sorted@.len() implies is_rank(keys@, #[trigger] sorted@[k]) by {
            assert(sorted@.contains(sorted@[k]));
            assert(all.contains(sorted@[k]));
            let j = choose|j: int| 0 <= j < all.len() && all[j] == sorted@[k];
            assert(sorted@[k] == ranked(keys@[j], j));
        }
    }
    let mut out: Vec<usize> = Vec::new();
    let mut k: usize = 0;
    while k < sorted.len()
        invariant
            k <= sorted@.len() == keys@.len(),
            keys@.len() <= 0xffff_ffff,
            out@.len() == k,
            forall|k: int| 0 <= k < sorted@.len() ==> is_rank(keys@, #[trigger] sorted@[k]),
            forall|l: int|
                0 <= l < k ==> {
                    &&& (#[trigger] out@[l]) < keys@.len()
                    &&& sorted@[l] == ranked(keys@[out@[l] as int], out@[l] as int)
                },
        decreases sorted.len() - k,
    {
        let at: usize = (sorted[k] % 0x1_0000_0000) as usize;
        proof {
            assert(is_rank(keys@, sorted@[k as int]));
            let j = choose|j: int| 0 <= j < keys@.len() && sorted@[k as int] == #[trigger] ranked(keys@[j], j);
            assert(at == j);
        }
        out.push(at);
        k += 1;
    }
    proof {
        let p = positions(out@);
        assert forall|i: int| 0 <= i < keys@.len() implies #[trigger] p.contains(i) by {
            assert(all[i] == ranked(keys@[i], i));
            assert(all.contains(all[i]));
            assert(sorted@.contains(all[i]));
            let l = choose|l: int| 0 <= l < sorted@.len() && sorted@[l] == all[i];
            assert(out@[l] == i);
            assert(p[l] == i);
        }
        assert forall|k: int, l: int|
            #![trigger p[k], p[l]]
            0 <= k < l < p.len() implies keys@[p[k]] < keys@[p[l]] || keys@[p[k]] == keys@[p[l]] && p[k] < p[l] by {
            assert(sorted@[k] < sorted@[l]);
            assert(out@[k] == p[k] && out@[l] == p[l]);
        }
    }
    out
}

} // verus!
