//! Stable sorting, as an order of positions.

use vstd::prelude::*;

verus! {

/// Whether positions list values by their keys, each position once, and equal
/// keys in the order in which they came.
pub open spec fn is_stable<K>(keys: Seq<K>, le: spec_fn(K, K) -> bool, p: Seq<int>) -> bool {
    &&& p.len() == keys.len()
    &&& p.no_duplicates()
    &&& forall|i: int| 0 <= i < p.len() ==> 0 <= #[trigger] p[i] < keys.len()
    &&& forall|i: int, j: int|
        0 <= i < j < p.len() ==> {
            &&& le(keys[#[trigger] p[i]], keys[#[trigger] p[j]])
            &&& keys[p[i]] == keys[p[j]] ==> p[i] < p[j]
        }
}

/// Whether a relation orders all values.
pub open spec fn is_order<K>(le: spec_fn(K, K) -> bool) -> bool {
    &&& forall|a: K, b: K| #[trigger] le(a, b) || le(b, a)
    &&& forall|a: K, b: K, c: K| #[trigger] le(a, b) && #[trigger] le(b, c) ==> le(a, c)
}

/// The values at positions, in their order.
pub open spec fn at_positions<T>(s: Seq<T>, p: Seq<int>) -> Seq<T> {
    p.map_values(|i: int| s[i])
}

/// One more value, put behind all whose keys are not larger, keeps the order
/// stable.
pub proof fn lemma_insert<K>(keys: Seq<K>, le: spec_fn(K, K) -> bool, p: Seq<int>, key: K, k: int)
    requires
        is_order(le),
        is_stable(keys, le, p),
        0 <= k <= p.len(),
        forall|j: int| 0 <= j < k ==> le(keys[#[trigger] p[j]], key),
        k < p.len() ==> !le(keys[p[k]], key),
    ensures
        is_stable(keys.push(key), le, p.insert(k, keys.len() as int)),
{
    let n = keys.len() as int;
    let more = keys.push(key);
    let q = p.insert(k, n);
    assert forall|i: int| 0 <= i < q.len() implies 0 <= #[trigger] q[i] < more.len() by {
        if i < k {
            assert(q[i] == p[i]);
        } else if i > k {
            assert(q[i] == p[i - 1]);
        }
    }
    assert forall|i: int, j: int| 0 <= i < j < q.len() implies {
        &&& le(more[#[trigger] q[i]], more[#[trigger] q[j]])
        &&& more[q[i]] == more[q[j]] ==> q[i] < q[j]
        &&& q[i] != q[j]
    } by {
        let a = if i < k {
            i
        } else {
            i - 1
        };
        let b = if j < k {
            j
        } else {
            j - 1
        };
        if i == k {
            assert(q[j] == p[b] && more[q[j]] == keys[p[b]]);
            assert(more[q[i]] == key);
            assert(le(keys[p[k]], key) || le(key, keys[p[k]]));
            if b > k {
                assert(le(keys[p[k]], keys[p[b]]));
            }
        } else if j == k {
            assert(q[i] == p[a] && more[q[i]] == keys[p[a]]);
            assert(more[q[j]] == key);
        } else {
            assert(q[i] == p[a] && more[q[i]] == keys[p[a]]);
            assert(q[j] == p[b] && more[q[j]] == keys[p[b]]);
        }
    }
}

/// The values at positions after one more value is put at position `k`.
pub proof fn lemma_insert_value<T>(s: Seq<T>, p: Seq<int>, v: T, k: int)
    requires
        0 <= k <= p.len(),
        forall|i: int| 0 <= i < p.len() ==> 0 <= #[trigger] p[i] < s.len(),
    ensures
        at_positions(s.push(v), p.insert(k, s.len() as int)) == at_positions(s, p).insert(k, v),
{
    let n = s.len() as int;
    let q = p.insert(k, n);
    let left = at_positions(s.push(v), q);
    let right = at_positions(s, p).insert(k, v);
    assert forall|i: int| 0 <= i < left.len() implies left[i] == right[i] by {
        if i < k {
            assert(q[i] == p[i]);
        } else if i > k {
            assert(q[i] == p[i - 1]);
        }
    }
    assert(left =~= right);
}

} // verus!
