//! Stable ordering of rows by a count, largest first.

use vstd::prelude::*;

verus! {

/// Row `a` comes before row `b` when its key is larger, or when the keys
/// are equal and `a` came first: the order a stable descending sort gives.
pub open spec fn before(keys: Seq<u64>, a: int, b: int) -> bool {
    keys[a] > keys[b] || (keys[a] == keys[b] && a < b)
}

/// `idx` lists every row index below `n` exactly once.
pub open spec fn is_permutation(idx: Seq<usize>, n: nat) -> bool {
    &&& idx.len() == n
    &&& forall|k: int| 0 <= k < idx.len() ==> #[trigger] idx[k] < n
    &&& forall|k: int, l: int| 0 <= k < l < idx.len() ==> idx[k] != idx[l]
}

/// `idx` is the stable descending order of the rows with keys `keys`.
pub open spec fn is_stable_desc_order(keys: Seq<u64>, idx: Seq<usize>) -> bool {
    &&& is_permutation(idx, keys.len())
    &&& forall|k: int, l: int|
        0 <= k < l < idx.len() ==> before(keys, #[trigger] idx[k] as int, #[trigger] idx[l] as int)
}

/// The row indices of `keys`, ordered by key from largest to smallest,
/// rows with equal keys kept in the order they come.
pub fn stable_desc_order(keys: &Vec<u64>) -> (idx: Vec<usize>)
    ensures
        is_stable_desc_order(keys@, idx@),
{
    let n = keys.len();
    let mut idx: Vec<usize> = Vec::new();
    let mut i: usize = 0;
    while i < n
        invariant
            n == keys@.len(),
            i <= n,
            idx@.len() == i,
            forall|k: int| 0 <= k < idx@.len() ==> #[trigger] idx@[k] < i,
            forall|k: int, l: int| 0 <= k < l < idx@.len() ==> idx@[k] != idx@[l],
            forall|k: int, l: int|
                0 <= k < l < idx@.len() ==> before(
                    keys@,
                    #[trigger] idx@[k] as int,
                    #[trigger] idx@[l] as int,
                ),
        decreases n - i,
    {
        let key = keys[i];
        let mut p: usize = 0;
        while p < idx.len() && keys[idx[p]] >= key
            invariant
                p <= idx@.len(),
                idx@.len() == i,
                i < n == keys@.len(),
                forall|k: int| 0 <= k < idx@.len() ==> #[trigger] idx@[k] < i,
                forall|k: int| 0 <= k < p ==> keys@[#[trigger] idx@[k] as int] >= key,
            decreases idx@.len() - p,
        {
            p = p + 1;
        }
        let ghost old_idx = idx@;
        proof {
            // every row after the insertion point has a smaller key
            assert forall|k: int| p <= k < old_idx.len() implies keys@[#[trigger] old_idx[k] as int]
                < key by {
                if k > p {
                    assert(before(keys@, old_idx[p as int] as int, old_idx[k] as int));
                }
            }
        }
        idx.insert(p, i);
        proof {
            assert forall|k: int| 0 <= k < idx@.len() implies #[trigger] idx@[k] < i + 1 by {
                if k < p {
                    assert(idx@[k] == old_idx[k]);
                } else if k > p {
                    assert(idx@[k] == old_idx[k - 1]);
                }
            }
            assert forall|k: int, l: int| 0 <= k < l < idx@.len() implies idx@[k] != idx@[l] by {
                if k < p && l < p {
                    assert(idx@[k] == old_idx[k] && idx@[l] == old_idx[l]);
                } else if k < p && l == p {
                    assert(idx@[k] == old_idx[k]);
                } else if k < p && l > p {
                    assert(idx@[k] == old_idx[k] && idx@[l] == old_idx[l - 1]);
                } else if k == p {
                    assert(idx@[l] == old_idx[l - 1]);
                } else {
                    assert(idx@[k] == old_idx[k - 1] && idx@[l] == old_idx[l - 1]);
                }
            }
            assert forall|k: int, l: int| 0 <= k < l < idx@.len() implies before(
                keys@,
                #[trigger] idx@[k] as int,
                #[trigger] idx@[l] as int,
            ) by {
                if k < p && l < p {
                    assert(idx@[k] == old_idx[k] && idx@[l] == old_idx[l]);
                } else if k < p && l == p {
                    assert(idx@[k] == old_idx[k]);
                    assert(keys@[old_idx[k] as int] >= key);
                } else if k < p && l > p {
                    assert(idx@[k] == old_idx[k] && idx@[l] == old_idx[l - 1]);
                } else if k == p {
                    assert(idx@[l] == old_idx[l - 1]);
                    assert(keys@[old_idx[l - 1] as int] < key);
                } else {
                    assert(idx@[k] == old_idx[k - 1] && idx@[l] == old_idx[l - 1]);
                }
            }
        }
        i = i + 1;
    }
    idx
}

/// A permutation of the indices below `n` lists each of them.
proof fn lemma_permutation_covers(idx: Seq<usize>, n: nat, j: int)
    requires
        is_permutation(idx, n),
        0 <= j < n,
    ensures
        exists|k: int| 0 <= k < idx.len() && idx[k] == j,
{
    broadcast use vstd::set::group_set_axioms, vstd::seq_lib::seq_to_set_is_finite;

    let s = idx.map_values(|x: usize| x as int);
    assert forall|a: int, b: int| 0 <= a < s.len() && 0 <= b < s.len() && a != b implies s[a]
        != s[b] by {
        if a < b {
            assert(idx[a] != idx[b]);
        } else {
            assert(idx[b] != idx[a]);
        }
    }
    assert(s.no_duplicates());
    s.unique_seq_to_set();
    vstd::set_lib::lemma_int_range(0, n as int);
    let r = vstd::set_lib::set_int_range(0, n as int);
    assert forall|x: int| s.to_set().contains(x) implies r.contains(x) by {
        let k = choose|k: int| 0 <= k < s.len() && s[k] == x;
        assert(idx[k] < n);
    }
    assert(s.to_set().subset_of(r));
    vstd::set_lib::lemma_subset_equality(s.to_set(), r);
    assert(r.contains(j));
    assert(s.to_set().contains(j));
    let k = choose|k: int| 0 <= k < s.len() && s[k] == j;
    assert(idx[k] == j);
}

proof fn lemma_same_prefix(keys: Seq<u64>, a: Seq<usize>, b: Seq<usize>, k: int)
    requires
        is_stable_desc_order(keys, a),
        is_stable_desc_order(keys, b),
        0 <= k <= a.len(),
    ensures
        forall|j: int| 0 <= j < k ==> a[j] == b[j],
    decreases k,
{
    if k > 0 {
        let m = k - 1;
        lemma_same_prefix(keys, a, b, m);
        let x = a[m];
        let y = b[m];
        if x != y {
            lemma_permutation_covers(a, keys.len(), y as int);
            let p = choose|p: int| 0 <= p < a.len() && a[p] == y;
            lemma_permutation_covers(b, keys.len(), x as int);
            let q = choose|q: int| 0 <= q < b.len() && b[q] == x;
            if p < m {
                assert(b[p] == y);
                assert(b[p] != b[m]);
            }
            if q < m {
                assert(a[q] == x);
                assert(a[q] != a[m]);
            }
            assert(before(keys, a[m] as int, a[p] as int));
            assert(before(keys, b[m] as int, b[q] as int));
        }
    }
}

/// The stable descending order of a list of keys is unique: two orders
/// that both meet `is_stable_desc_order` are the same.
pub proof fn law_stable_order_unique(keys: Seq<u64>, a: Seq<usize>, b: Seq<usize>)
    requires
        is_stable_desc_order(keys, a),
        is_stable_desc_order(keys, b),
    ensures
        a == b,
{
    lemma_same_prefix(keys, a, b, a.len() as int);
    assert(a =~= b);
}

} // verus!
