//! Keyed tables kept as lists of entries; a later entry for a key wins,
//! so each table reads as the map that inserting its entries in order gives.

use vstd::prelude::*;

verus! {

/// The map that inserting the entries of `s` in order gives.
pub open spec fn map_of<K, V>(s: Seq<(K, V)>) -> Map<K, V>
    decreases s.len(),
{
    if s.len() == 0 {
        Map::empty()
    } else {
        map_of(s.drop_last()).insert(s.last().0, s.last().1)
    }
}

/// Index of the last entry with key `k`, or -1.
pub open spec fn key_index<K, V>(s: Seq<(K, V)>, k: K) -> int
    decreases s.len(),
{
    if s.len() == 0 {
        -1
    } else if s.last().0 == k {
        s.len() - 1
    } else {
        key_index(s.drop_last(), k)
    }
}

pub open spec fn unique_keys<K, V>(s: Seq<(K, V)>) -> bool {
    forall|i: int, j: int| 0 <= i < j < s.len() ==> s[i].0 != s[j].0
}

pub proof fn lemma_key_index<K, V>(s: Seq<(K, V)>, k: K)
    ensures
        -1 <= key_index(s, k) < s.len(),
        key_index(s, k) >= 0 ==> s[key_index(s, k)].0 == k,
        key_index(s, k) >= 0 ==> forall|j: int|
            key_index(s, k) < j < s.len() ==> #[trigger] s[j].0 != k,
        key_index(s, k) == -1 ==> forall|j: int| 0 <= j < s.len() ==> #[trigger] s[j].0 != k,
        map_of(s).contains_key(k) <==> key_index(s, k) >= 0,
        key_index(s, k) >= 0 ==> map_of(s)[k] == s[key_index(s, k)].1,
    decreases s.len(),
{
    if s.len() > 0 && s.last().0 != k {
        let t = s.drop_last();
        lemma_key_index(t, k);
        assert forall|j: int| 0 <= j < t.len() implies #[trigger] s[j] == t[j] by {}
    }
}

/// In a table with unique keys, the entry at `i` is the one for its key.
pub proof fn lemma_unique_key_index<K, V>(s: Seq<(K, V)>, i: int)
    requires
        unique_keys(s),
        0 <= i < s.len(),
    ensures
        key_index(s, s[i].0) == i,
        map_of(s).contains_key(s[i].0),
        map_of(s)[s[i].0] == s[i].1,
{
    lemma_key_index(s, s[i].0);
    let j = key_index(s, s[i].0);
    if j != i {
        if j < i {
            assert(s[j].0 != s[i].0);
        } else {
            assert(s[i].0 != s[j].0);
        }
    }
}

/// Tables with the same keys in the same places find keys at the same index.
pub proof fn lemma_same_keys<K, V>(s: Seq<(K, V)>, t: Seq<(K, V)>, k: K)
    requires
        s.len() == t.len(),
        forall|i: int| 0 <= i < s.len() ==> #[trigger] s[i].0 == t[i].0,
    ensures
        key_index(s, k) == key_index(t, k),
    decreases s.len(),
{
    if s.len() > 0 {
        assert(s.last().0 == t[t.len() - 1].0);
        let s1 = s.drop_last();
        let t1 = t.drop_last();
        assert forall|i: int| 0 <= i < s1.len() implies #[trigger] s1[i].0 == t1[i].0 by {
            assert(s[i].0 == t[i].0);
        }
        lemma_same_keys(s1, t1, k);
    }
}

/// Replacing the value of entry `i` replaces the value of its key.
pub proof fn lemma_update_value<K, V>(s: Seq<(K, V)>, i: int, v: V)
    requires
        unique_keys(s),
        0 <= i < s.len(),
    ensures
        unique_keys(s.update(i, (s[i].0, v))),
        map_of(s.update(i, (s[i].0, v))) == map_of(s).insert(s[i].0, v),
{
    let t = s.update(i, (s[i].0, v));
    assert forall|a: int, b: int| 0 <= a < b < t.len() implies t[a].0 != t[b].0 by {
        assert(t[a].0 == s[a].0 && t[b].0 == s[b].0);
    }
    assert forall|j: int| 0 <= j < s.len() implies #[trigger] s[j].0 == t[j].0 by {}
    assert forall|k: K| #[trigger] map_of(t).contains_key(k) == map_of(s).insert(
        s[i].0,
        v,
    ).contains_key(k) && (map_of(t).contains_key(k) ==> map_of(t)[k] == map_of(s).insert(
        s[i].0,
        v,
    )[k]) by {
        lemma_same_keys(s, t, k);
        lemma_key_index(s, k);
        lemma_key_index(t, k);
        lemma_unique_key_index(s, i);
        if key_index(s, k) >= 0 {
            lemma_unique_key_index(s, key_index(s, k));
        }
    }
    assert(map_of(t) =~= map_of(s).insert(s[i].0, v));
}

/// Adding an entry for a new key keeps the keys unique.
pub proof fn lemma_push_new<K, V>(s: Seq<(K, V)>, k: K, v: V)
    requires
        unique_keys(s),
        !map_of(s).contains_key(k),
    ensures
        unique_keys(s.push((k, v))),
        map_of(s.push((k, v))) == map_of(s).insert(k, v),
{
    lemma_key_index(s, k);
    let t = s.push((k, v));
    assert(t.drop_last() =~= s);
    assert forall|a: int, b: int| 0 <= a < b < t.len() implies t[a].0 != t[b].0 by {
        if b == s.len() {
            assert(s[a].0 != k);
        } else {
            assert(t[a] == s[a] && t[b] == s[b]);
        }
    }
}

/// Index of the last entry of `s` with key `k`.
pub fn find_u16<V>(s: &Vec<(u16, V)>, k: u16) -> (r: Option<usize>)
    ensures
        match r {
            Some(i) => i as int == key_index(s@, k),
            None => key_index(s@, k) == -1,
        },
{
    let mut j = s.len();
    assert(s@.take(j as int) =~= s@);
    while j > 0
        invariant
            j <= s@.len(),
            key_index(s@, k) == key_index(s@.take(j as int), k),
        decreases j,
    {
        assert(s@.take(j as int).drop_last() =~= s@.take(j - 1));
        if s[j - 1].0 == k {
            return Some(j - 1);
        }
        j = j - 1;
    }
    None
}

/// Index of the last entry of `s` with key `k`.
pub fn find_u64<V>(s: &Vec<(u64, V)>, k: u64) -> (r: Option<usize>)
    ensures
        match r {
            Some(i) => i as int == key_index(s@, k),
            None => key_index(s@, k) == -1,
        },
{
    let mut j = s.len();
    assert(s@.take(j as int) =~= s@);
    while j > 0
        invariant
            j <= s@.len(),
            key_index(s@, k) == key_index(s@.take(j as int), k),
        decreases j,
    {
        assert(s@.take(j as int).drop_last() =~= s@.take(j - 1));
        if s[j - 1].0 == k {
            return Some(j - 1);
        }
        j = j - 1;
    }
    None
}

/// Index of the last entry of `s` with key `k`.
pub fn find_pair<V>(s: &Vec<((u32, u32), V)>, k: (u32, u32)) -> (r: Option<usize>)
    ensures
        match r {
            Some(i) => i as int == key_index(s@, k),
            None => key_index(s@, k) == -1,
        },
{
    let mut j = s.len();
    assert(s@.take(j as int) =~= s@);
    while j > 0
        invariant
            j <= s@.len(),
            key_index(s@, k) == key_index(s@.take(j as int), k),
        decreases j,
    {
        assert(s@.take(j as int).drop_last() =~= s@.take(j - 1));
        let e = &s[j - 1];
        if e.0.0 == k.0 && e.0.1 == k.1 {
            return Some(j - 1);
        }
        j = j - 1;
    }
    None
}


/// A table whose entries are those of `s`, key by key, with each value
/// replaced by `f` of its key and value, reads as that map.
pub proof fn lemma_pointwise<K, V, W>(s: Seq<(K, V)>, t: Seq<(K, W)>, f: spec_fn(K, V) -> W)
    requires
        unique_keys(s),
        s.len() == t.len(),
        forall|i: int| 0 <= i < s.len() ==> (#[trigger] t[i]).0 == s[i].0,
        forall|i: int| 0 <= i < s.len() ==> (#[trigger] t[i]).1 == f(s[i].0, s[i].1),
    ensures
        unique_keys(t),
        map_of(t) == Map::new(
            |k: K| map_of(s).contains_key(k),
            |k: K| f(k, map_of(s)[k]),
        ),
{
    assert forall|a: int, b: int| 0 <= a < b < t.len() implies t[a].0 != t[b].0 by {
        assert(t[a].0 == s[a].0 && t[b].0 == s[b].0);
    }
    let target = Map::new(|k: K| map_of(s).contains_key(k), |k: K| f(k, map_of(s)[k]));
    assert forall|k: K| #[trigger] map_of(t).contains_key(k) == target.contains_key(k) && (
    map_of(t).contains_key(k) ==> map_of(t)[k] == target[k]) by {
        assert forall|i: int| 0 <= i < s.len() implies #[trigger] s[i].0 == t[i].0 by {}
        lemma_key_index(s, k);
        lemma_key_index(t, k);
        lemma_same_keys_any(s, t, k);
        if key_index(s, k) >= 0 {
            lemma_unique_key_index(s, key_index(s, k));
        }
    }
    assert(map_of(t) =~= target);
}

/// Tables with the same keys in the same places find keys at the same
/// index, whatever their values.
pub proof fn lemma_same_keys_any<K, V, W>(s: Seq<(K, V)>, t: Seq<(K, W)>, k: K)
    requires
        s.len() == t.len(),
        forall|i: int| 0 <= i < s.len() ==> #[trigger] s[i].0 == t[i].0,
    ensures
        key_index(s, k) == key_index(t, k),
    decreases s.len(),
{
    if s.len() > 0 {
        assert(s.last().0 == t[t.len() - 1].0);
        let s1 = s.drop_last();
        let t1 = t.drop_last();
        assert forall|i: int| 0 <= i < s1.len() implies #[trigger] s1[i].0 == t1[i].0 by {
            assert(s[i].0 == t[i].0);
        }
        lemma_same_keys_any(s1, t1, k);
    }
}

/// The entries of `s` whose value passes `keep`, in order.
pub open spec fn kept_entries<K, V>(s: Seq<(K, V)>, keep: spec_fn(V) -> bool) -> Seq<(K, V)>
    decreases s.len(),
{
    if s.len() == 0 {
        seq![]
    } else if keep(s.last().1) {
        kept_entries(s.drop_last(), keep).push(s.last())
    } else {
        kept_entries(s.drop_last(), keep)
    }
}

/// Keeping the entries whose value passes `keep` keeps exactly those keys.
pub proof fn lemma_kept_entries<K, V>(s: Seq<(K, V)>, keep: spec_fn(V) -> bool)
    requires
        unique_keys(s),
    ensures
        unique_keys(kept_entries(s, keep)),
        map_of(kept_entries(s, keep)) == Map::new(
            |k: K| map_of(s).contains_key(k) && keep(map_of(s)[k]),
            |k: K| map_of(s)[k],
        ),
        forall|k: K| map_of(kept_entries(s, keep)).contains_key(k) ==> map_of(s).contains_key(k),
    decreases s.len(),
{
    if s.len() > 0 {
        let t = s.drop_last();
        assert forall|a: int, b: int| 0 <= a < b < t.len() implies t[a].0 != t[b].0 by {
            assert(t[a] == s[a] && t[b] == s[b]);
        }
        lemma_kept_entries(t, keep);
        let last = s.last();
        lemma_key_index(t, last.0);
        assert forall|j: int| 0 <= j < t.len() implies #[trigger] t[j].0 != last.0 by {
            assert(t[j] == s[j]);
            assert(s[j].0 != s[s.len() - 1].0);
        }
        let kt = kept_entries(t, keep);
        if keep(last.1) {
            lemma_push_new(kt, last.0, last.1);
        }
        let target = Map::new(
            |k: K| map_of(s).contains_key(k) && keep(map_of(s)[k]),
            |k: K| map_of(s)[k],
        );
        assert(map_of(kept_entries(s, keep)) =~= target);
    }
}

/// A table keyed by strings, read with the keys as text.
pub open spec fn text_keyed<V>(s: Seq<(String, V)>) -> Seq<(Seq<char>, V)> {
    s.map_values(|e: (String, V)| (e.0@, e.1))
}

/// Index of the last entry of `s` with key `k`.
pub fn find_text<V>(s: &Vec<(String, V)>, k: &String) -> (r: Option<usize>)
    ensures
        match r {
            Some(i) => i as int == key_index(text_keyed(s@), k@),
            None => key_index(text_keyed(s@), k@) == -1,
        },
{
    let ghost v = text_keyed(s@);
    let mut j = s.len();
    assert(v.take(j as int) =~= v);
    while j > 0
        invariant
            j <= s@.len(),
            v == text_keyed(s@),
            key_index(v, k@) == key_index(v.take(j as int), k@),
        decreases j,
    {
        assert(v.take(j as int).drop_last() =~= v.take(j - 1));
        if s[j - 1].0 == *k {
            return Some(j - 1);
        }
        j = j - 1;
    }
    None
}

} // verus!
