//! Facts about association lists: sequences of `(key, value)` pairs whose keys
//! are pairwise distinct, read as finite maps.
use vstd::prelude::*;

verus! {

/// No key occurs twice.
pub open spec fn keys_unique<K, V>(s: Seq<(K, V)>) -> bool {
    forall|i: int, j: int| 0 <= i < s.len() && 0 <= j < s.len() && i != j ==> s[i].0 != s[j].0
}

/// Some entry carries the key `k`.
pub open spec fn has_key<K, V>(s: Seq<(K, V)>, k: K) -> bool {
    exists|i: int| 0 <= i < s.len() && s[i].0 == k
}

/// The position of an entry with key `k` (meaningful when `has_key(s, k)`).
pub open spec fn key_index<K, V>(s: Seq<(K, V)>, k: K) -> int {
    choose|i: int| 0 <= i < s.len() && s[i].0 == k
}

/// The map that an association list stands for.
pub open spec fn table_map<K, V>(s: Seq<(K, V)>) -> Map<K, V> {
    Map::new(|k: K| has_key(s, k), |k: K| s[key_index(s, k)].1)
}

/// The keys of an association list, in order.
pub open spec fn table_keys<K, V>(s: Seq<(K, V)>) -> Seq<K> {
    s.map_values(|e: (K, V)| e.0)
}

/// In a list with distinct keys, the entry found for a key is the one at `i`.
pub proof fn lemma_key_index<K, V>(s: Seq<(K, V)>, i: int)
    requires
        keys_unique(s),
        0 <= i < s.len(),
    ensures
        has_key(s, s[i].0),
        key_index(s, s[i].0) == i,
        table_map(s).contains_key(s[i].0),
        table_map(s)[s[i].0] == s[i].1,
{
    assert(has_key(s, s[i].0));
}

/// Replacing the value of an existing entry updates the map at that key.
pub proof fn lemma_table_update<K, V>(s: Seq<(K, V)>, i: int, v: V)
    requires
        keys_unique(s),
        0 <= i < s.len(),
    ensures
        keys_unique(s.update(i, (s[i].0, v))),
        table_map(s.update(i, (s[i].0, v))) == table_map(s).insert(s[i].0, v),
        table_keys(s.update(i, (s[i].0, v))) == table_keys(s),
{
    let t = s.update(i, (s[i].0, v));
    let k0 = s[i].0;
    assert forall|k: K| #[trigger] has_key(t, k) == has_key(s, k) by {
        if has_key(s, k) {
            let j = key_index(s, k);
            assert(t[j].0 == k);
        }
        if has_key(t, k) {
            let j = key_index(t, k);
            assert(s[j].0 == k);
        }
    }
    assert forall|k: K| has_key(t, k) && k != k0 implies #[trigger] t[key_index(t, k)].1 == s[key_index(s, k)].1 by {
        let j = key_index(t, k);
        assert(s[j].0 == k);
        lemma_key_index(s, j);
    }
    lemma_key_index(s, i);
    assert(keys_unique(t));
    lemma_key_index(t, i);
    assert(table_map(t) =~= table_map(s).insert(k0, v));
    assert(table_keys(t) =~= table_keys(s));
}

/// Appending an entry with a fresh key inserts it into the map.
pub proof fn lemma_table_push<K, V>(s: Seq<(K, V)>, k: K, v: V)
    requires
        keys_unique(s),
        !has_key(s, k),
    ensures
        keys_unique(s.push((k, v))),
        table_map(s.push((k, v))) == table_map(s).insert(k, v),
        table_keys(s.push((k, v))) == table_keys(s).push(k),
{
    let t = s.push((k, v));
    assert(keys_unique(t));
    assert forall|k2: K| #[trigger] has_key(t, k2) == (has_key(s, k2) || k2 == k) by {
        if has_key(s, k2) {
            let j = key_index(s, k2);
            assert(t[j].0 == k2);
        }
        if k2 == k {
            assert(t[s.len() as int].0 == k2);
        }
        if has_key(t, k2) && k2 != k {
            let j = key_index(t, k2);
            assert(s[j].0 == k2);
        }
    }
    assert forall|k2: K| has_key(t, k2) && k2 != k implies #[trigger] t[key_index(t, k2)].1 == s[key_index(s, k2)].1 by {
        let j = key_index(t, k2);
        assert(s[j].0 == k2);
        lemma_key_index(s, j);
    }
    lemma_key_index(t, s.len() as int);
    assert(table_map(t) =~= table_map(s).insert(k, v));
    assert(table_keys(t) =~= table_keys(s).push(k));
}

/// Removing the entry at `i` removes its key from the map.
pub proof fn lemma_table_remove<K, V>(s: Seq<(K, V)>, i: int)
    requires
        keys_unique(s),
        0 <= i < s.len(),
    ensures
        keys_unique(s.remove(i)),
        table_map(s.remove(i)) == table_map(s).remove(s[i].0),
        table_keys(s.remove(i)) == table_keys(s).remove(i),
{
    let t = s.remove(i);
    let k0 = s[i].0;
    assert(keys_unique(t)) by {
        assert forall|a: int, b: int| 0 <= a < t.len() && 0 <= b < t.len() && a != b implies t[a].0 != t[b].0 by {
            let a2 = if a < i { a } else { a + 1 };
            let b2 = if b < i { b } else { b + 1 };
            assert(t[a] == s[a2]);
            assert(t[b] == s[b2]);
        }
    }
    assert forall|k: K| #[trigger] has_key(t, k) == (has_key(s, k) && k != k0) by {
        if has_key(s, k) && k != k0 {
            let j = key_index(s, k);
            if j < i {
                assert(t[j].0 == k);
            } else {
                assert(j != i);
                assert(t[j - 1].0 == k);
            }
        }
        if has_key(t, k) {
            let j = key_index(t, k);
            let j2 = if j < i { j } else { j + 1 };
            assert(s[j2].0 == k);
            assert(j2 != i);
        }
    }
    assert forall|k: K| has_key(t, k) implies #[trigger] t[key_index(t, k)].1 == s[key_index(s, k)].1 by {
        let j = key_index(t, k);
        let j2 = if j < i { j } else { j + 1 };
        assert(s[j2].0 == k);
        lemma_key_index(s, j2);
    }
    assert(table_map(t) =~= table_map(s).remove(k0));
    assert(table_keys(t) =~= table_keys(s).remove(i));
}

/// An empty list is the empty map.
pub proof fn lemma_table_empty<K, V>(s: Seq<(K, V)>)
    requires
        s.len() == 0,
    ensures
        keys_unique(s),
        table_map(s) == Map::<K, V>::empty(),
        table_keys(s) == Seq::<K>::empty(),
{
    assert(table_map(s) =~= Map::<K, V>::empty());
    assert(table_keys(s) =~= Seq::<K>::empty());
}

/// The map of a list with distinct keys has one key per entry.
pub proof fn lemma_table_len<K, V>(s: Seq<(K, V)>)
    requires
        keys_unique(s),
    ensures
        table_map(s).dom().finite(),
        table_map(s).dom().len() == s.len(),
{
    let ks = table_keys(s);
    assert(ks.no_duplicates()) by {
        assert forall|i: int, j: int| 0 <= i < ks.len() && 0 <= j < ks.len() && i != j implies ks[i] != ks[j] by {
            assert(ks[i] == s[i].0 && ks[j] == s[j].0);
        }
    }
    assert(table_map(s).dom() =~= ks.to_set()) by {
        assert forall|k: K| table_map(s).dom().contains(k) <==> ks.to_set().contains(k) by {
            if has_key(s, k) {
                let j = key_index(s, k);
                assert(ks[j] == k);
            }
            if ks.contains(k) {
                let j = choose|j: int| 0 <= j < ks.len() && ks[j] == k;
                assert(s[j].0 == k);
            }
        }
    }
    ks.unique_seq_to_set();
}

} // verus!
