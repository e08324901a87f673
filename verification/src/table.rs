//! Tables kept as parallel sequences of distinct keys and their values,
//! seen as maps.

use vstd::prelude::*;

verus! {

/// The map that distinct `keys` and the `vals` at the same places describe.
pub open spec fn keyed_map<K, V>(keys: Seq<K>, vals: Seq<V>) -> Map<K, V> {
    Map::new(|k: K| keys.contains(k), |k: K| vals[keys.index_of(k)])
}

/// In a sequence without duplicates, a key's slot is where it stands.
pub proof fn lemma_slot<K>(keys: Seq<K>, i: int)
    requires
        keys.no_duplicates(),
        0 <= i < keys.len(),
    ensures
        keys.index_of(keys[i]) == i,
{
    assert(keys.contains(keys[i]));
}

/// A present key's slot is in range and holds the key.
pub proof fn lemma_slot_of_present<K>(keys: Seq<K>, k: K)
    requires
        keys.no_duplicates(),
        keys.contains(k),
    ensures
        0 <= keys.index_of(k) < keys.len(),
        keys[keys.index_of(k)] == k,
{
    let j = choose|j: int| 0 <= j < keys.len() && keys[j] == k;
    lemma_slot(keys, j);
}

/// Replacing the value at a slot replaces the key's value in the map.
pub proof fn lemma_keyed_set<K, V>(keys: Seq<K>, vals: Seq<V>, i: int, v: V)
    requires
        keys.no_duplicates(),
        keys.len() == vals.len(),
        0 <= i < keys.len(),
    ensures
        keyed_map(keys, vals.update(i, v)) == keyed_map(keys, vals).insert(keys[i], v),
{
    lemma_slot(keys, i);
    assert forall|k: K| #[trigger] keys.contains(k) && k != keys[i] implies keys.index_of(k) != i
        && 0 <= keys.index_of(k) < keys.len() by {
        lemma_slot_of_present(keys, k);
    }
    assert(keyed_map(keys, vals.update(i, v)) =~= keyed_map(keys, vals).insert(keys[i], v));
}

/// Appending a new key with its value inserts it into the map.
pub proof fn lemma_keyed_push<K, V>(keys: Seq<K>, vals: Seq<V>, k: K, v: V)
    requires
        keys.no_duplicates(),
        keys.len() == vals.len(),
        !keys.contains(k),
    ensures
        keys.push(k).no_duplicates(),
        keyed_map(keys.push(k), vals.push(v)) == keyed_map(keys, vals).insert(k, v),
{
    let keys2 = keys.push(k);
    assert forall|a: int, b: int| 0 <= a < b < keys2.len() implies keys2[a] != keys2[b] by {
        if b == keys.len() {
            assert(keys.contains(keys[a]));
        }
    }
    lemma_slot(keys2, keys.len() as int);
    assert forall|a: K| #[trigger] keys.contains(a) implies keys2.index_of(a) == keys.index_of(a)
        && keys.index_of(a) < keys.len() by {
        lemma_slot_of_present(keys, a);
        let j = keys.index_of(a);
        assert(keys2[j] == a);
        lemma_slot(keys2, j);
    }
    assert forall|a: K| keys2.contains(a) <==> (keys.contains(a) || a == k) by {
        if keys2.contains(a) && a != k {
            let j = choose|j: int| 0 <= j < keys2.len() && keys2[j] == a;
            assert(keys[j] == a);
        }
        if keys.contains(a) {
            let j = choose|j: int| 0 <= j < keys.len() && keys[j] == a;
            assert(keys2[j] == a);
        }
        if a == k {
            assert(keys2[keys.len() as int] == a);
        }
    }
    assert(keyed_map(keys2, vals.push(v)) =~= keyed_map(keys, vals).insert(k, v));
}

/// Removing the entry at a slot removes its key from the map.
pub proof fn lemma_keyed_remove<K, V>(keys: Seq<K>, vals: Seq<V>, i: int)
    requires
        keys.no_duplicates(),
        keys.len() == vals.len(),
        0 <= i < keys.len(),
    ensures
        keys.remove(i).no_duplicates(),
        keyed_map(keys.remove(i), vals.remove(i)) == keyed_map(keys, vals).remove(keys[i]),
{
    let k2 = keys.remove(i);
    assert forall|a: int, b: int| 0 <= a < b < k2.len() implies k2[a] != k2[b] by {
        let a0 = if a < i { a } else { a + 1 };
        let b0 = if b < i { b } else { b + 1 };
        assert(k2[a] == keys[a0] && k2[b] == keys[b0]);
    }
    assert forall|k: K| k2.contains(k) <==> (keys.contains(k) && k != keys[i]) by {
        if k2.contains(k) {
            let j = choose|j: int| 0 <= j < k2.len() && k2[j] == k;
            let j0 = if j < i { j } else { j + 1 };
            assert(keys[j0] == k);
            assert(j0 != i);
            lemma_slot(keys, j0);
            lemma_slot(keys, i);
        }
        if keys.contains(k) && k != keys[i] {
            let j = choose|j: int| 0 <= j < keys.len() && keys[j] == k;
            assert(j != i);
            let j2 = if j < i { j } else { j - 1 };
            assert(k2[j2] == k);
        }
    }
    assert forall|k: K| #[trigger] k2.contains(k) implies vals.remove(i)[k2.index_of(k)] == vals[keys.index_of(k)] by {
        lemma_slot_of_present(k2, k);
        let j = k2.index_of(k);
        let j0 = if j < i { j } else { j + 1 };
        assert(keys[j0] == k);
        lemma_slot(keys, j0);
    }
    assert(keyed_map(k2, vals.remove(i)) =~= keyed_map(keys, vals).remove(keys[i]));
}

/// A table of distinct keys has as many entries as keys.
pub proof fn lemma_keyed_len<K, V>(keys: Seq<K>, vals: Seq<V>)
    requires
        keys.no_duplicates(),
    ensures
        keyed_map(keys, vals).dom() == keys.to_set(),
        keyed_map(keys, vals).len() == keys.len(),
{
    keys.unique_seq_to_set();
    assert(keyed_map(keys, vals).dom() =~= keys.to_set());
}

} // verus!
