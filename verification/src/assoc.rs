//! Association lists: a sequence of key-value pairs with distinct keys, read
//! as a map from keys to the values' views.
use vstd::prelude::*;

verus! {

/// Whether some pair has key `k`.
pub open spec fn assoc_has<K, V>(e: Seq<(K, V)>, k: K) -> bool {
    exists|i: int| 0 <= i < e.len() && #[trigger] e[i].0 == k
}

/// The position of a pair with key `k`.
pub open spec fn assoc_index<K, V>(e: Seq<(K, V)>, k: K) -> int {
    choose|i: int| 0 <= i < e.len() && #[trigger] e[i].0 == k
}

/// No two pairs have the same key.
pub open spec fn assoc_distinct<K, V>(e: Seq<(K, V)>) -> bool {
    forall|i: int, j: int|
        0 <= i < e.len() && 0 <= j < e.len() && i != j ==> #[trigger] e[i].0 != #[trigger] e[j].0
}

/// The map from each key to the view of its value.
pub open spec fn assoc_map<K, V: View>(e: Seq<(K, V)>) -> Map<K, V::V> {
    Map::new(|k: K| assoc_has(e, k), |k: K| e[assoc_index(e, k)].1@)
}

/// The pair at position `i` is the one that the map reads for its key.
pub proof fn lemma_assoc_index<K, V: View>(e: Seq<(K, V)>, i: int)
    requires
        assoc_distinct(e),
        0 <= i < e.len(),
    ensures
        assoc_has(e, e[i].0),
        assoc_index(e, e[i].0) == i,
        assoc_map(e).contains_key(e[i].0),
        assoc_map(e)[e[i].0] == e[i].1@,
{
    assert(assoc_has(e, e[i].0));
}

/// Replacing the value of the pair at position `i` updates the map there.
pub proof fn lemma_assoc_update<K, V: View>(e: Seq<(K, V)>, i: int, v: V)
    requires
        assoc_distinct(e),
        0 <= i < e.len(),
    ensures
        assoc_distinct(e.update(i, (e[i].0, v))),
        assoc_map(e.update(i, (e[i].0, v))) == assoc_map(e).insert(e[i].0, v@),
{
    let k = e[i].0;
    let ne = e.update(i, (k, v));
    assert forall|a: int, b: int|
        0 <= a < ne.len() && 0 <= b < ne.len() && a != b implies #[trigger] ne[a].0
        != #[trigger] ne[b].0 by {
        assert(ne[a].0 == e[a].0);
        assert(ne[b].0 == e[b].0);
    }
    assert forall|x: K| #[trigger]
        assoc_map(ne).contains_key(x) == assoc_map(e).insert(k, v@).contains_key(x) by {
        if assoc_has(ne, x) {
            let j = assoc_index(ne, x);
            assert(ne[j].0 == e[j].0);
        }
        if assoc_has(e, x) {
            let j = assoc_index(e, x);
            assert(ne[j].0 == e[j].0);
        }
        if x == k {
            assert(ne[i].0 == x);
        }
    }
    assert forall|x: K| #[trigger] assoc_map(ne).contains_key(x) implies assoc_map(ne)[x]
        == assoc_map(e).insert(k, v@)[x] by {
        let j = assoc_index(ne, x);
        lemma_assoc_index(ne, j);
        if x == k {
            lemma_assoc_index(ne, i);
        } else {
            assert(j != i);
            assert(e[j] == ne[j]);
            lemma_assoc_index(e, j);
        }
    }
    assert(assoc_map(ne) =~= assoc_map(e).insert(k, v@));
}

/// Appending a pair with a new key inserts it into the map.
pub proof fn lemma_assoc_push<K, V: View>(e: Seq<(K, V)>, k: K, v: V)
    requires
        assoc_distinct(e),
        !assoc_has(e, k),
    ensures
        assoc_distinct(e.push((k, v))),
        assoc_map(e.push((k, v))) == assoc_map(e).insert(k, v@),
{
    let ne = e.push((k, v));
    let n = e.len() as int;
    assert forall|a: int, b: int|
        0 <= a < ne.len() && 0 <= b < ne.len() && a != b implies #[trigger] ne[a].0
        != #[trigger] ne[b].0 by {
        if a != n && b != n {
            assert(ne[a] == e[a]);
            assert(ne[b] == e[b]);
        } else if a == n {
            assert(ne[b] == e[b]);
            assert(e[b].0 != k);
        } else {
            assert(ne[a] == e[a]);
            assert(e[a].0 != k);
        }
    }
    assert forall|x: K| #[trigger]
        assoc_map(ne).contains_key(x) == assoc_map(e).insert(k, v@).contains_key(x) by {
        if assoc_has(ne, x) {
            let j = assoc_index(ne, x);
            if j != n {
                assert(e[j] == ne[j]);
            }
        }
        if assoc_has(e, x) {
            let j = assoc_index(e, x);
            assert(e[j] == ne[j]);
        }
        if x == k {
            assert(ne[n].0 == x);
        }
    }
    assert forall|x: K| #[trigger] assoc_map(ne).contains_key(x) implies assoc_map(ne)[x]
        == assoc_map(e).insert(k, v@)[x] by {
        let j = assoc_index(ne, x);
        lemma_assoc_index(ne, j);
        if x == k {
            lemma_assoc_index(ne, n);
        } else {
            assert(j != n);
            assert(e[j] == ne[j]);
            lemma_assoc_index(e, j);
        }
    }
    assert(assoc_map(ne) =~= assoc_map(e).insert(k, v@));
}

/// Removing the pair at position `i` removes its key from the map.
pub proof fn lemma_assoc_remove<K, V: View>(e: Seq<(K, V)>, i: int)
    requires
        assoc_distinct(e),
        0 <= i < e.len(),
    ensures
        assoc_distinct(e.remove(i)),
        assoc_map(e.remove(i)) == assoc_map(e).remove(e[i].0),
{
    let k = e[i].0;
    let ne = e.remove(i);
    assert forall|a: int, b: int|
        0 <= a < ne.len() && 0 <= b < ne.len() && a != b implies #[trigger] ne[a].0
        != #[trigger] ne[b].0 by {
        let a2 = if a < i {
            a
        } else {
            a + 1
        };
        let b2 = if b < i {
            b
        } else {
            b + 1
        };
        assert(ne[a] == e[a2]);
        assert(ne[b] == e[b2]);
    }
    assert forall|x: K| #[trigger]
        assoc_map(ne).contains_key(x) == assoc_map(e).remove(k).contains_key(x) by {
        if assoc_has(ne, x) {
            let j = assoc_index(ne, x);
            let j2 = if j < i {
                j
            } else {
                j + 1
            };
            assert(ne[j] == e[j2]);
            assert(j2 != i);
        }
        if assoc_has(e, x) && x != k {
            let j = assoc_index(e, x);
            assert(j != i);
            let j1 = if j < i {
                j
            } else {
                j - 1
            };
            assert(ne[j1] == e[j]);
        }
    }
    assert forall|x: K| #[trigger] assoc_map(ne).contains_key(x) implies assoc_map(ne)[x]
        == assoc_map(e).remove(k)[x] by {
        let j = assoc_index(ne, x);
        lemma_assoc_index(ne, j);
        let j2 = if j < i {
            j
        } else {
            j + 1
        };
        assert(ne[j] == e[j2]);
        lemma_assoc_index(e, j2);
    }
    assert(assoc_map(ne) =~= assoc_map(e).remove(k));
}

} // verus!
