//! Maps keyed by strings, held as lists of pairs with distinct keys.
use vstd::prelude::*;

use crate::text::str_equal;

verus! {

/// Whether some pair has key `k`.
pub open spec fn skeys_have<V>(e: Seq<(String, V)>, k: Seq<char>) -> bool {
    exists|i: int| 0 <= i < e.len() && #[trigger] e[i].0@ == k
}

/// The position of a pair with key `k`.
pub open spec fn skeys_index<V>(e: Seq<(String, V)>, k: Seq<char>) -> int {
    choose|i: int| 0 <= i < e.len() && #[trigger] e[i].0@ == k
}

/// No two pairs have the same key.
pub open spec fn skeys_distinct<V>(e: Seq<(String, V)>) -> bool {
    forall|i: int, j: int|
        0 <= i < e.len() && 0 <= j < e.len() && i != j ==> #[trigger] e[i].0@ != #[trigger] e[j].0@
}

/// The map that the pairs hold.
pub open spec fn skeys_map<V>(e: Seq<(String, V)>) -> Map<Seq<char>, V> {
    Map::new(|k: Seq<char>| skeys_have(e, k), |k: Seq<char>| e[skeys_index(e, k)].1)
}

/// In distinct pairs, the pair at position `i` is the one that the map reads
/// for its key.
pub proof fn lemma_skeys_index<V>(e: Seq<(String, V)>, i: int)
    requires
        skeys_distinct(e),
        0 <= i < e.len(),
    ensures
        skeys_have(e, e[i].0@),
        skeys_index(e, e[i].0@) == i,
        skeys_map(e).contains_key(e[i].0@),
        skeys_map(e)[e[i].0@] == e[i].1,
{
    assert(skeys_have(e, e[i].0@));
}

proof fn lemma_skeys_update<V>(e: Seq<(String, V)>, i: int, p: (String, V))
    requires
        skeys_distinct(e),
        0 <= i < e.len(),
        p.0@ == e[i].0@,
    ensures
        skeys_distinct(e.update(i, p)),
        skeys_map(e.update(i, p)) == skeys_map(e).insert(p.0@, p.1),
{
    let k = p.0@;
    let ne = e.update(i, p);
    assert forall|a: int, b: int|
        0 <= a < ne.len() && 0 <= b < ne.len() && a != b implies #[trigger] ne[a].0@
        != #[trigger] ne[b].0@ by {
        assert(ne[a].0@ == e[a].0@);
        assert(ne[b].0@ == e[b].0@);
    }
    assert forall|x: Seq<char>| #[trigger]
        skeys_map(ne).contains_key(x) == skeys_map(e).insert(k, p.1).contains_key(x) by {
        if skeys_have(ne, x) {
            let j = skeys_index(ne, x);
            assert(ne[j].0@ == e[j].0@);
        }
        if skeys_have(e, x) {
            let j = skeys_index(e, x);
            assert(ne[j].0@ == e[j].0@);
        }
        if x == k {
            assert(ne[i].0@ == x);
        }
    }
    assert forall|x: Seq<char>| #[trigger] skeys_map(ne).contains_key(x) implies skeys_map(ne)[x]
        == skeys_map(e).insert(k, p.1)[x] by {
        let j = skeys_index(ne, x);
        lemma_skeys_index(ne, j);
        if x == k {
            lemma_skeys_index(ne, i);
        } else {
            assert(j != i);
            assert(e[j] == ne[j]);
            lemma_skeys_index(e, j);
        }
    }
    assert(skeys_map(ne) =~= skeys_map(e).insert(k, p.1));
}

proof fn lemma_skeys_push<V>(e: Seq<(String, V)>, p: (String, V))
    requires
        skeys_distinct(e),
        !skeys_have(e, p.0@),
    ensures
        skeys_distinct(e.push(p)),
        skeys_map(e.push(p)) == skeys_map(e).insert(p.0@, p.1),
{
    let k = p.0@;
    let ne = e.push(p);
    let n = e.len() as int;
    assert forall|a: int, b: int|
        0 <= a < ne.len() && 0 <= b < ne.len() && a != b implies #[trigger] ne[a].0@
        != #[trigger] ne[b].0@ by {
        if a != n && b != n {
            assert(ne[a] == e[a]);
            assert(ne[b] == e[b]);
        } else if a == n {
            assert(ne[b] == e[b]);
            assert(e[b].0@ != k);
        } else {
            assert(ne[a] == e[a]);
            assert(e[a].0@ != k);
        }
    }
    assert forall|x: Seq<char>| #[trigger]
        skeys_map(ne).contains_key(x) == skeys_map(e).insert(k, p.1).contains_key(x) by {
        if skeys_have(ne, x) {
            let j = skeys_index(ne, x);
            if j != n {
                assert(e[j] == ne[j]);
            }
        }
        if skeys_have(e, x) {
            let j = skeys_index(e, x);
            assert(e[j] == ne[j]);
        }
        if x == k {
            assert(ne[n].0@ == x);
        }
    }
    assert forall|x: Seq<char>| #[trigger] skeys_map(ne).contains_key(x) implies skeys_map(ne)[x]
        == skeys_map(e).insert(k, p.1)[x] by {
        let j = skeys_index(ne, x);
        lemma_skeys_index(ne, j);
        if x == k {
            lemma_skeys_index(ne, n);
        } else {
            assert(j != n);
            assert(e[j] == ne[j]);
            lemma_skeys_index(e, j);
        }
    }
    assert(skeys_map(ne) =~= skeys_map(e).insert(k, p.1));
}

proof fn lemma_skeys_remove<V>(e: Seq<(String, V)>, i: int)
    requires
        skeys_distinct(e),
        0 <= i < e.len(),
    ensures
        skeys_distinct(e.remove(i)),
        skeys_map(e.remove(i)) == skeys_map(e).remove(e[i].0@),
{
    let k = e[i].0@;
    let ne = e.remove(i);
    assert forall|a: int, b: int|
        0 <= a < ne.len() && 0 <= b < ne.len() && a != b implies #[trigger] ne[a].0@
        != #[trigger] ne[b].0@ by {
        let a2 = if a < i {
            a
        } else {
            a + 1
        };
        let b2 = if b < i {
            b
        } else {
            b + 1
        };
        assert(ne[a] == e[a2]);
        assert(ne[b] == e[b2]);
    }
    assert forall|x: Seq<char>| #[trigger]
        skeys_map(ne).contains_key(x) == skeys_map(e).remove(k).contains_key(x) by {
        if skeys_have(ne, x) {
            let j = skeys_index(ne, x);
            let j2 = if j < i {
                j
            } else {
                j + 1
            };
            assert(ne[j] == e[j2]);
            assert(j2 != i);
        }
        if skeys_have(e, x) && x != k {
            let j = skeys_index(e, x);
            assert(j != i);
            let j1 = if j < i {
                j
            } else {
                j - 1
            };
            assert(ne[j1] == e[j]);
        }
    }
    assert forall|x: Seq<char>| #[trigger] skeys_map(ne).contains_key(x) implies skeys_map(ne)[x]
        == skeys_map(e).remove(k)[x] by {
        let j = skeys_index(ne, x);
        lemma_skeys_index(ne, j);
        let j2 = if j < i {
            j
        } else {
            j + 1
        };
        assert(ne[j] == e[j2]);
        lemma_skeys_index(e, j2);
    }
    assert(skeys_map(ne) =~= skeys_map(e).remove(k));
}

/// A map from strings to values.
#[derive(Debug)]
pub struct StrMap<V> {
    entries: Vec<(String, V)>,
}

impl<V> View for StrMap<V> {
    type V = Map<Seq<char>, V>;

    closed spec fn view(&self) -> Map<Seq<char>, V> {
        skeys_map(self.entries@)
    }
}

impl<V> StrMap<V> {
    #[verifier::type_invariant]
    spec fn distinct(self) -> bool {
        skeys_distinct(self.entries@)
    }

    /// The pairs, in the order in which their keys were first inserted.
    pub closed spec fn pairs(self) -> Seq<(String, V)> {
        self.entries@
    }

    /// The pairs hold the map.
    pub proof fn lemma_pairs(self)
        ensures
            self@ == skeys_map(self.pairs()),
    {
    }

    /// Returns an empty map.
    pub fn new() -> (r: Self)
        ensures
            r@ == Map::<Seq<char>, V>::empty(),
    {
        let r = StrMap { entries: Vec::new() };
        assert(r@ =~= Map::<Seq<char>, V>::empty());
        r
    }

    fn find(&self, key: &str) -> (r: Option<usize>)
        ensures
            match r {
                Some(i) => i < self.entries@.len() && self.entries@[i as int].0@ == key@,
                None => !skeys_have(self.entries@, key@),
            },
    {
        let mut i: usize = 0;
        while i < self.entries.len()
            invariant
                i <= self.entries@.len(),
                forall|j: int| 0 <= j < i ==> self.entries@[j].0@ != key@,
            decreases self.entries@.len() - i,
        {
            if str_equal(self.entries[i].0.as_str(), key) {
                return Some(i);
            }
            i = i + 1;
        }
        None
    }

    /// Returns the number of keys.
    pub fn len(&self) -> (r: usize)
        ensures
            r == self@.dom().len(),
    {
        proof {
            use_type_invariant(self);
            lemma_skeys_len(self.entries@);
        }
        self.entries.len()
    }

    /// Returns whether the key is in the map.
    pub fn contains_key(&self, key: &str) -> (r: bool)
        ensures
            r == self@.contains_key(key@),
    {
        self.find(key).is_some()
    }

    /// Returns the value of a key.
    pub fn get(&self, key: &str) -> (r: Option<&V>)
        ensures
            match r {
                Some(v) => self@.contains_key(key@) && self@[key@] == *v,
                None => !self@.contains_key(key@),
            },
    {
        proof {
            use_type_invariant(self);
        }
        match self.find(key) {
            Some(i) => {
                proof {
                    lemma_skeys_index(self.entries@, i as int);
                }
                Some(&self.entries[i].1)
            },
            None => None,
        }
    }

    /// Sets the value of a key, replacing any value it had.
    pub fn insert(&mut self, key: String, value: V)
        ensures
            final(self)@ == old(self)@.insert(key@, value),
            skeys_have(old(self).pairs(), key@) ==> final(self).pairs() == old(self).pairs().update(
                skeys_index(old(self).pairs(), key@),
                (key, value),
            ),
            !skeys_have(old(self).pairs(), key@) ==> final(self).pairs() == old(self).pairs().push(
                (key, value),
            ),
    {
        proof {
            use_type_invariant(&*self);
        }
        let ghost old_e = self.entries@;
        let idx = self.find(key.as_str());
        let mut e = Vec::new();
        std::mem::swap(&mut e, &mut self.entries);
        match idx {
            Some(i) => {
                e.set(i, (key, value));
                proof {
                    lemma_skeys_index(old_e, i as int);
                    lemma_skeys_update(old_e, i as int, e@[i as int]);
                    assert(e@ == old_e.update(i as int, e@[i as int]));
                }
            },
            None => {
                e.push((key, value));
                proof {
                    lemma_skeys_push(old_e, e@[old_e.len() as int]);
                    assert(e@ == old_e.push(e@[old_e.len() as int]));
                }
            },
        }
        self.entries = e;
    }

    /// Removes a key, returning its value if it had one.
    pub fn remove(&mut self, key: &str) -> (r: Option<V>)
        ensures
            final(self)@ == old(self)@.remove(key@),
            match r {
                Some(v) => old(self)@.contains_key(key@) && old(self)@[key@] == v,
                None => !old(self)@.contains_key(key@),
            },
    {
        proof {
            use_type_invariant(&*self);
        }
        let ghost old_e = self.entries@;
        match self.find(key) {
            Some(i) => {
                let mut e = Vec::new();
                std::mem::swap(&mut e, &mut self.entries);
                let (_, v) = e.remove(i);
                proof {
                    lemma_skeys_remove(old_e, i as int);
                    lemma_skeys_index(old_e, i as int);
                }
                self.entries = e;
                Some(v)
            },
            None => {
                assert(skeys_map(old_e) =~= skeys_map(old_e).remove(key@));
                None
            },
        }
    }

    /// Replaces the value of a key that is in the map, returning the value
    /// it had; a key not in the map leaves it as it is and gives `None`.
    pub fn replace(&mut self, key: &str, value: V) -> (r: Option<V>)
        ensures
            skeys_distinct(old(self).pairs()),
            skeys_distinct(final(self).pairs()),
            match r {
                Some(v) => {
                    &&& old(self)@.contains_key(key@)
                    &&& old(self)@[key@] == v
                    &&& final(self)@ == old(self)@.insert(key@, value)
                    &&& final(self).pairs() == old(self).pairs().update(
                        skeys_index(old(self).pairs(), key@),
                        (old(self).pairs()[skeys_index(old(self).pairs(), key@)].0, value),
                    )
                    &&& 0 <= skeys_index(old(self).pairs(), key@) < old(self).pairs().len()
                    &&& old(self).pairs()[skeys_index(old(self).pairs(), key@)].1 == v
                },
                None => !old(self)@.contains_key(key@) && *final(self) == *old(self),
            },
    {
        proof {
            use_type_invariant(&*self);
        }
        let ghost old_e = self.entries@;
        match self.find(key) {
            Some(i) => {
                let mut e = Vec::new();
                std::mem::swap(&mut e, &mut self.entries);
                let (k, v) = e.remove(i);
                e.insert(i, (k, value));
                proof {
                    lemma_skeys_index(old_e, i as int);
                    assert(e@ =~= old_e.update(i as int, (old_e[i as int].0, value)));
                    lemma_skeys_update(old_e, i as int, (old_e[i as int].0, value));
                }
                self.entries = e;
                Some(v)
            },
            None => None,
        }
    }

    /// Returns the pairs of the map.
    pub fn pairs_slice(&self) -> (r: &[(String, V)])
        ensures
            r@ == self.pairs(),
            skeys_distinct(r@),
    {
        proof {
            use_type_invariant(self);
        }
        self.entries.as_slice()
    }
}

proof fn lemma_skeys_len<V>(e: Seq<(String, V)>)
    requires
        skeys_distinct(e),
    ensures
        skeys_map(e).dom().len() == e.len(),
        skeys_map(e).dom().finite(),
    decreases e.len(),
{
    if e.len() == 0 {
        assert(skeys_map(e).dom() =~= Set::<Seq<char>>::empty());
    } else {
        let d = e.drop_last();
        assert(skeys_distinct(d)) by {
            assert forall|a: int, b: int|
                0 <= a < d.len() && 0 <= b < d.len() && a != b implies #[trigger] d[a].0@
                != #[trigger] d[b].0@ by {
                assert(d[a] == e[a] && d[b] == e[b]);
            }
        }
        lemma_skeys_len(d);
        assert(!skeys_have(d, e.last().0@)) by {
            if skeys_have(d, e.last().0@) {
                let j = skeys_index(d, e.last().0@);
                assert(d[j] == e[j]);
            }
        }
        lemma_skeys_push(d, e.last());
        assert(d.push(e.last()) =~= e);
    }
}

} // verus!
