//! Custom orderings of the elements of a puzzle, such as the alphabetical
//! order of twists.
use vstd::prelude::*;

use crate::naming::{canonical, opt_str_view, NamingScheme};
use crate::text::{lemma_lex_irreflexive, lemma_lex_total, lemma_lex_transitive, lex_less, str_less};

verus! {

/// The sort key of an element: its canonical name, if it has one.
pub open spec fn name_key(names: NamingScheme, id: u32) -> Option<Seq<char>> {
    if names.names_map().contains_key(id) {
        canonical(names.names_map()[id])
    } else {
        None
    }
}

/// Order of elements by sort key, then by position: elements without a key
/// come first, keys compare by `lex_less`, and equal keys keep the order
/// of their positions.
pub open spec fn key_less(ka: Option<Seq<char>>, pa: int, kb: Option<Seq<char>>, pb: int) -> bool {
    match (ka, kb) {
        (None, None) => pa < pb,
        (None, Some(_)) => true,
        (Some(_), None) => false,
        (Some(x), Some(y)) => lex_less(x, y) || (x == y && pa < pb),
    }
}

/// Entries with a name come after those without; two named entries are
/// ordered by name, and by position only when their names are equal.
pub proof fn law_key_order(x: Seq<char>, y: Seq<char>, pa: int, pb: int)
    ensures
        key_less(None, pa, Some(y), pb),
        !key_less(Some(x), pa, None, pb),
        x != y ==> (key_less(Some(x), pa, Some(y), pb) <==> lex_less(x, y)),
        key_less(Some(x), pa, Some(x), pb) <==> pa < pb,
{
    lemma_lex_irreflexive(x);
}

/// `key_less` is transitive.
pub proof fn lemma_key_less_transitive(
    ka: Option<Seq<char>>,
    pa: int,
    kb: Option<Seq<char>>,
    pb: int,
    kc: Option<Seq<char>>,
    pc: int,
)
    requires
        key_less(ka, pa, kb, pb),
        key_less(kb, pb, kc, pc),
    ensures
        key_less(ka, pa, kc, pc),
{
    match (ka, kb, kc) {
        (Some(x), Some(y), Some(z)) => {
            if lex_less(x, y) && lex_less(y, z) {
                lemma_lex_transitive(x, y, z);
            }
        },
        _ => {},
    }
}

/// Of two entries at different positions, one comes before the other.
pub proof fn lemma_key_less_total(ka: Option<Seq<char>>, pa: int, kb: Option<Seq<char>>, pb: int)
    requires
        pa != pb,
    ensures
        key_less(ka, pa, kb, pb) || key_less(kb, pb, ka, pa),
{
    match (ka, kb) {
        (Some(x), Some(y)) => {
            if x != y {
                lemma_lex_total(x, y);
            }
        },
        _ => {},
    }
}

/// `key_less` never holds of an entry and itself.
pub proof fn lemma_key_less_irreflexive(ka: Option<Seq<char>>, pa: int)
    ensures
        !key_less(ka, pa, ka, pa),
{
    match ka {
        Some(x) => lemma_lex_irreflexive(x),
        None => {},
    }
}

/// Compares two entries by `key_less`.
fn key_less_exec(ka: &Option<String>, pa: usize, kb: &Option<String>, pb: usize) -> (r: bool)
    ensures
        r == key_less(opt_str_view(*ka), pa as int, opt_str_view(*kb), pb as int),
{
    match (ka, kb) {
        (None, None) => pa < pb,
        (None, Some(_)) => true,
        (Some(_), None) => false,
        (Some(x), Some(y)) => {
            if str_less(x.as_str(), y.as_str()) {
                true
            } else if str_less(y.as_str(), x.as_str()) {
                false
            } else {
                proof {
                    if x@ != y@ {
                        lemma_lex_total(x@, y@);
                    }
                }
                pa < pb
            }
        },
    }
}

/// `new` is `old` reordered by `pos` (a permutation of its positions) so
/// that the elements come in increasing `key_less` order of their keys and
/// old positions.
pub open spec fn sorts(
    old_order: Seq<u32>,
    new_order: Seq<u32>,
    pos: Seq<int>,
    names: NamingScheme,
) -> bool {
    &&& new_order.len() == old_order.len()
    &&& pos.len() == old_order.len()
    &&& forall|j: int|
        0 <= j < pos.len() ==> 0 <= #[trigger] pos[j] < old_order.len() && new_order[j]
            == old_order[pos[j]]
    &&& forall|a: int, b: int| 0 <= a < b < pos.len() ==> #[trigger] pos[a] != #[trigger] pos[b]
    &&& forall|a: int, b: int|
        0 <= a < b < pos.len() ==> key_less(
            name_key(names, #[trigger] new_order[a]),
            pos[a],
            name_key(names, #[trigger] new_order[b]),
            pos[b],
        )
}

/// `new_order` is `old_order` sorted by name (see `sorts`).
pub open spec fn sorted_by_name(old_order: Seq<u32>, new_order: Seq<u32>, names: NamingScheme) -> bool {
    exists|pos: Seq<int>| #[trigger] sorts(old_order, new_order, pos, names)
}

/// The positions of the keys, sorted by `key_less` of key and position:
/// unnamed first, then by name, equal keys in order of position.
pub fn sort_positions(keys: &Vec<Option<String>>) -> (ps: Vec<usize>)
    ensures
        ps@.len() == keys@.len(),
        forall|j: int| 0 <= j < ps@.len() ==> (#[trigger] ps@[j]) < keys@.len(),
        forall|a: int, b: int| 0 <= a < b < ps@.len() ==> #[trigger] ps@[a] != #[trigger] ps@[b],
        forall|a: int, b: int|
            0 <= a < b < ps@.len() ==> key_less(
                opt_str_view(keys@[#[trigger] ps@[a] as int]),
                ps@[a] as int,
                opt_str_view(keys@[#[trigger] ps@[b] as int]),
                ps@[b] as int,
            ),
{
    let n = keys.len();
        let ghost kv = Seq::new(n as nat, |j: int| opt_str_view(keys@[j]));
        let mut ps: Vec<usize> = Vec::new();
        let mut i: usize = 0;
        while i < n
            invariant
                n == keys@.len(),
                i <= n,
                kv == Seq::new(n as nat, |j: int| opt_str_view(keys@[j])),
                ps@.len() == i,
                forall|j: int| 0 <= j < i ==> (#[trigger] ps@[j]) < i,
                forall|a: int, b: int| 0 <= a < b < i ==> #[trigger] ps@[a] != #[trigger] ps@[b],
                forall|a: int, b: int|
                    0 <= a < b < i ==> key_less(
                        kv[#[trigger] ps@[a] as int],
                        ps@[a] as int,
                        kv[#[trigger] ps@[b] as int],
                        ps@[b] as int,
                    ),
            decreases n - i,
        {
            let mut p: usize = 0;
            while p < ps.len() && !key_less_exec(&keys[i], i, &keys[ps[p]], ps[p])
                invariant
                    n == keys@.len(),
                    i < n,
                    p <= ps@.len(),
                    ps@.len() == i,
                    forall|j: int| 0 <= j < i ==> (#[trigger] ps@[j]) < i,
                    kv == Seq::new(n as nat, |j: int| opt_str_view(keys@[j])),
                    forall|q: int|
                        0 <= q < p ==> !key_less(
                            kv[i as int],
                            i as int,
                            kv[#[trigger] ps@[q] as int],
                            ps@[q] as int,
                        ),
                decreases ps@.len() - p,
            {
                p = p + 1;
            }
            let ghost old_ps = ps@;
            ps.insert(p, i);
            proof {
                let np = ps@;
                assert(np == old_ps.insert(p as int, i));
                assert forall|j: int| 0 <= j < i + 1 implies (#[trigger] np[j]) < i + 1 by {
                    if j < p {
                        assert(np[j] == old_ps[j]);
                    } else if j > p {
                        assert(np[j] == old_ps[j - 1]);
                    }
                }
                assert forall|a: int, b: int| 0 <= a < b < i + 1 implies #[trigger] np[a]
                    != #[trigger] np[b] by {
                    if a != p && b != p {
                        let a1 = if a < p {
                            a
                        } else {
                            a - 1
                        };
                        let b1 = if b < p {
                            b
                        } else {
                            b - 1
                        };
                        assert(np[a] == old_ps[a1]);
                        assert(np[b] == old_ps[b1]);
                    } else if a == p {
                        assert(np[b] == old_ps[b - 1]);
                    } else {
                        assert(np[a] == old_ps[a]);
                    }
                }
                assert forall|a: int, b: int| 0 <= a < b < i + 1 implies key_less(
                    kv[#[trigger] np[a] as int],
                    np[a] as int,
                    kv[#[trigger] np[b] as int],
                    np[b] as int,
                ) by {
                    if a != p && b != p {
                        let a1 = if a < p {
                            a
                        } else {
                            a - 1
                        };
                        let b1 = if b < p {
                            b
                        } else {
                            b - 1
                        };
                        assert(np[a] == old_ps[a1]);
                        assert(np[b] == old_ps[b1]);
                    } else if a == p {
                        let b1 = b - 1;
                        assert(np[b] == old_ps[b1]);
                        assert(p < old_ps.len());
                        assert(key_less(
                            kv[i as int],
                            i as int,
                            kv[old_ps[p as int] as int],
                            old_ps[p as int] as int,
                        ));
                        if b1 > p {
                            lemma_key_less_transitive(
                                kv[i as int],
                                i as int,
                                kv[old_ps[p as int] as int],
                                old_ps[p as int] as int,
                                kv[old_ps[b1] as int],
                                old_ps[b1] as int,
                            );
                        }
                    } else {
                        assert(np[a] == old_ps[a]);
                        assert(a < p);
                        assert(!key_less(
                            kv[i as int],
                            i as int,
                            kv[old_ps[a] as int],
                            old_ps[a] as int,
                        ));
                        assert(old_ps[a] < i);
                        lemma_key_less_total(
                            kv[i as int],
                            i as int,
                            kv[old_ps[a] as int],
                            old_ps[a] as int,
                        );
                    }
                }
            }
            i = i + 1;
        }
    proof {
        assert forall|a: int, b: int| 0 <= a < b < ps@.len() implies key_less(
            opt_str_view(keys@[#[trigger] ps@[a] as int]),
            ps@[a] as int,
            opt_str_view(keys@[#[trigger] ps@[b] as int]),
            ps@[b] as int,
        ) by {
            assert(kv[ps@[a] as int] == opt_str_view(keys@[ps@[a] as int]));
            assert(kv[ps@[b] as int] == opt_str_view(keys@[ps@[b] as int]));
        }
    }
    ps
}

/// An order on the elements `0..len` of some kind.
#[derive(Debug)]
pub struct CustomOrdering {
    order: Vec<u32>,
}

impl CustomOrdering {
    #[verifier::type_invariant]
    spec fn is_permutation(self) -> bool {
        &&& forall|i: int|
            0 <= i < self.order@.len() ==> (#[trigger] self.order@[i]) < self.order@.len()
        &&& forall|i: int, j: int|
            0 <= i < j < self.order@.len() ==> #[trigger] self.order@[i]
                != #[trigger] self.order@[j]
    }

    /// The elements in order.
    pub closed spec fn order_spec(self) -> Seq<u32> {
        self.order@
    }

    /// Returns the default ordering of `len` elements, by ID.
    pub fn with_len(len: usize) -> (r: Self)
        requires
            len <= u32::MAX as int + 1,
        ensures
            r.order_spec().len() == len,
            forall|i: int| 0 <= i < len ==> r.order_spec()[i] == i,
    {
        let mut order: Vec<u32> = Vec::new();
        let mut i: usize = 0;
        while i < len
            invariant
                i <= len,
                len <= u32::MAX as int + 1,
                order@.len() == i,
                forall|j: int| 0 <= j < i ==> order@[j] == j,
            decreases len - i,
        {
            order.push(i as u32);
            i = i + 1;
        }
        CustomOrdering { order }
    }

    /// Returns the elements in order.
    pub fn ids_in_order(&self) -> (r: &[u32])
        ensures
            r@ == self.order_spec(),
    {
        self.order.as_slice()
    }

    /// Sorts the elements by canonical name, unnamed ones first; elements
    /// with equal names keep their relative order.
    pub fn sort_by_name(&mut self, names: &NamingScheme)
        ensures
            sorted_by_name(old(self).order_spec(), final(self).order_spec(), *names),
    {
        proof {
            use_type_invariant(&*self);
        }
        let n = self.order.len();
        let ghost old_order = self.order@;
        let mut keys: Vec<Option<String>> = Vec::new();
        let mut i: usize = 0;
        while i < n
            invariant
                n == self.order@.len(),
                old_order == self.order@,
                i <= n,
                keys@.len() == i,
                forall|j: int|
                    0 <= j < i ==> opt_str_view(#[trigger] keys@[j]) == name_key(
                        *names,
                        old_order[j],
                    ),
            decreases n - i,
        {
            keys.push(names.get(self.order[i]));
            i = i + 1;
        }
        let ps = sort_positions(&keys);
        let ghost kv = Seq::new(n as nat, |j: int| opt_str_view(keys@[j]));
        let mut new_order: Vec<u32> = Vec::new();
        let mut k: usize = 0;
        while k < n
            invariant
                n == ps@.len(),
                n == old_order.len(),
                old_order == self.order@,
                k <= n,
                forall|j: int| 0 <= j < n ==> (#[trigger] ps@[j]) < n,
                new_order@.len() == k,
                forall|j: int| 0 <= j < k ==> #[trigger] new_order@[j] == old_order[ps@[j] as int],
            decreases n - k,
        {
            new_order.push(self.order[ps[k]]);
            k = k + 1;
        }
        let ghost pos = Seq::new(n as nat, |j: int| ps@[j] as int);
        proof {
            assert forall|a: int, b: int| 0 <= a < b < n implies key_less(
                name_key(*names, #[trigger] new_order@[a]),
                pos[a],
                name_key(*names, #[trigger] new_order@[b]),
                pos[b],
            ) by {
                assert(key_less(
                    kv[ps@[a] as int],
                    ps@[a] as int,
                    kv[ps@[b] as int],
                    ps@[b] as int,
                ));
                assert(kv[ps@[a] as int] == opt_str_view(keys@[ps@[a] as int]));
                assert(kv[ps@[b] as int] == opt_str_view(keys@[ps@[b] as int]));
            }
            assert(forall|a: int, b: int|
                0 <= a < b < pos.len() ==> #[trigger] pos[a] != #[trigger] pos[b]) by {
                assert forall|a: int, b: int| 0 <= a < b < pos.len() implies #[trigger] pos[a]
                    != #[trigger] pos[b] by {
                    assert(ps@[a] != ps@[b]);
                }
            }
            assert(new_order@.len() == old_order.len());
            assert(pos.len() == old_order.len());
            assert(forall|j: int|
                0 <= j < pos.len() ==> 0 <= #[trigger] pos[j] < old_order.len() && new_order@[j]
                    == old_order[pos[j]]);
            assert(sorts(old_order, new_order@, pos, *names));
            assert forall|j: int| 0 <= j < new_order@.len() implies (
            #[trigger] new_order@[j]) < new_order@.len() by {
                assert(new_order@[j] == old_order[ps@[j] as int]);
            }
            assert forall|a: int, b: int| 0 <= a < b < new_order@.len() implies #[trigger] new_order@[a]
                != #[trigger] new_order@[b] by {
                assert(new_order@[a] == old_order[ps@[a] as int]);
                assert(new_order@[b] == old_order[ps@[b] as int]);
                if ps@[a] < ps@[b] {
                    assert(old_order[ps@[a] as int] != old_order[ps@[b] as int]);
                } else {
                    assert(ps@[a] != ps@[b]);
                    assert(old_order[ps@[b] as int] != old_order[ps@[a] as int]);
                }
            }
        }
        self.order = new_order;
        assert(sorts(old_order, self.order_spec(), pos, *names));
        assert(sorted_by_name(old_order, self.order_spec(), *names));
    }
}

} // verus!
