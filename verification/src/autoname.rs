//! Assigning names to the elements of a puzzle in canonical order, giving
//! unused automatic names to the elements that have none.
use vstd::prelude::*;

use crate::naming::{canonical, NameSet, NamingScheme};
use crate::text::str_equal;

verus! {

/// The automatic names that no element has yet, in order.
pub open spec fn unused_names(names: NamingScheme, autonames: Seq<Seq<char>>) -> Seq<Seq<char>>
    decreases autonames.len(),
{
    if autonames.len() == 0 {
        Seq::empty()
    } else if names.taken(autonames.last()) {
        unused_names(names, autonames.drop_last())
    } else {
        unused_names(names, autonames.drop_last()).push(autonames.last())
    }
}

/// How many automatic names an element takes for its name: one if it has none.
pub open spec fn name_need(names: NamingScheme, id: u32) -> nat {
    if names.names_map().contains_key(id) {
        0
    } else {
        1
    }
}

/// How many automatic names an element takes for its display name: one if it
/// has no display name and its name set has no canonical name.
pub open spec fn display_need(names: NamingScheme, id: u32) -> nat {
    if names.display_map().contains_key(id) {
        0
    } else if names.names_map().contains_key(id) && canonical(names.names_map()[id]) is None {
        1
    } else {
        0
    }
}

/// How many automatic names the elements of `order` take, in all.
pub open spec fn names_needed(names: NamingScheme, order: Seq<u32>) -> nat
    decreases order.len(),
{
    if order.len() == 0 {
        0
    } else {
        names_needed(names, order.drop_last()) + name_need(names, order.last()) + display_need(
            names,
            order.last(),
        )
    }
}

/// The name set given to the element at position `i` of `order`.
pub open spec fn autoname_name(
    names: NamingScheme,
    order: Seq<u32>,
    pool: Seq<Seq<char>>,
    i: int,
) -> Seq<Seq<char>> {
    let id = order[i];
    if names.names_map().contains_key(id) {
        names.names_map()[id]
    } else {
        seq![pool[names_needed(names, order.take(i)) as int]]
    }
}

/// The display name given to the element at position `i` of `order`: its
/// own, else the canonical name of its name set, else the next unused
/// automatic name.
pub open spec fn autoname_display(
    names: NamingScheme,
    order: Seq<u32>,
    pool: Seq<Seq<char>>,
    i: int,
) -> Seq<char> {
    let id = order[i];
    let k = names_needed(names, order.take(i)) + name_need(names, id);
    if names.display_map().contains_key(id) {
        names.display_map()[id]
    } else {
        match canonical(autoname_name(names, order, pool, i)) {
            Some(c) => c,
            None => pool[k as int],
        }
    }
}

/// The automatic names not yet taken, in order.
fn unused_autonames(names: &NamingScheme, autonames: &[String]) -> (r: Vec<String>)
    ensures
        r@.map_values(|s: String| s@) == unused_names(
            *names,
            autonames@.map_values(|s: String| s@),
        ),
{
    let ghost all = autonames@.map_values(|s: String| s@);
    let mut r: Vec<String> = Vec::new();
    let mut k: usize = 0;
    while k < autonames.len()
        invariant
            k <= autonames@.len(),
            all == autonames@.map_values(|s: String| s@),
            r@.map_values(|s: String| s@) == unused_names(*names, all.take(k as int)),
        decreases autonames@.len() - k,
    {
        let ghost before = r@;
        assert(all.take(k + 1).drop_last() =~= all.take(k as int));
        assert(all.take(k + 1).last() == autonames@[k as int]@);
        if names.id_of(autonames[k].as_str()).is_none() {
            r.push(autonames[k].clone());
            assert(r@.map_values(|s: String| s@) =~= before.map_values(|s: String| s@).push(
                autonames@[k as int]@,
            ));
        }
        k = k + 1;
    }
    assert(all.take(autonames@.len() as int) =~= all);
    r
}

/// Assigns each element of `order`, in order, its name set and display
/// name. An element without a name gets the next automatic name that no
/// element has; one without a display name gets the canonical name of its
/// name set, or else the next such automatic name. A warning is appended to
/// `warnings` for each short or long name that is duplicated.
pub fn iter_autonamed(
    names: &NamingScheme,
    order: &[u32],
    autonames: &[String],
    warnings: &mut Vec<DuplicateName>,
) -> (r: Vec<(u32, (NameSet, String))>)
    requires
        names_needed(*names, order@) <= unused_names(
            *names,
            autonames@.map_values(|s: String| s@),
        ).len(),
    ensures
        r@.len() == order@.len(),
        forall|i: int|
            0 <= i < order@.len() ==> {
                let pool = unused_names(*names, autonames@.map_values(|s: String| s@));
                &&& (#[trigger] r@[i]).0 == order@[i]
                &&& r@[i].1.0@ == autoname_name(*names, order@, pool, i)
                &&& r@[i].1.1@ == autoname_display(*names, order@, pool, i)
            },
        warnings_view(final(warnings)@) == warnings_view(old(warnings)@) + duplicate_warnings(
            names_view(r@),
        ),
{
    let pool = unused_autonames(names, autonames);
    let ghost pv = pool@.map_values(|s: String| s@);
    let mut next: usize = 0;
    let mut r: Vec<(u32, (NameSet, String))> = Vec::new();
    let mut i: usize = 0;
    while i < order.len()
        invariant
            i <= order@.len(),
            pv == pool@.map_values(|s: String| s@),
            pool@.len() == pv.len(),
            pv == unused_names(*names, autonames@.map_values(|s: String| s@)),
            names_needed(*names, order@) <= pv.len(),
            next == names_needed(*names, order@.take(i as int)),
            r@.len() == i,
            forall|j: int|
                0 <= j < i ==> {
                    &&& (#[trigger] r@[j]).0 == order@[j]
                    &&& r@[j].1.0@ == autoname_name(*names, order@, pv, j)
                    &&& r@[j].1.1@ == autoname_display(*names, order@, pv, j)
                },
        decreases order@.len() - i,
    {
        let id = order[i];
        proof {
            assert(order@.take(i + 1).drop_last() =~= order@.take(i as int));
            lemma_needed_prefix(*names, order@, i as int + 1);
            assert(order@.take(i + 1).last() == id);
            assert(names_needed(*names, order@.take(i + 1)) == next + name_need(*names, id)
                + display_need(*names, id));
        }
        let ghost k0 = next;
        let name = match names.name_set(id) {
            Some(ns) => ns.clone(),
            None => {
                assert(next < pool.len());
                let n = pool[next].clone();
                next = next + 1;
                NameSet::from_name(n)
            },
        };
        let display = match names.display_name(id) {
            Some(d) => d.clone(),
            None => match name.canonical_name() {
                Some(c) => c,
                None => {
                    assert(next < pool.len());
                    let d = pool[next].clone();
                    next = next + 1;
                    d
                },
            },
        };
        assert(next == k0 + name_need(*names, id) + display_need(*names, id));
        r.push((id, (name, display)));
        i = i + 1;
    }
    warn_duplicates(&r, warnings);
    r
}

/// Warning about a name given to more than one element.
#[derive(Debug, Clone, PartialEq, Eq)]
pub enum DuplicateName {
    /// A short name (the preferred name of a name set) given before.
    Short(String),
    /// A long (display) name given before.
    Long(String),
}

/// A duplicate-name warning, with the name as characters.
pub enum DuplicateNameView {
    Short(Seq<char>),
    Long(Seq<char>),
}

impl View for DuplicateName {
    type V = DuplicateNameView;

    open spec fn view(&self) -> DuplicateNameView {
        match self {
            DuplicateName::Short(s) => DuplicateNameView::Short(s@),
            DuplicateName::Long(s) => DuplicateNameView::Long(s@),
        }
    }
}

/// The short name of an element: the preferred name of its name set.
pub open spec fn short_name(names: Seq<Seq<char>>) -> Option<Seq<char>> {
    if names.len() > 0 {
        Some(names[0])
    } else {
        None
    }
}

/// The short and long names of named elements.
pub open spec fn names_view(items: Seq<(u32, (NameSet, String))>) -> Seq<(Option<Seq<char>>, Seq<char>)> {
    items.map_values(|x: (u32, (NameSet, String))| (short_name(x.1.0@), x.1.1@))
}

/// The warnings for named elements, in order: for each element, one for
/// its short name if an earlier element has the same short name, then one
/// for its long name if an earlier element has the same long name.
pub open spec fn duplicate_warnings(v: Seq<(Option<Seq<char>>, Seq<char>)>) -> Seq<DuplicateNameView>
    decreases v.len(),
{
    if v.len() == 0 {
        Seq::empty()
    } else {
        let p = v.drop_last();
        let x = v.last();
        let short_dup = x.0 is Some && exists|j: int| 0 <= j < p.len() && #[trigger] p[j].0 == x.0;
        let long_dup = exists|j: int| 0 <= j < p.len() && #[trigger] p[j].1 == x.1;
        let base = duplicate_warnings(p);
        let with_short = if short_dup {
            base.push(DuplicateNameView::Short(x.0->0))
        } else {
            base
        };
        if long_dup {
            with_short.push(DuplicateNameView::Long(x.1))
        } else {
            with_short
        }
    }
}

/// The warnings views, in order.
pub open spec fn warnings_view(w: Seq<DuplicateName>) -> Seq<DuplicateNameView> {
    w.map_values(|d: DuplicateName| d@)
}

/// Appends the warnings for elements named more than once.
pub fn warn_duplicates(items: &Vec<(u32, (NameSet, String))>, warnings: &mut Vec<DuplicateName>)
    ensures
        warnings_view(final(warnings)@) == warnings_view(old(warnings)@) + duplicate_warnings(
            names_view(items@),
        ),
{
    let ghost v = names_view(items@);
    let ghost start = warnings_view(warnings@);
    let mut i: usize = 0;
    assert(v.take(0) =~= Seq::<(Option<Seq<char>>, Seq<char>)>::empty());
    assert(start + duplicate_warnings(v.take(0)) =~= start);
    while i < items.len()
        invariant
            i <= items@.len(),
            v == names_view(items@),
            v.len() == items@.len(),
            warnings_view(warnings@) == start + duplicate_warnings(v.take(i as int)),
        decreases items@.len() - i,
    {
        let short: Option<&String> = if items[i].1.0.names.len() > 0 {
            Some(&items[i].1.0.names[0])
        } else {
            None
        };
        let long = &items[i].1.1;
        assert(v[i as int] == (short_name(items@[i as int].1.0@), items@[i as int].1.1@));
        let mut short_dup = false;
        let mut long_dup = false;
        let mut j: usize = 0;
        while j < i
            invariant
                j <= i,
                i < items@.len(),
                v == names_view(items@),
                v.len() == items@.len(),
                v[i as int].1 == long@,
                match short {
                    Some(s) => v[i as int].0 == Some(s@),
                    None => v[i as int].0 is None,
                },
                short_dup == (v[i as int].0 is Some && exists|k: int| 0 <= k < j && #[trigger] v[k].0 == v[i as int].0),
                long_dup == exists|k: int| 0 <= k < j && #[trigger] v[k].1 == v[i as int].1,
            decreases i - j,
        {
            assert(v[j as int] == (short_name(items@[j as int].1.0@), items@[j as int].1.1@));
            if let Some(s) = short {
                if items[j].1.0.names.len() > 0 && str_equal(items[j].1.0.names[0].as_str(), s.as_str()) {
                    short_dup = true;
                }
            }
            let ghost was = long_dup;
            let same = str_equal(items[j].1.1.as_str(), long.as_str());
            if same {
                long_dup = true;
            }
            proof {
                assert(same == (v[j as int].1 == v[i as int].1));
                if same {
                    assert(v[j as int].1 == v[i as int].1);
                } else if was {
                    let k = choose|k: int| 0 <= k < j && #[trigger] v[k].1 == v[i as int].1;
                    assert(v[k].1 == v[i as int].1);
                } else {
                    assert forall|k: int| 0 <= k < j + 1 implies #[trigger] v[k].1 != v[i as int].1 by {
                        if k < j {
                        }
                    }
                }
            }
            j = j + 1;
        }
        let ghost p = v.take(i as int);
        proof {
            assert(v.take(i + 1).drop_last() =~= p);
            assert(v.take(i + 1).last() == v[i as int]);
            assert(short_dup == (v[i as int].0 is Some && exists|k: int| 0 <= k < p.len() && #[trigger] p[k].0 == v[i as int].0)) by {
                if short_dup {
                    let k = choose|k: int| 0 <= k < i && #[trigger] v[k].0 == v[i as int].0;
                    assert(p[k] == v[k]);
                }
                if v[i as int].0 is Some && exists|k: int| 0 <= k < p.len() && #[trigger] p[k].0 == v[i as int].0 {
                    let k = choose|k: int| 0 <= k < p.len() && #[trigger] p[k].0 == v[i as int].0;
                    assert(p[k] == v[k]);
                }
            }
            assert(long_dup == exists|k: int| 0 <= k < p.len() && #[trigger] p[k].1 == v[i as int].1) by {
                if long_dup {
                    let k = choose|k: int| 0 <= k < i && #[trigger] v[k].1 == v[i as int].1;
                    assert(p[k] == v[k]);
                }
                if exists|k: int| 0 <= k < p.len() && #[trigger] p[k].1 == v[i as int].1 {
                    let k = choose|k: int| 0 <= k < p.len() && #[trigger] p[k].1 == v[i as int].1;
                    assert(p[k] == v[k]);
                }
            }
        }
        let ghost w0 = warnings@;
        if short_dup {
            match short {
                Some(s) => {
                    warnings.push(DuplicateName::Short(s.clone()));
                    assert(warnings_view(warnings@) =~= warnings_view(w0).push(
                        DuplicateNameView::Short(v[i as int].0->0),
                    ));
                },
                None => {},
            }
        }
        let ghost w1 = warnings@;
        if long_dup {
            warnings.push(DuplicateName::Long(long.clone()));
            assert(warnings_view(warnings@) =~= warnings_view(w1).push(
                DuplicateNameView::Long(v[i as int].1),
            ));
        }
        i = i + 1;
    }
    assert(v.take(items@.len() as int) =~= v);
}

/// The names that a prefix of `order` takes are at most those that `order` takes.
pub proof fn lemma_needed_prefix(names: NamingScheme, order: Seq<u32>, i: int)
    requires
        0 <= i <= order.len(),
    ensures
        names_needed(names, order.take(i)) <= names_needed(names, order),
    decreases order.len() - i,
{
    if i < order.len() {
        lemma_needed_prefix(names, order, i + 1);
        assert(order.take(i + 1).drop_last() =~= order.take(i));
    } else {
        assert(order.take(i) =~= order);
    }
}

/// The automatic names left for use are names that no element has.
pub proof fn lemma_unused_not_taken(names: NamingScheme, autonames: Seq<Seq<char>>)
    ensures
        forall|k: int|
            0 <= k < unused_names(names, autonames).len() ==> !names.taken(
                #[trigger] unused_names(names, autonames)[k],
            ),
    decreases autonames.len(),
{
    if autonames.len() > 0 {
        lemma_unused_not_taken(names, autonames.drop_last());
        let prev = unused_names(names, autonames.drop_last());
        if !names.taken(autonames.last()) {
            assert forall|k: int|
                0 <= k < unused_names(names, autonames).len() implies !names.taken(
                #[trigger] unused_names(names, autonames)[k],
            ) by {
                if k < prev.len() {
                    assert(unused_names(names, autonames)[k] == prev[k]);
                }
            }
        }
    }
}

/// An element that has no name gets an automatic name that no element of
/// the naming scheme has.
pub proof fn law_autonames_unused(
    names: NamingScheme,
    order: Seq<u32>,
    autonames: Seq<Seq<char>>,
    i: int,
)
    requires
        0 <= i < order.len(),
        !names.names_map().contains_key(order[i]),
        names_needed(names, order) <= unused_names(names, autonames).len(),
    ensures
        autoname_name(names, order, unused_names(names, autonames), i).len() == 1,
        !names.taken(autoname_name(names, order, unused_names(names, autonames), i)[0]),
{
    lemma_unused_not_taken(names, autonames);
    lemma_needed_prefix(names, order, i + 1);
    assert(order.take(i + 1).drop_last() =~= order.take(i));
    assert(order.take(i + 1).last() == order[i]);
    let k = names_needed(names, order.take(i)) as int;
    assert(0 <= k < unused_names(names, autonames).len());
}

/// Different elements that both need automatic names get different
/// positions among the unused automatic names, so no automatic name is
/// given twice unless it stands twice among the automatic names.
pub proof fn law_autonames_advance(names: NamingScheme, order: Seq<u32>, i: int, j: int)
    requires
        0 <= i < j < order.len(),
    ensures
        names_needed(names, order.take(i)) + name_need(names, order[i]) + display_need(names, order[i])
            <= names_needed(names, order.take(j)),
{
    lemma_needed_prefix(names, order.take(j), i + 1);
    assert(order.take(j).take(i + 1) =~= order.take(i + 1));
    assert(order.take(i + 1).drop_last() =~= order.take(i));
    assert(order.take(i + 1).last() == order[i]);
}

} // verus!
