//! Names of puzzle elements: sets of alternative names, the naming scheme
//! that maps element IDs to names, and automatic naming of unnamed elements.
use vstd::prelude::*;

use crate::assoc::{
    assoc_distinct, assoc_has, assoc_index, assoc_map, lemma_assoc_index, lemma_assoc_push,
    lemma_assoc_remove, lemma_assoc_update,
};
use crate::text::str_equal;

verus! {

/// The characters of an optional string.
pub open spec fn opt_str_view(o: Option<String>) -> Option<Seq<char>> {
    match o {
        Some(s) => Some(s@),
        None => None,
    }
}

/// The canonical name of a set of names: its only name, if it has exactly one.
pub open spec fn canonical(names: Seq<Seq<char>>) -> Option<Seq<char>> {
    if names.len() == 1 {
        Some(names[0])
    } else {
        None
    }
}

/// Set of alternative names for one element.
#[derive(Debug)]
pub struct NameSet {
    /// The names, the preferred one first.
    pub names: Vec<String>,
}

impl View for NameSet {
    type V = Seq<Seq<char>>;

    open spec fn view(&self) -> Seq<Seq<char>> {
        self.names@.map_values(|s: String| s@)
    }
}

impl Clone for NameSet {
    fn clone(&self) -> (r: Self)
        ensures
            r@ == self@,
    {
        let mut c: Vec<String> = Vec::new();
        let mut k: usize = 0;
        while k < self.names.len()
            invariant
                k <= self.names@.len(),
                c@ == self.names@.take(k as int),
            decreases self.names@.len() - k,
        {
            c.push(self.names[k].clone());
            assert(self.names@.take(k + 1) =~= self.names@.take(k as int).push(
                self.names@[k as int],
            ));
            k = k + 1;
        }
        assert(self.names@.take(self.names@.len() as int) =~= self.names@);
        NameSet { names: c }
    }
}

impl NameSet {
    /// Returns the name set holding one name.
    pub fn from_name(name: String) -> (r: Self)
        ensures
            r@ == seq![name@],
    {
        let mut names = Vec::new();
        names.push(name);
        let r = NameSet { names };
        assert(r@ =~= seq![name@]);
        r
    }

    /// Returns the canonical name: the only name of the set, if it has
    /// exactly one.
    pub fn canonical_name(&self) -> (r: Option<String>)
        ensures
            opt_str_view(r) == canonical(self@),
    {
        if self.names.len() == 1 {
            Some(self.names[0].clone())
        } else {
            None
        }
    }

    /// Returns whether `name` is one of the names of the set.
    pub fn contains(&self, name: &str) -> (r: bool)
        ensures
            r == self@.contains(name@),
    {
        let mut k: usize = 0;
        while k < self.names.len()
            invariant
                k <= self.names@.len(),
                forall|j: int| 0 <= j < k ==> self.names@[j]@ != name@,
            decreases self.names@.len() - k,
        {
            if str_equal(self.names[k].as_str(), name) {
                assert(self@[k as int] == name@);
                return true;
            }
            k = k + 1;
        }
        false
    }
}

/// Error for a name that cannot be given to an element.
#[derive(Debug, Clone)]
pub enum BadName {
    /// Another element already has the name.
    AlreadyTaken {
        /// The name.
        name: String,
        /// The element that has it.
        taken_by: u32,
    },
}

/// Names and display names of the elements of one kind, by element ID.
#[derive(Debug)]
pub struct NamingScheme {
    ids_to_names: Vec<(u32, NameSet)>,
    ids_to_display_names: Vec<(u32, String)>,
}

/// No name belongs to the name sets of two different entries.
pub open spec fn names_disjoint(e: Seq<(u32, NameSet)>) -> bool {
    forall|i: int, j: int, s: Seq<char>|
        #![trigger e[i].1@.contains(s), e[j].1@.contains(s)]
        0 <= i < e.len() && 0 <= j < e.len() && i != j && e[i].1@.contains(s) ==> !e[j].1@.contains(s)
}

impl NamingScheme {
    #[verifier::type_invariant]
    spec fn well_formed(self) -> bool {
        &&& assoc_distinct(self.ids_to_names@)
        &&& assoc_distinct(self.ids_to_display_names@)
        &&& names_disjoint(self.ids_to_names@)
    }

    /// The name set of each named element.
    pub closed spec fn names_map(self) -> Map<u32, Seq<Seq<char>>> {
        assoc_map(self.ids_to_names@)
    }

    /// The display name of each element that has one.
    pub closed spec fn display_map(self) -> Map<u32, Seq<char>> {
        assoc_map(self.ids_to_display_names@)
    }

    /// Whether some element has the name `s`.
    pub open spec fn taken(self, s: Seq<char>) -> bool {
        exists|id: u32| #[trigger]
            self.names_map().contains_key(id) && self.names_map()[id].contains(s)
    }

    /// Returns an empty naming scheme.
    pub fn new() -> (r: Self)
        ensures
            r.names_map() == Map::<u32, Seq<Seq<char>>>::empty(),
            r.display_map() == Map::<u32, Seq<char>>::empty(),
    {
        let r = NamingScheme { ids_to_names: Vec::new(), ids_to_display_names: Vec::new() };
        assert(r.names_map() =~= Map::<u32, Seq<Seq<char>>>::empty());
        assert(r.display_map() =~= Map::<u32, Seq<char>>::empty());
        r
    }

    /// Position of the name set of `id`.
    fn names_index(&self, id: u32) -> (r: Option<usize>)
        ensures
            match r {
                Some(i) => i < self.ids_to_names@.len() && self.ids_to_names@[i as int].0 == id,
                None => !assoc_has(self.ids_to_names@, id),
            },
    {
        let mut i: usize = 0;
        while i < self.ids_to_names.len()
            invariant
                i <= self.ids_to_names@.len(),
                forall|j: int| 0 <= j < i ==> self.ids_to_names@[j].0 != id,
            decreases self.ids_to_names@.len() - i,
        {
            if self.ids_to_names[i].0 == id {
                return Some(i);
            }
            i = i + 1;
        }
        None
    }

    /// Position of the display name of `id`.
    fn display_index(&self, id: u32) -> (r: Option<usize>)
        ensures
            match r {
                Some(i) => i < self.ids_to_display_names@.len()
                    && self.ids_to_display_names@[i as int].0 == id,
                None => !assoc_has(self.ids_to_display_names@, id),
            },
    {
        let mut i: usize = 0;
        while i < self.ids_to_display_names.len()
            invariant
                i <= self.ids_to_display_names@.len(),
                forall|j: int| 0 <= j < i ==> self.ids_to_display_names@[j].0 != id,
            decreases self.ids_to_display_names@.len() - i,
        {
            if self.ids_to_display_names[i].0 == id {
                return Some(i);
            }
            i = i + 1;
        }
        None
    }

    /// Returns the name set of an element, if it has one.
    pub fn name_set(&self, id: u32) -> (r: Option<&NameSet>)
        ensures
            match r {
                Some(ns) => self.names_map().contains_key(id) && self.names_map()[id] == ns@,
                None => !self.names_map().contains_key(id),
            },
    {
        proof {
            use_type_invariant(self);
        }
        match self.names_index(id) {
            Some(i) => {
                proof {
                    lemma_assoc_index(self.ids_to_names@, i as int);
                }
                Some(&self.ids_to_names[i].1)
            },
            None => None,
        }
    }

    /// Returns the display name of an element, if it has one.
    pub fn display_name(&self, id: u32) -> (r: Option<&String>)
        ensures
            match r {
                Some(s) => self.display_map().contains_key(id) && self.display_map()[id] == s@,
                None => !self.display_map().contains_key(id),
            },
    {
        proof {
            use_type_invariant(self);
        }
        match self.display_index(id) {
            Some(i) => {
                proof {
                    lemma_assoc_index(self.ids_to_display_names@, i as int);
                }
                Some(&self.ids_to_display_names[i].1)
            },
            None => None,
        }
    }

    /// Returns the canonical name of an element, if it has one.
    pub fn get(&self, id: u32) -> (r: Option<String>)
        ensures
            opt_str_view(r) == (if self.names_map().contains_key(id) {
                canonical(self.names_map()[id])
            } else {
                None
            }),
    {
        match self.name_set(id) {
            Some(ns) => ns.canonical_name(),
            None => None,
        }
    }

    /// Returns the element that has the name `name`, if any.
    pub fn id_of(&self, name: &str) -> (r: Option<u32>)
        ensures
            match r {
                Some(id) => self.names_map().contains_key(id) && self.names_map()[id].contains(
                    name@,
                ),
                None => !self.taken(name@),
            },
    {
        proof {
            use_type_invariant(self);
        }
        let mut i: usize = 0;
        while i < self.ids_to_names.len()
            invariant
                i <= self.ids_to_names@.len(),
                assoc_distinct(self.ids_to_names@),
                forall|j: int| 0 <= j < i ==> !(#[trigger] self.ids_to_names@[j].1@).contains(name@),
            decreases self.ids_to_names@.len() - i,
        {
            if self.ids_to_names[i].1.contains(name) {
                proof {
                    lemma_assoc_index(self.ids_to_names@, i as int);
                }
                return Some(self.ids_to_names[i].0);
            }
            i = i + 1;
        }
        proof {
            assert forall|id: u32| #[trigger]
                self.names_map().contains_key(id) implies !self.names_map()[id].contains(
                name@,
            ) by {
                let j = assoc_index(self.ids_to_names@, id);
                lemma_assoc_index(self.ids_to_names@, j);
            }
        }
        None
    }

    /// Sets or clears the name of an element. A name that another element
    /// has is refused, and the scheme stays as it is.
    pub fn set(&mut self, id: u32, name: Option<String>) -> (r: Result<(), BadName>)
        ensures
            match name {
                None => r is Ok && final(self).names_map() == old(self).names_map().remove(id),
                Some(s) => if exists|other: u32|
                    other != id && #[trigger] old(self).names_map().contains_key(other)
                        && old(self).names_map()[other].contains(s@) {
                    &&& r matches Err(BadName::AlreadyTaken { name: n, taken_by })
                    &&& n@ == s@
                    &&& taken_by != id
                    &&& old(self).names_map().contains_key(taken_by)
                    &&& old(self).names_map()[taken_by].contains(s@)
                    &&& final(self).names_map() == old(self).names_map()
                } else {
                    &&& r is Ok
                    &&& final(self).names_map() == old(self).names_map().insert(id, seq![s@])
                },
            },
            final(self).display_map() == old(self).display_map(),
    {
        proof {
            use_type_invariant(&*self);
        }
        let ghost old_names = self.ids_to_names@;
        match name {
            None => {
                match self.names_index(id) {
                    Some(i) => {
                        let mut e = Vec::new();
                        std::mem::swap(&mut e, &mut self.ids_to_names);
                        e.remove(i);
                        proof {
                            lemma_assoc_remove(old_names, i as int);
                            assert forall|a: int, b: int, s: Seq<char>|
                                #![trigger e@[a].1@.contains(s), e@[b].1@.contains(s)]
                                0 <= a < e@.len() && 0 <= b < e@.len() && a != b && e@[a].1@.contains(s)
                                implies !e@[b].1@.contains(s) by {
                                let a2 = if a < i {
                                    a
                                } else {
                                    a + 1
                                };
                                let b2 = if b < i {
                                    b
                                } else {
                                    b + 1
                                };
                                assert(e@[a] == old_names[a2]);
                                assert(e@[b] == old_names[b2]);
                            }
                        }
                        self.ids_to_names = e;
                    },
                    None => {
                        proof {
                            assert(assoc_map(old_names) =~= assoc_map(old_names).remove(id));
                        }
                    },
                }
                Ok(())
            },
            Some(s) => {
                let found = self.id_of(s.as_str());
                if let Some(other) = found {
                    if other != id {
                        return Err(BadName::AlreadyTaken { name: s, taken_by: other });
                    }
                }
                proof {
                    assert forall|other: u32|
                        other != id && #[trigger] assoc_map(old_names).contains_key(
                            other,
                        ) implies !assoc_map(old_names)[other].contains(s@) by {
                        let j = assoc_index(old_names, other);
                        lemma_assoc_index(old_names, j);
                        assert(self.names_map() == assoc_map(old_names));
                        assert(self.names_map().contains_key(other));
                        if found is Some {
                            let k = assoc_index(old_names, id);
                            lemma_assoc_index(old_names, k);
                            assert(old_names[k].1@.contains(s@));
                            if old_names[j].1@.contains(s@) {
                                assert(j != k);
                                assert(!old_names[k].1@.contains(s@));
                            }
                        }
                    }
                }
                let ns = NameSet::from_name(s);
                let ghost nsv = ns@;
                let mut e = Vec::new();
                std::mem::swap(&mut e, &mut self.ids_to_names);
                match self.names_index_in(&e, id) {
                    Some(i) => {
                        e.set(i, (id, ns));
                        proof {
                            lemma_assoc_update(old_names, i as int, e@[i as int].1);
                            assert(e@ == old_names.update(i as int, (old_names[i as int].0, e@[i as int].1)));
                        }
                    },
                    None => {
                        e.push((id, ns));
                        proof {
                            lemma_assoc_push(old_names, id, e@[old_names.len() as int].1);
                            assert(e@ == old_names.push((id, e@[old_names.len() as int].1)));
                        }
                    },
                }
                proof {
                    assert forall|a: int, b: int, t: Seq<char>|
                        #![trigger e@[a].1@.contains(t), e@[b].1@.contains(t)]
                        0 <= a < e@.len() && 0 <= b < e@.len() && a != b && e@[a].1@.contains(t)
                        implies !e@[b].1@.contains(t) by {
                        if e@[a].0 == id {
                            assert(e@[a].1@ == nsv);
                            assert(t == nsv[0]);
                            assert(e@[b].0 != id);
                            lemma_assoc_index(e@, b);
                            assert(assoc_map(e@)[e@[b].0] == e@[b].1@);
                            assert(assoc_map(old_names).contains_key(e@[b].0));
                        } else if e@[b].0 == id {
                            assert(e@[b].1@ == nsv);
                            lemma_assoc_index(e@, a);
                            assert(assoc_map(old_names).contains_key(e@[a].0));
                            if e@[b].1@.contains(t) {
                                assert(t == nsv[0]);
                            }
                        } else {
                            lemma_assoc_index(e@, a);
                            lemma_assoc_index(e@, b);
                            let a2 = assoc_index(old_names, e@[a].0);
                            let b2 = assoc_index(old_names, e@[b].0);
                            lemma_assoc_index(old_names, a2);
                            lemma_assoc_index(old_names, b2);
                            assert(old_names[a2].1@ == e@[a].1@);
                            assert(old_names[b2].1@ == e@[b].1@);
                        }
                    }
                }
                self.ids_to_names = e;
                Ok(())
            },
        }
    }

    /// Position of the entry of `id` in a list of name sets.
    fn names_index_in(&self, e: &Vec<(u32, NameSet)>, id: u32) -> (r: Option<usize>)
        ensures
            match r {
                Some(i) => i < e@.len() && e@[i as int].0 == id,
                None => !assoc_has(e@, id),
            },
    {
        let mut i: usize = 0;
        while i < e.len()
            invariant
                i <= e@.len(),
                forall|j: int| 0 <= j < i ==> e@[j].0 != id,
            decreases e@.len() - i,
        {
            if e[i].0 == id {
                return Some(i);
            }
            i = i + 1;
        }
        None
    }

    /// Sets or clears the display name of an element.
    pub fn set_display(&mut self, id: u32, display: Option<String>)
        ensures
            final(self).names_map() == old(self).names_map(),
            final(self).display_map() == match display {
                Some(s) => old(self).display_map().insert(id, s@),
                None => old(self).display_map().remove(id),
            },
    {
        proof {
            use_type_invariant(&*self);
        }
        let ghost old_display = self.ids_to_display_names@;
        let idx = self.display_index(id);
        let mut e = Vec::new();
        std::mem::swap(&mut e, &mut self.ids_to_display_names);
        match display {
            Some(s) => match idx {
                Some(i) => {
                    e.set(i, (id, s));
                    proof {
                        lemma_assoc_update(old_display, i as int, e@[i as int].1);
                        assert(e@ == old_display.update(
                            i as int,
                            (old_display[i as int].0, e@[i as int].1),
                        ));
                    }
                },
                None => {
                    e.push((id, s));
                    proof {
                        lemma_assoc_push(old_display, id, e@[old_display.len() as int].1);
                        assert(e@ == old_display.push((id, e@[old_display.len() as int].1)));
                    }
                },
            },
            None => match idx {
                Some(i) => {
                    e.remove(i);
                    proof {
                        lemma_assoc_remove(old_display, i as int);
                    }
                },
                None => {
                    proof {
                        assert(assoc_map(old_display) =~= assoc_map(old_display).remove(id));
                    }
                },
            },
        }
        self.ids_to_display_names = e;
    }
}

} // verus!
