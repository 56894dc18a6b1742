//! The twist system of a puzzle under construction: the set of twists, each
//! an axis and a transformation, with no two alike and none the identity.
use vstd::prelude::*;

use crate::motor::{canonical_coefs, is_ident_coefs, reversed, Motor};
use crate::naming::{BadName, NamingScheme};
use crate::ordering::{key_less, name_key, sorts, CustomOrdering};

verus! {

/// ID of a twist axis.
#[derive(Debug, Clone, Copy, PartialEq, Eq, Structural)]
pub struct Axis(pub u16);

/// ID of a twist.
#[derive(Debug, Clone, Copy, PartialEq, Eq, Structural)]
pub struct Twist(pub u32);

/// Twist during puzzle construction.
#[derive(Debug)]
pub struct TwistBuilder {
    /// Axis that is twisted.
    pub axis: Axis,
    /// Transform to apply to pieces.
    pub transform: Motor,
    /// Value in the quarter-turn metric (or its contextual equivalent).
    pub qtm: usize,
}

/// What a twist holds: its axis, its transform and its quarter-turn value.
pub type TwistView = (u16, (u8, Seq<i64>), usize);

impl View for TwistBuilder {
    type V = TwistView;

    open spec fn view(&self) -> TwistView {
        (self.axis.0, self.transform@, self.qtm)
    }
}

impl Clone for TwistBuilder {
    fn clone(&self) -> (r: Self)
        ensures
            r@ == self@,
    {
        TwistBuilder { axis: self.axis, transform: self.transform.clone(), qtm: self.qtm }
    }
}

/// Error for a twist that cannot be added.
#[derive(Debug, Clone)]
pub enum BadTwist {
    /// The transform is the identity.
    Identity,
    /// An identical twist is already there.
    DuplicateTwist {
        /// ID of the twist that is already there.
        id: Twist,
        /// Its name, or the empty string if it has none.
        name: String,
    },
    /// The transform is not a valid twist transform.
    BadTransform,
}

/// Error for a twist ID that does not refer to a twist.
#[derive(Debug, Clone, Copy, PartialEq, Eq)]
pub struct IndexOutOfRange {
    /// The ID.
    pub index: u32,
    /// The number of twists.
    pub count: usize,
}

/// Error for a twist system that has no room for another twist ID.
#[derive(Debug, Clone, Copy, PartialEq, Eq)]
pub struct IndexOverflow;

/// Something that went wrong while adding a named twist; the twist system
/// reports it and goes on.
#[derive(Debug, Clone)]
pub enum TwistWarning {
    /// The twist was not added.
    BadTwist(BadTwist),
    /// The twist was added but could not take the name.
    BadName(BadName),
}

/// Whether two twists are the same twist: same axis and same transform (the
/// quarter-turn value does not count).
pub open spec fn same_twist(a: TwistView, b: TwistView) -> bool {
    a.0 == b.0 && a.1 == b.1
}

/// The ID of the twist with this axis and transform, if there is one.
pub open spec fn spec_lookup(twists: Seq<TwistView>, axis: u16, m: (u8, Seq<i64>)) -> Option<int> {
    if exists|i: int| 0 <= i < twists.len() && #[trigger] twists[i].0 == axis && twists[i].1 == m {
        Some(
            choose|i: int| 0 <= i < twists.len() && #[trigger] twists[i].0 == axis && twists[i].1 == m,
        )
    } else {
        None
    }
}

/// What `data_to_id` finds: the twist with this axis and transform, else
/// the one with this axis and the canonical form of the transform.
pub open spec fn spec_data_to_id(twists: Seq<TwistView>, axis: u16, m: (u8, Seq<i64>)) -> Option<
    int,
> {
    match spec_lookup(twists, axis, m) {
        Some(i) => Some(i),
        None => match canonical_coefs(m.1) {
            Some(c) => spec_lookup(twists, axis, (m.0, c)),
            None => None,
        },
    }
}

/// The twists are pairwise different and none is the identity.
pub open spec fn twists_valid(twists: Seq<TwistView>) -> bool {
    &&& forall|i: int, j: int|
        0 <= i < twists.len() && 0 <= j < twists.len() && i != j ==> !same_twist(
            #[trigger] twists[i],
            #[trigger] twists[j],
        )
    &&& forall|i: int| 0 <= i < twists.len() ==> !is_ident_coefs(#[trigger] twists[i].1.1)
    &&& twists.len() <= u32::MAX as int + 1
}

/// In valid twists, the twist at position `i` is the one that its axis and
/// transform find.
pub proof fn lemma_lookup_index(twists: Seq<TwistView>, i: int)
    requires
        twists_valid(twists),
        0 <= i < twists.len(),
    ensures
        spec_lookup(twists, twists[i].0, twists[i].1) == Some(i),
{
    let axis = twists[i].0;
    let m = twists[i].1;
    assert(twists[i].0 == axis && twists[i].1 == m);
    let k = choose|k: int| 0 <= k < twists.len() && #[trigger] twists[k].0 == axis && twists[k].1 == m;
    if k != i {
        assert(same_twist(twists[i], twists[k]));
    }
}

/// Twist system being constructed.
#[derive(Debug)]
pub struct TwistSystemBuilder {
    by_id: Vec<TwistBuilder>,
    names: NamingScheme,
}

impl TwistSystemBuilder {
    #[verifier::type_invariant]
    spec fn inv(self) -> bool {
        twists_valid(self.twists())
    }

    /// The twists, by ID.
    pub closed spec fn twists(self) -> Seq<TwistView> {
        self.by_id@.map_values(|t: TwistBuilder| t@)
    }

    /// The names of the twists.
    pub closed spec fn names_spec(self) -> NamingScheme {
        self.names
    }

    /// Constructs an empty twist system.
    pub fn new() -> (r: Self)
        ensures
            r.twists() == Seq::<TwistView>::empty(),
            r.names_spec().names_map() == Map::<u32, Seq<Seq<char>>>::empty(),
            r.names_spec().display_map() == Map::<u32, Seq<char>>::empty(),
            twists_valid(r.twists()),
    {
        let r = TwistSystemBuilder { by_id: Vec::new(), names: NamingScheme::new() };
        assert(r.twists() =~= Seq::<TwistView>::empty());
        r
    }

    /// Returns the names of the twists.
    pub fn names(&self) -> (r: &NamingScheme)
        ensures
            *r == self.names_spec(),
    {
        &self.names
    }

    /// Sets or clears the name of a twist (see `NamingScheme::set`).
    pub fn set_name(&mut self, id: Twist, name: Option<String>) -> (r: Result<(), BadName>)
        ensures
            final(self).twists() == old(self).twists(),
            twists_valid(final(self).twists()),
            match name {
                None => r is Ok && final(self).names_spec().names_map() == old(
                    self,
                ).names_spec().names_map().remove(id.0),
                Some(s) => match r {
                    Ok(_) => final(self).names_spec().names_map() == old(
                        self,
                    ).names_spec().names_map().insert(id.0, seq![s@]),
                    Err(e) => {
                        &&& final(self).names_spec().names_map() == old(self).names_spec().names_map()
                        &&& e matches BadName::AlreadyTaken { name: n, taken_by }
                        &&& n@ == s@
                        &&& taken_by != id.0
                        &&& old(self).names_spec().names_map().contains_key(taken_by)
                        &&& old(self).names_spec().names_map()[taken_by].contains(s@)
                    },
                },
            },
    {
        proof {
            use_type_invariant(&*self);
        }
        let mut names = NamingScheme::new();
        std::mem::swap(&mut names, &mut self.names);
        let r = names.set(id.0, name);
        self.names = names;
        r
    }

    /// Returns the number of twists in the twist system.
    pub fn len(&self) -> (r: usize)
        ensures
            r == self.twists().len(),
            twists_valid(self.twists()),
    {
        proof {
            use_type_invariant(self);
        }
        self.by_id.len()
    }

    /// Returns a reference to a twist by ID, or an error if the ID is out of
    /// range.
    pub fn get(&self, id: Twist) -> (r: Result<&TwistBuilder, IndexOutOfRange>)
        ensures
            id.0 < self.twists().len() ==> r is Ok && r->Ok_0@ == self.twists()[id.0 as int],
            id.0 >= self.twists().len() ==> r == Err::<&TwistBuilder, IndexOutOfRange>(
                IndexOutOfRange { index: id.0, count: self.twists().len() as usize },
            ),
    {
        if (id.0 as usize) < self.by_id.len() {
            Ok(&self.by_id[id.0 as usize])
        } else {
            Err(IndexOutOfRange { index: id.0, count: self.by_id.len() })
        }
    }

    /// The twist with exactly this axis and transform.
    fn lookup(&self, axis: Axis, transform: &Motor) -> (r: Option<Twist>)
        ensures
            match spec_lookup(self.twists(), axis.0, transform@) {
                Some(i) => r == Some(Twist(i as u32)),
                None => r is None,
            },
    {
        proof {
            use_type_invariant(self);
        }
        let ghost tw = self.twists();
        let mut i: usize = 0;
        while i < self.by_id.len()
            invariant
                tw == self.twists(),
                twists_valid(tw),
                i <= tw.len(),
                tw.len() == self.by_id@.len(),
                forall|j: int| 0 <= j < i ==> !(tw[j].0 == axis.0 && tw[j].1 == transform@),
            decreases tw.len() - i,
        {
            assert(tw[i as int] == self.by_id@[i as int]@);
            if self.by_id[i].axis.0 == axis.0 && self.by_id[i].transform.same_as(transform) {
                proof {
                    lemma_lookup_index(tw, i as int);
                }
                return Some(Twist(i as u32));
            }
            i = i + 1;
        }
        None
    }

    /// Returns the twist with the given axis and transform, trying the
    /// canonical form of the transform if the transform itself is not found.
    pub fn data_to_id(&self, axis: Axis, transform: &Motor) -> (r: Option<Twist>)
        ensures
            match spec_data_to_id(self.twists(), axis.0, transform@) {
                Some(i) => r == Some(Twist(i as u32)),
                None => r is None,
            },
    {
        match self.lookup(axis, transform) {
            Some(t) => Some(t),
            None => match transform.canonicalize() {
                Some(c) => self.lookup(axis, &c),
                None => None,
            },
        }
    }

    /// Returns the inverse of a twist (the twist on the same axis whose
    /// transform is the reverse), or an error if the ID is out of range.
    pub fn inverse(&self, id: Twist) -> (r: Result<Option<Twist>, IndexOutOfRange>)
        ensures
            id.0 >= self.twists().len() ==> r == Err::<Option<Twist>, IndexOutOfRange>(
                IndexOutOfRange { index: id.0, count: self.twists().len() as usize },
            ),
            id.0 < self.twists().len() ==> r is Ok && match spec_data_to_id(
                self.twists(),
                self.twists()[id.0 as int].0,
                (self.twists()[id.0 as int].1.0, reversed(self.twists()[id.0 as int].1.1)),
            ) {
                Some(i) => r->Ok_0 == Some(Twist(i as u32)),
                None => r->Ok_0 is None,
            },
    {
        let twist = self.get(id)?;
        let rev = twist.transform.reverse();
        Ok(self.data_to_id(twist.axis, &rev))
    }

    /// Adds a new twist. The identity, and a twist with the axis and
    /// transform of one already there, are refused; the outer error comes
    /// when no twist ID is left.
    pub fn add(&mut self, data: TwistBuilder) -> (r: Result<Result<Twist, BadTwist>, IndexOverflow>)
        ensures
            final(self).names_spec() == old(self).names_spec(),
            twists_valid(final(self).twists()),
            is_ident_coefs(data@.1.1) ==> r == Ok::<Result<Twist, BadTwist>, IndexOverflow>(
                Err(BadTwist::Identity),
            ) && final(self).twists() == old(self).twists(),
            !is_ident_coefs(data@.1.1) && spec_lookup(old(self).twists(), data@.0, data@.1) is Some
                ==> {
                let i = spec_lookup(old(self).twists(), data@.0, data@.1)->0;
                &&& r matches Ok(Err(BadTwist::DuplicateTwist { id, name }))
                &&& id == Twist(i as u32)
                &&& name@ == match name_key(old(self).names_spec(), i as u32) {
                    Some(c) => c,
                    None => Seq::<char>::empty(),
                }
                &&& final(self).twists() == old(self).twists()
            },
            !is_ident_coefs(data@.1.1) && spec_lookup(old(self).twists(), data@.0, data@.1) is None
                ==> if old(self).twists().len() <= u32::MAX {
                &&& r == Ok::<Result<Twist, BadTwist>, IndexOverflow>(
                    Ok(Twist(old(self).twists().len() as u32)),
                )
                &&& final(self).twists() == old(self).twists().push(data@)
            } else {
                &&& r == Err::<Result<Twist, BadTwist>, IndexOverflow>(IndexOverflow)
                &&& final(self).twists() == old(self).twists()
            },
    {
        proof {
            use_type_invariant(&*self);
        }
        if data.transform.is_ident() {
            return Ok(Err(BadTwist::Identity));
        }
        if let Some(id) = self.lookup(data.axis, &data.transform) {
            let name = match self.names.get(id.0) {
                Some(n) => n,
                None => String::new(),
            };
            return Ok(Err(BadTwist::DuplicateTwist { id, name }));
        }
        if self.by_id.len() > u32::MAX as usize {
            return Err(IndexOverflow);
        }
        let id = Twist(self.by_id.len() as u32);
        let ghost old_tw = self.twists();
        let ghost dv = data@;
        proof {
            assert forall|i: int| 0 <= i < old_tw.len() implies !same_twist(old_tw[i], dv) by {
                if same_twist(old_tw[i], dv) {
                    assert(old_tw[i].0 == dv.0 && old_tw[i].1 == dv.1);
                }
            }
        }
        let mut v = Vec::new();
        std::mem::swap(&mut v, &mut self.by_id);
        v.push(data);
        proof {
            let nt = v@.map_values(|t: TwistBuilder| t@);
            assert(nt =~= old_tw.push(dv));
            assert forall|i: int, j: int|
                0 <= i < nt.len() && 0 <= j < nt.len() && i != j implies !same_twist(
                #[trigger] nt[i],
                #[trigger] nt[j],
            ) by {
                if i < old_tw.len() && j < old_tw.len() {
                    assert(nt[i] == old_tw[i] && nt[j] == old_tw[j]);
                }
            }
        }
        self.by_id = v;
        Ok(Ok(id))
    }

    /// Adds a new twist and assigns it a name. If the twist is refused, or
    /// cannot take the name, what went wrong is appended to `warnings`; a
    /// refused twist gives `None`.
    pub fn add_named(&mut self, data: TwistBuilder, name: String, warnings: &mut Vec<TwistWarning>) -> (r:
        Result<Option<Twist>, IndexOverflow>)
        ensures
            twists_valid(final(self).twists()),
            r is Err ==> final(self).twists() == old(self).twists() && final(warnings)@ == old(warnings)@,
            r == Ok::<Option<Twist>, IndexOverflow>(None) ==> {
                &&& final(self).twists() == old(self).twists()
                &&& final(self).names_spec() == old(self).names_spec()
                &&& final(warnings)@.len() == old(warnings)@.len() + 1
                &&& final(warnings)@.drop_last() == old(warnings)@
                &&& is_ident_coefs(data@.1.1) ==> final(warnings)@.last() == TwistWarning::BadTwist(
                    BadTwist::Identity,
                )
                &&& !is_ident_coefs(data@.1.1) ==> {
                    let i = spec_lookup(old(self).twists(), data@.0, data@.1)->0;
                    &&& spec_lookup(old(self).twists(), data@.0, data@.1) is Some
                    &&& final(warnings)@.last() matches TwistWarning::BadTwist(
                        BadTwist::DuplicateTwist { id, name: n },
                    )
                    &&& id == Twist(i as u32)
                    &&& n@ == match name_key(old(self).names_spec(), i as u32) {
                        Some(c) => c,
                        None => Seq::<char>::empty(),
                    }
                }
            },
            r matches Ok(Some(id)) ==> {
                &&& id.0 == old(self).twists().len()
                &&& final(self).twists() == old(self).twists().push(data@)
                &&& final(warnings)@.len() <= old(warnings)@.len() + 1
                &&& final(warnings)@.take(old(warnings)@.len() as int) == old(warnings)@
                &&& (final(warnings)@.len() == old(warnings)@.len() ==> final(self).names_spec().names_map()
                    == old(self).names_spec().names_map().insert(id.0, seq![name@]))
                &&& (final(warnings)@.len() == old(warnings)@.len() + 1 ==> {
                    &&& final(self).names_spec().names_map() == old(self).names_spec().names_map()
                    &&& final(warnings)@.last() matches TwistWarning::BadName(
                        BadName::AlreadyTaken { name: n, taken_by },
                    )
                    &&& n@ == name@
                    &&& taken_by != id.0
                    &&& old(self).names_spec().names_map().contains_key(taken_by)
                    &&& old(self).names_spec().names_map()[taken_by].contains(name@)
                })
            },
            (!is_ident_coefs(data@.1.1) && spec_lookup(old(self).twists(), data@.0, data@.1) is None
                && old(self).twists().len() <= u32::MAX) <==> (r is Ok && r->Ok_0 is Some),
    {
        let id = match self.add(data)? {
            Ok(ok) => ok,
            Err(err) => {
                warnings.push(TwistWarning::BadTwist(err));
                return Ok(None);
            },
        };
        let ghost before = warnings@;
        match self.set_name(id, Some(name)) {
            Ok(()) => {},
            Err(e) => {
                warnings.push(TwistWarning::BadName(e));
                assert(warnings@.take(before.len() as int) =~= before);
            },
        }
        assert(warnings@.take(before.len() as int) =~= before);
        Ok(Some(id))
    }

    /// Returns the twists in canonical alphabetical order: by name, the
    /// unnamed ones first, in order of ID.
    pub fn alphabetized(&self) -> (r: Vec<Twist>)
        ensures
            r@.len() == self.twists().len(),
            forall|i: int| 0 <= i < r@.len() ==> (#[trigger] r@[i]).0 < self.twists().len(),
            forall|i: int, j: int|
                0 <= i < j < r@.len() ==> key_less(
                    name_key(self.names_spec(), (#[trigger] r@[i]).0),
                    r@[i].0 as int,
                    name_key(self.names_spec(), (#[trigger] r@[j]).0),
                    r@[j].0 as int,
                ),
    {
        proof {
            use_type_invariant(self);
        }
        let mut ordering = CustomOrdering::with_len(self.by_id.len());
        let ghost initial = ordering.order_spec();
        ordering.sort_by_name(&self.names);
        let ids = ordering.ids_in_order();
        let ghost pos = choose|pos: Seq<int>|
            sorts(initial, ordering.order_spec(), pos, self.names);
        proof {
            assert forall|j: int| 0 <= j < ids@.len() implies ids@[j] == pos[j] by {
                assert(0 <= pos[j] < initial.len());
            }
        }
        let mut r: Vec<Twist> = Vec::new();
        let mut k: usize = 0;
        while k < ids.len()
            invariant
                k <= ids@.len(),
                r@.len() == k,
                forall|i: int| 0 <= i < k ==> (#[trigger] r@[i]).0 == ids@[i],
                sorts(initial, ids@, pos, self.names),
                forall|j: int| 0 <= j < ids@.len() ==> ids@[j] == pos[j],
                initial.len() == self.twists().len(),
            decreases ids@.len() - k,
        {
            r.push(Twist(ids[k]));
            k = k + 1;
        }
        proof {
            assert forall|i: int, j: int| 0 <= i < j < r@.len() implies key_less(
                name_key(self.names_spec(), (#[trigger] r@[i]).0),
                r@[i].0 as int,
                name_key(self.names_spec(), (#[trigger] r@[j]).0),
                r@[j].0 as int,
            ) by {
                assert(r@[i].0 == ids@[i] && r@[j].0 == ids@[j]);
                assert(key_less(
                    name_key(self.names, ids@[i]),
                    pos[i],
                    name_key(self.names, ids@[j]),
                    pos[j],
                ));
            }
            assert forall|i: int| 0 <= i < r@.len() implies (#[trigger] r@[i]).0 < self.twists().len() by {
                assert(r@[i].0 == ids@[i]);
                assert(0 <= pos[i] < initial.len());
            }
        }
        r
    }
}

/// After a twist is added, its ID gives it back and its axis and transform
/// find its ID.
pub proof fn law_add_then_lookup(before: Seq<TwistView>, data: TwistView)
    requires
        twists_valid(before),
        !is_ident_coefs(data.1.1),
        spec_lookup(before, data.0, data.1) is None,
        before.len() <= u32::MAX,
    ensures
        before.push(data)[before.len() as int] == data,
        spec_lookup(before.push(data), data.0, data.1) == Some(before.len() as int),
        spec_data_to_id(before.push(data), data.0, data.1) == Some(before.len() as int),
{
    let after = before.push(data);
    let n = before.len() as int;
    assert(after[n].0 == data.0 && after[n].1 == data.1);
    let k = choose|k: int| 0 <= k < after.len() && #[trigger] after[k].0 == data.0 && after[k].1 == data.1;
    if k != n {
        assert(before[k].0 == data.0 && before[k].1 == data.1);
    }
}

/// Every twist of a valid twist system is found by its own axis and
/// transform.
pub proof fn law_lookup_finds_each(twists: Seq<TwistView>, i: int)
    requires
        twists_valid(twists),
        0 <= i < twists.len(),
    ensures
        spec_data_to_id(twists, twists[i].0, twists[i].1) == Some(i),
{
    lemma_lookup_index(twists, i);
}

/// A twist, once added, is still found by its axis and transform after any
/// later twists are added: the twists it was added to are a prefix of every
/// later valid twist system.
pub proof fn law_lookup_survives_later_adds(earlier: Seq<TwistView>, later: Seq<TwistView>, i: int)
    requires
        twists_valid(later),
        0 <= i < earlier.len(),
        earlier.len() <= later.len(),
        forall|j: int| 0 <= j < earlier.len() ==> #[trigger] later[j] == earlier[j],
    ensures
        spec_data_to_id(later, earlier[i].0, earlier[i].1) == Some(i),
{
    assert(later[i] == earlier[i]);
    law_lookup_finds_each(later, i);
}

/// Twists are the inverses of each other when their transforms are each
/// other's reverse on the same axis.
pub proof fn law_inverse_pairs(twists: Seq<TwistView>, a: int, b: int)
    requires
        twists_valid(twists),
        0 <= a < twists.len(),
        0 <= b < twists.len(),
        twists[a].0 == twists[b].0,
        twists[b].1 == (twists[a].1.0, reversed(twists[a].1.1)),
    ensures
        spec_data_to_id(twists, twists[a].0, (twists[a].1.0, reversed(twists[a].1.1))) == Some(b),
{
    lemma_lookup_index(twists, b);
}

} // verus!
