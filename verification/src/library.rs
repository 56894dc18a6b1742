//! The library of puzzle definition files: which file defines each puzzle,
//! puzzle generator and color system, and the loading and unloading of files.
use std::sync::Arc;

use vstd::prelude::*;

use crate::lazy_puzzle::{LazyPuzzle, LazyPuzzleGenerator};
use crate::strmap::{lemma_skeys_index, skeys_index, StrMap};
use crate::tags::strs_view;
use crate::text::str_equal;

verus! {

/// Kind of object that a library file can define.
#[derive(Debug, Clone, Copy, PartialEq, Eq, Structural)]
pub enum ThingKind {
    /// A puzzle.
    Puzzle,
    /// A puzzle generator.
    PuzzleGenerator,
    /// A color system.
    ColorSystem,
}

/// What loading a library file defined, by ID: its puzzles (with the
/// parameters `S` to construct them), its puzzle generators (with the
/// generators `G`), each keeping the puzzles `P` it has constructed, and its
/// color systems `C`.
#[derive(Debug)]
pub struct LibraryFileLoadOutput<S, G, P, C> {
    /// The puzzles it defines.
    pub puzzles: Vec<(String, LazyPuzzle<S, P>)>,
    /// The puzzle generators it defines.
    pub puzzle_generators: Vec<(String, LazyPuzzleGenerator<G, P>)>,
    /// The color systems it defines.
    pub color_systems: Vec<(String, Arc<C>)>,
}

/// The keys of pairs, as character sequences.
pub open spec fn keys_view<X>(pairs: Seq<(String, X)>) -> Seq<Seq<char>> {
    pairs.map_values(|p: (String, X)| p.0@)
}

impl<S, G, P, C> LibraryFileLoadOutput<S, G, P, C> {
    /// The IDs of the objects of one kind.
    pub open spec fn ids(self, kind: ThingKind) -> Seq<Seq<char>> {
        match kind {
            ThingKind::Puzzle => keys_view(self.puzzles@),
            ThingKind::PuzzleGenerator => keys_view(self.puzzle_generators@),
            ThingKind::ColorSystem => keys_view(self.color_systems@),
        }
    }
}

/// Loading state of a library file.
#[derive(Debug)]
pub enum LibraryFileLoadState<S, G, P, C> {
    /// Not loaded.
    Unloaded,
    /// Being loaded.
    Loading,
    /// Loaded, with what it defined or the error that loading gave.
    Done(Result<LibraryFileLoadOutput<S, G, P, C>, String>),
}

/// A library file.
#[derive(Debug)]
pub struct LibraryFile<S, G, P, C> {
    /// Name of the file.
    pub name: String,
    /// Path of the file on disk, if it has one.
    pub path: Option<String>,
    /// Contents of the file.
    pub contents: String,
    /// Loading state.
    pub load_state: LibraryFileLoadState<S, G, P, C>,
    /// Names of the files that depend on this one; they are unloaded with it.
    pub dependents: Vec<String>,
}

/// The characters of an optional string.
pub open spec fn opt_view(o: Option<String>) -> Option<Seq<char>> {
    match o {
        Some(s) => Some(s@),
        None => None,
    }
}

impl<S, G, P, C> LibraryFile<S, G, P, C> {
    /// Whether the file is unloaded and has no dependents.
    pub open spec fn is_reset(self) -> bool {
        self.load_state is Unloaded && self.dependents@.len() == 0
    }

    /// Whether two files have the same name, path and contents.
    pub open spec fn same_source(self, other: LibraryFile<S, G, P, C>) -> bool {
        &&& self.name@ == other.name@
        &&& opt_view(self.path) == opt_view(other.path)
        &&& self.contents@ == other.contents@
    }

    /// What the file defined, if it loaded successfully.
    pub open spec fn output(self) -> Option<LibraryFileLoadOutput<S, G, P, C>> {
        match self.load_state {
            LibraryFileLoadState::Done(Ok(out)) => Some(out),
            _ => None,
        }
    }

    /// Whether the file is a new unloaded file with this name, path and
    /// contents.
    pub open spec fn is_fresh(self, name: String, path: Option<String>, contents: String) -> bool {
        &&& self.name == name
        &&& self.path == path
        &&& self.contents == contents
        &&& self.is_reset()
    }

    /// Returns a new unloaded file.
    pub fn new(name: String, path: Option<String>, contents: String) -> (r: Self)
        ensures
            r.name == name,
            r.path == path,
            r.contents == contents,
            r.is_reset(),
    {
        LibraryFile {
            name,
            path,
            contents,
            load_state: LibraryFileLoadState::Unloaded,
            dependents: Vec::new(),
        }
    }

    /// Returns whether two files have the same name, path and contents.
    pub fn eq_source(&self, other: &LibraryFile<S, G, P, C>) -> (r: bool)
        ensures
            r == self.same_source(*other),
    {
        let same_path = match (&self.path, &other.path) {
            (None, None) => true,
            (Some(a), Some(b)) => str_equal(a.as_str(), b.as_str()),
            _ => false,
        };
        str_equal(self.name.as_str(), other.name.as_str()) && same_path && str_equal(
            self.contents.as_str(),
            other.contents.as_str(),
        )
    }
}

/// Error looking up an object in the library.
#[derive(Debug, Clone)]
pub enum LibraryError {
    /// No loaded file defines an object of that kind and ID.
    NotFound {
        /// Kind of object.
        kind: ThingKind,
        /// Its ID.
        id: String,
    },
    /// The file that owns the object is not loaded, or failed to load.
    Unloaded {
        /// Name of the file.
        file: String,
        /// Kind of object.
        kind: ThingKind,
        /// Its ID.
        id: String,
    },
}

/// Why a lookup found no loaded object.
pub enum LookupFailure {
    /// No loaded file defines the object.
    NotFound,
    /// The file with this name owns the object but is not loaded.
    Unloaded(Seq<char>),
}

/// What building a puzzle defined in a file finds: the puzzle constructed
/// before, or the parameters to construct it.
pub enum PuzzleStep<'a, S, P> {
    /// The puzzle, constructed before.
    Cached(&'a Arc<P>),
    /// The parameters to construct it.
    Build(&'a Arc<S>),
}

/// What building a generated puzzle finds: the puzzle constructed before, or
/// the generator to run.
pub enum GeneratorStep<'a, G, P> {
    /// The puzzle, constructed before.
    Cached(&'a Arc<P>),
    /// The generator to run.
    Generate(&'a Arc<G>),
}

/// The position of the first pair whose key is `id`.
pub open spec fn first_key_index<X>(pairs: Seq<(String, X)>, id: Seq<char>) -> int {
    choose|i: int|
        0 <= i < pairs.len() && pairs[i].0@ == id && forall|j: int|
            0 <= j < i ==> #[trigger] pairs[j].0@ != id
}

/// A first position of a key is the one that `first_key_index` gives.
proof fn lemma_first_key_index<X>(pairs: Seq<(String, X)>, id: Seq<char>, i: int)
    requires
        0 <= i < pairs.len(),
        pairs[i].0@ == id,
        forall|j: int| 0 <= j < i ==> #[trigger] pairs[j].0@ != id,
    ensures
        first_key_index(pairs, id) == i,
{
    let k = first_key_index(pairs, id);
    assert(0 <= k < pairs.len() && pairs[k].0@ == id && forall|j: int|
        0 <= j < k ==> #[trigger] pairs[j].0@ != id);
    if k < i {
        assert(pairs[k].0@ != id);
    } else if i < k {
        assert(pairs[i].0@ != id);
    }
}

/// Sum of the numbers of dependents of the files.
pub open spec fn deps_total<S, G, P, C>(p: Seq<(String, LibraryFile<S, G, P, C>)>) -> nat
    decreases p.len(),
{
    if p.len() == 0 {
        0
    } else {
        deps_total(p.drop_last()) + p.last().1.dependents@.len()
    }
}

/// Replacing one file changes the sum by the difference of their numbers of
/// dependents.
proof fn lemma_deps_total_update<S, G, P, C>(p: Seq<(String, LibraryFile<S, G, P, C>)>, i: int, x: (String, LibraryFile<S, G, P, C>))
    requires
        0 <= i < p.len(),
    ensures
        deps_total(p.update(i, x)) + p[i].1.dependents@.len() == deps_total(p)
            + x.1.dependents@.len(),
    decreases p.len(),
{
    let q = p.update(i, x);
    if i == p.len() - 1 {
        assert(q.drop_last() =~= p.drop_last());
    } else {
        lemma_deps_total_update(p.drop_last(), i, x);
        assert(q.drop_last() =~= p.drop_last().update(i, x));
    }
}

/// The map without the keys of `ids`.
pub open spec fn without(m: Map<Seq<char>, String>, ids: Seq<Seq<char>>) -> Map<Seq<char>, String> {
    Map::new(|k: Seq<char>| m.contains_key(k) && !ids.contains(k), |k: Seq<char>| m[k])
}

/// Every key of `small` is in `big`, with the same value.
pub open spec fn submap(small: Map<Seq<char>, String>, big: Map<Seq<char>, String>) -> bool {
    forall|k: Seq<char>| #[trigger]
        small.contains_key(k) ==> big.contains_key(k) && small[k] == big[k]
}

/// Position of the first pair whose key is `id`.
pub fn find_key<X>(pairs: &Vec<(String, X)>, id: &str) -> (r: Option<usize>)
    ensures
        match r {
            Some(i) => {
                &&& i < pairs@.len()
                &&& pairs@[i as int].0@ == id@
                &&& forall|j: int| 0 <= j < i ==> #[trigger] pairs@[j].0@ != id@
                &&& keys_view(pairs@).contains(id@)
            },
            None => !keys_view(pairs@).contains(id@),
        },
{
    let mut i: usize = 0;
    while i < pairs.len()
        invariant
            i <= pairs@.len(),
            forall|j: int| 0 <= j < i ==> #[trigger] pairs@[j].0@ != id@,
        decreases pairs@.len() - i,
    {
        if str_equal(pairs[i].0.as_str(), id) {
            assert(keys_view(pairs@)[i as int] == id@);
            return Some(i);
        }
        i = i + 1;
    }
    assert(!keys_view(pairs@).contains(id@)) by {
        if keys_view(pairs@).contains(id@) {
            let k = choose|k: int| 0 <= k < keys_view(pairs@).len() && keys_view(pairs@)[k] == id@;
            assert(pairs@[k].0@ == id@);
        }
    }
    None
}

/// Removes the keys of `ids` from the map.
fn remove_all<X>(m: &mut StrMap<String>, ids: &Vec<(String, X)>)
    ensures
        final(m)@ == without(old(m)@, keys_view(ids@)),
{
    let ghost start = m@;
    let mut j: usize = 0;
    while j < ids.len()
        invariant
            j <= ids@.len(),
            m@ == without(start, keys_view(ids@).take(j as int)),
        decreases ids@.len() - j,
    {
        m.remove(ids[j].0.as_str());
        proof {
            let t0 = keys_view(ids@).take(j as int);
            let t1 = keys_view(ids@).take(j + 1);
            assert(t1 =~= t0.push(ids@[j as int].0@));
            assert forall|k: Seq<char>| #[trigger] t1.contains(k) == (t0.contains(k) || k
                == ids@[j as int].0@) by {
                if t1.contains(k) {
                    let a = choose|a: int| 0 <= a < t1.len() && t1[a] == k;
                    if a < j {
                        assert(t0[a] == k);
                    }
                }
                if t0.contains(k) {
                    let a = choose|a: int| 0 <= a < t0.len() && t0[a] == k;
                    assert(t1[a] == k);
                }
                if k == ids@[j as int].0@ {
                    assert(t1[j as int] == k);
                }
            }
            assert(m@ =~= without(start, t1));
        }
        j = j + 1;
    }
    assert(keys_view(ids@).take(ids@.len() as int) =~= keys_view(ids@));
}

/// The map with each key of `ids` owned by the file `f`.
pub open spec fn with_owner(m: Map<Seq<char>, String>, ids: Seq<Seq<char>>, f: Seq<char>) -> Map<
    Seq<char>,
    Seq<char>,
> {
    Map::new(
        |k: Seq<char>| m.contains_key(k) || ids.contains(k),
        |k: Seq<char>|
            if ids.contains(k) {
                f
            } else {
                m[k]@
            },
    )
}

/// The map with each value taken by its characters.
pub open spec fn chars_map(m: Map<Seq<char>, String>) -> Map<Seq<char>, Seq<char>> {
    Map::new(|k: Seq<char>| m.contains_key(k), |k: Seq<char>| m[k]@)
}

/// Records `f` as the owner of each of `ids`.
fn set_owner<X>(m: &mut StrMap<String>, ids: &Vec<(String, X)>, f: &str)
    ensures
        chars_map(final(m)@) == with_owner(old(m)@, keys_view(ids@), f@),
{
    let ghost start = old(m)@;
    let mut j: usize = 0;
    while j < ids.len()
        invariant
            j <= ids@.len(),
            chars_map(m@) == with_owner(start, keys_view(ids@).take(j as int), f@),
        decreases ids@.len() - j,
    {
        let ghost prev = m@;
        let key = ids[j].0.clone();
        let val = f.to_owned();
        m.insert(key, val);
        proof {
            assert(m@ == prev.insert(ids@[j as int].0@, val));
            let t0 = keys_view(ids@).take(j as int);
            let t1 = keys_view(ids@).take(j + 1);
            assert(t1 =~= t0.push(ids@[j as int].0@));
            assert forall|k: Seq<char>| #[trigger] t1.contains(k) == (t0.contains(k) || k
                == ids@[j as int].0@) by {
                if t1.contains(k) {
                    let a = choose|a: int| 0 <= a < t1.len() && t1[a] == k;
                    if a < j {
                        assert(t0[a] == k);
                    }
                }
                if t0.contains(k) {
                    let a = choose|a: int| 0 <= a < t0.len() && t0[a] == k;
                    assert(t1[a] == k);
                }
                if k == ids@[j as int].0@ {
                    assert(t1[j as int] == k);
                }
            }
            assert forall|k: Seq<char>| #[trigger] chars_map(m@).contains_key(k) implies chars_map(
                m@,
            )[k] == with_owner(start, t1, f@)[k] by {
                if k != ids@[j as int].0@ {
                    assert(chars_map(prev).contains_key(k));
                    assert(chars_map(prev)[k] == with_owner(start, t0, f@)[k]);
                }
            }
            assert forall|k: Seq<char>| #[trigger] chars_map(m@).contains_key(k) == with_owner(
                start,
                t1,
                f@,
            ).contains_key(k) by {
                assert(chars_map(prev).contains_key(k) == with_owner(start, t0, f@).contains_key(k));
            }
            assert(chars_map(m@) =~= with_owner(start, t1, f@));
        }
        j = j + 1;
    }
    assert(keys_view(ids@).take(ids@.len() as int) =~= keys_view(ids@));
}

/// Whether, in the files `m`, the file `z` is a dependent of the file `y`.
pub open spec fn dependent_of<S, G, P, C>(m: Map<Seq<char>, LibraryFile<S, G, P, C>>, y: Seq<char>, z: Seq<char>) -> bool {
    m.contains_key(y) && strs_view(m[y].dependents@).contains(z)
}

/// Whether, in the files `m`, the file `b` is reached from the file `a`
/// through at most `n` steps from a file to one of its dependents.
pub open spec fn reaches<S, G, P, C>(m: Map<Seq<char>, LibraryFile<S, G, P, C>>, a: Seq<char>, b: Seq<char>, n: nat) -> bool
    decreases n,
{
    m.contains_key(a) && (a == b || (n > 0 && exists|z: Seq<char>|
        #[trigger] dependent_of(m, a, z) && reaches(m, z, b, (n - 1) as nat)))
}

/// Every file of `s` that is reset has all its dependents in `base` (that
/// are in `s`) reset too, except perhaps the file `except`.
pub open spec fn reset_closed_except<S, G, P, C>(
    base: Map<Seq<char>, LibraryFile<S, G, P, C>>,
    s: Map<Seq<char>, LibraryFile<S, G, P, C>>,
    except: Option<Seq<char>>,
) -> bool {
    forall|y: Seq<char>, z: Seq<char>|
        #![trigger dependent_of(base, y, z), s[y]]
        Some(y) != except && s.contains_key(y) && s[y].is_reset() && dependent_of(base, y, z)
            && s.contains_key(z) ==> s[z].is_reset()
}

/// Global library of puzzles, puzzle generators and color systems.
#[derive(Debug)]
pub struct LibraryDb<S, G, P, C> {
    /// Map from filename to file.
    pub files: StrMap<LibraryFile<S, G, P, C>>,
    /// Map from the ID of a puzzle to the name of the file that defines it.
    pub puzzles: StrMap<String>,
    /// Map from the ID of a puzzle generator to the name of the file that
    /// defines it.
    pub puzzle_generators: StrMap<String>,
    /// Map from the ID of a color system to the name of the file that
    /// defines it.
    pub color_systems: StrMap<String>,
}

impl<S, G, P, C> LibraryDb<S, G, P, C> {
    /// The map from IDs of one kind to filenames.
    pub open spec fn owners(self, kind: ThingKind) -> Map<Seq<char>, String> {
        match kind {
            ThingKind::Puzzle => self.puzzles@,
            ThingKind::PuzzleGenerator => self.puzzle_generators@,
            ThingKind::ColorSystem => self.color_systems@,
        }
    }

    /// Every file that changed between `before` and `after` and had loaded
    /// successfully in `before` has none of the objects it defined owned any
    /// more.
    pub open spec fn changed_outputs_unowned(before: LibraryDb<S, G, P, C>, after: LibraryDb<S, G, P, C>) -> bool {
        forall|k: Seq<char>, kind: ThingKind, id: Seq<char>|
            #![trigger after.files@[k], after.owners(kind).contains_key(id)]
            before.files@.contains_key(k) && after.files@[k] != before.files@[k]
                && before.files@[k].output() is Some && before.files@[k].output()->0.ids(
                kind,
            ).contains(id) ==> !after.owners(kind).contains_key(id)
    }

    /// `changed_outputs_unowned`, for every changed file but `f`.
    pub open spec fn changed_outputs_unowned_except(
        before: LibraryDb<S, G, P, C>,
        after: LibraryDb<S, G, P, C>,
        f: Seq<char>,
    ) -> bool {
        forall|k: Seq<char>, kind: ThingKind, id: Seq<char>|
            #![trigger after.files@[k], after.owners(kind).contains_key(id)]
            k != f && before.files@.contains_key(k) && after.files@[k] != before.files@[k]
                && before.files@[k].output() is Some && before.files@[k].output()->0.ids(
                kind,
            ).contains(id) ==> !after.owners(kind).contains_key(id)
    }

    /// Whether a file that changed between `before` and `after`, and had
    /// loaded successfully in `before`, defined the object of this kind and
    /// ID.
    pub open spec fn defined_by_changed(
        before: LibraryDb<S, G, P, C>,
        after: LibraryDb<S, G, P, C>,
        kind: ThingKind,
        id: Seq<char>,
    ) -> bool {
        exists|k: Seq<char>|
            #![trigger after.files@[k]]
            before.files@.contains_key(k) && after.files@[k] != before.files@[k]
                && before.files@[k].output() is Some && before.files@[k].output()->0.ids(
                kind,
            ).contains(id)
    }

    /// Every object that `before` registers keeps its owner in `after`,
    /// unless a file that changed, and had loaded successfully, defined it.
    pub open spec fn others_keep_owners(before: LibraryDb<S, G, P, C>, after: LibraryDb<S, G, P, C>) -> bool {
        forall|kind: ThingKind, id: Seq<char>|
            #[trigger] before.owners(kind).contains_key(id) && !LibraryDb::defined_by_changed(
                before,
                after,
                kind,
                id,
            ) ==> after.owners(kind).contains_key(id) && after.owners(kind)[id] == before.owners(
                kind,
            )[id]
    }

    /// What unloading the file `f` does: nothing if it is not in the
    /// library; otherwise the file is reset, every other file is either
    /// unchanged or reset (keeping its name, path and contents), no file
    /// comes or goes, no object gains an owner, no object that `f` or any
    /// other file unloaded with it defined has an owner any more, and every
    /// other object keeps its owner.
    pub open spec fn unload_effect(before: LibraryDb<S, G, P, C>, after: LibraryDb<S, G, P, C>, f: Seq<char>) -> bool {
        &&& !before.files@.contains_key(f) ==> after == before
        &&& before.files@.contains_key(f) ==> after.files@[f].is_reset()
        &&& after.files@.dom() == before.files@.dom()
        &&& forall|k: Seq<char>| #[trigger]
            before.files@.contains_key(k) ==> after.files@[k].same_source(before.files@[k]) && (
            after.files@[k] == before.files@[k] || after.files@[k].is_reset())
        &&& reset_closed_except(before.files@, after.files@, None)
        &&& forall|k: Seq<char>|
            before.files@.contains_key(k) && #[trigger] after.files@[k] != before.files@[k] ==> exists|
                n: nat,
            | #[trigger] reaches(before.files@, f, k, n)
        &&& forall|kind: ThingKind| submap(#[trigger] after.owners(kind), before.owners(kind))
        &&& before.files@.contains_key(f) && before.files@[f].output() is Some ==> forall|
            kind: ThingKind,
            id: Seq<char>,
        |
            before.files@[f].output()->0.ids(kind).contains(id) ==> !#[trigger] after.owners(
                kind,
            ).contains_key(id)
        &&& LibraryDb::changed_outputs_unowned(before, after)
        &&& LibraryDb::others_keep_owners(before, after)
    }

    /// `after` is what unloading the file `f` from `before` gives, with the
    /// files then changed by `files_after` and the owners of the objects
    /// left as they are.
    pub open spec fn unloaded_then(
        before: LibraryDb<S, G, P, C>,
        after: LibraryDb<S, G, P, C>,
        f: Seq<char>,
        files_after: spec_fn(Map<Seq<char>, LibraryFile<S, G, P, C>>) -> Map<Seq<char>, LibraryFile<S, G, P, C>>,
    ) -> bool {
        exists|mid: LibraryDb<S, G, P, C>|
            #[trigger] LibraryDb::unload_effect(before, mid, f) && after.files@ == files_after(
                mid.files@,
            ) && forall|kind: ThingKind| #[trigger] after.owners(kind) == mid.owners(kind)
    }

    /// What recording the result of loading the file `f` does: nothing if
    /// it is not in the library; otherwise its loading state becomes
    /// `Done(result)`, nothing else of the files changes, and on success
    /// each object it defines is owned by `f`.
    pub open spec fn load_effect(
        before: LibraryDb<S, G, P, C>,
        after: LibraryDb<S, G, P, C>,
        f: Seq<char>,
        result: Result<LibraryFileLoadOutput<S, G, P, C>, String>,
    ) -> bool {
        &&& !before.files@.contains_key(f) ==> after == before
        &&& before.files@.contains_key(f) ==> {
            let old_file = before.files@[f];
            let new_file = after.files@[f];
            &&& after.files@.dom() == before.files@.dom()
            &&& forall|k: Seq<char>| #[trigger]
                before.files@.contains_key(k) && k != f ==> after.files@[k] == before.files@[k]
            &&& new_file.name == old_file.name && new_file.path == old_file.path
                && new_file.contents == old_file.contents
            &&& new_file.dependents == old_file.dependents
            &&& new_file.load_state == LibraryFileLoadState::Done(result)
            &&& forall|kind: ThingKind| #[trigger]
                chars_map(after.owners(kind)) == match result {
                    Ok(out) => with_owner(before.owners(kind), out.ids(kind), f),
                    Err(_) => chars_map(before.owners(kind)),
                }
        }
    }

    /// Constructs a new empty library.
    pub fn new() -> (r: Self)
        ensures
            r.files@ == Map::<Seq<char>, LibraryFile<S, G, P, C>>::empty(),
            r.puzzles@ == Map::<Seq<char>, String>::empty(),
            r.puzzle_generators@ == Map::<Seq<char>, String>::empty(),
            r.color_systems@ == Map::<Seq<char>, String>::empty(),
    {
        LibraryDb {
            files: StrMap::new(),
            puzzles: StrMap::new(),
            puzzle_generators: StrMap::new(),
            color_systems: StrMap::new(),
        }
    }

    /// Unloads a file: it loses its loading state and its dependents, the
    /// dependents are unloaded too, and the objects that it defined are no
    /// longer in the library. A file that is not in the library changes
    /// nothing.
    pub fn unload_file(&mut self, filename: &str)
        ensures
            LibraryDb::unload_effect(*old(self), *final(self), filename@),
            deps_total(final(self).files.pairs()) <= deps_total(old(self).files.pairs()),
        decreases deps_total(old(self).files.pairs()),
    {
        let placeholder = LibraryFile::new(String::new(), None, String::new());
        let ghost p0 = self.files.pairs();
        let ghost db0 = *self;
        let old_file = match self.files.replace(filename, placeholder) {
            Some(f) => f,
            None => return ,
        };
        let ghost i = skeys_index(p0, filename@);
        let LibraryFile { name, path, contents, load_state, dependents } = old_file;
        let reset = LibraryFile::new(name, path, contents);
        let ghost p1 = self.files.pairs();
        let _ = self.files.replace(filename, reset);
        proof {
            db0.files.lemma_pairs();
            assert(p0[i].0@ == filename@);
            assert(p1[i].0 == p0[i].0);
            lemma_skeys_index(p1, i);
            lemma_deps_total_update(p0, i, p1[i]);
            lemma_deps_total_update(p1, i, self.files.pairs()[i]);
            assert(self.files.pairs() =~= p0.update(i, self.files.pairs()[i]));
        }
        let ghost db1 = *self;
        proof {
            assert(reaches(db0.files@, filename@, filename@, 0));
            assert forall|k: Seq<char>|
                db0.files@.contains_key(k) && #[trigger] self.files@[k] != db0.files@[k] implies exists|
                    n: nat,
                | #[trigger] reaches(db0.files@, filename@, k, n) by {
                if k != filename@ {
                    assert(self.files@[k] == db0.files@[k]);
                } else {
                    assert(reaches(db0.files@, filename@, k, 0));
                }
            }
        }
        let mut j: usize = 0;
        while j < dependents.len()
            invariant
                j <= dependents@.len(),
                p0 == old(self).files.pairs(),
                deps_total(db1.files.pairs()) + dependents@.len() == deps_total(p0),
                deps_total(self.files.pairs()) <= deps_total(db1.files.pairs()),
                self.files@.dom() == db0.files@.dom(),
                db0.files@.contains_key(filename@),
                self.files@[filename@].is_reset(),
                forall|k: Seq<char>| #[trigger]
                    db0.files@.contains_key(k) ==> self.files@[k].same_source(db0.files@[k]) && (
                    self.files@[k] == db0.files@[k] || self.files@[k].is_reset()),
                forall|kind: ThingKind| submap(#[trigger] self.owners(kind), db0.owners(kind)),
                dependents@ == db0.files@[filename@].dependents@,
                reset_closed_except(db0.files@, self.files@, Some(filename@)),
                forall|d: int|
                    0 <= d < j && self.files@.contains_key(dependents@[d]@) ==> self.files@[#[trigger] dependents@[d]@].is_reset(),
                forall|k: Seq<char>|
                    db0.files@.contains_key(k) && #[trigger] self.files@[k] != db0.files@[k] ==> exists|
                        n: nat,
                    | #[trigger] reaches(db0.files@, filename@, k, n),
                LibraryDb::changed_outputs_unowned_except(db0, *self, filename@),
                LibraryDb::others_keep_owners(db0, *self),
            decreases dependents@.len() - j,
        {
            let ghost before = *self;
            self.unload_file(dependents[j].as_str());
            proof {
                lemma_files_step(db0.files@, before.files@, self.files@, filename@, dependents@, j as int);
                lemma_owners_step(db0, before, *self, filename@);
            }
            j = j + 1;
        }
        let ghost db2 = *self;
        let ghost out0 = db0.files@[filename@].output();
        assert(out0 is Some ==> (load_state matches LibraryFileLoadState::Done(Ok(o)) && out0 == Some(o)));
        proof {
            let t = db0.files@;
            let s1 = self.files@;
            assert forall|y: Seq<char>, z: Seq<char>|
                #![trigger dependent_of(t, y, z), s1[y]]
                s1.contains_key(y) && s1[y].is_reset() && dependent_of(t, y, z) && s1.contains_key(z)
                    implies s1[z].is_reset() by {
                if y == filename@ {
                    let d = choose|d: int| 0 <= d < strs_view(t[y].dependents@).len() && strs_view(t[y].dependents@)[d] == z;
                    assert(dependents@[d]@ == z);
                }
            }
        }
        assert(submap(db2.owners(ThingKind::Puzzle), db0.owners(ThingKind::Puzzle)));
        assert(submap(db2.owners(ThingKind::PuzzleGenerator), db0.owners(ThingKind::PuzzleGenerator)));
        assert(submap(db2.owners(ThingKind::ColorSystem), db0.owners(ThingKind::ColorSystem)));
        if let LibraryFileLoadState::Done(Ok(out)) = load_state {
            remove_all(&mut self.puzzles, &out.puzzles);
            remove_all(&mut self.puzzle_generators, &out.puzzle_generators);
            remove_all(&mut self.color_systems, &out.color_systems);
        }
        proof {
            assert forall|kind: ThingKind| submap(#[trigger] self.owners(kind), db2.owners(kind)) by {}
            assert forall|k: Seq<char>, kind: ThingKind, id: Seq<char>|
                #![trigger self.files@[k], self.owners(kind).contains_key(id)]
                db0.files@.contains_key(k) && self.files@[k] != db0.files@[k]
                    && db0.files@[k].output() is Some && db0.files@[k].output()->0.ids(
                    kind,
                ).contains(id) implies !self.owners(kind).contains_key(id) by {
                assert(submap(self.owners(kind), db2.owners(kind)));
                if k != filename@ {
                    assert(db2.files@[k] == self.files@[k]);
                    assert(!db2.owners(kind).contains_key(id));
                }
            }
            assert forall|kind: ThingKind, id: Seq<char>|
                #[trigger] db0.owners(kind).contains_key(id) && !LibraryDb::defined_by_changed(
                    db0,
                    *self,
                    kind,
                    id,
                ) implies self.owners(kind).contains_key(id) && self.owners(kind)[id] == db0.owners(
                kind,
            )[id] by {
                assert(self.files@ == db2.files@);
                assert(!LibraryDb::defined_by_changed(db0, db2, kind, id)) by {
                    if LibraryDb::defined_by_changed(db0, db2, kind, id) {
                        let k = choose|k: Seq<char>|
                            #![trigger db2.files@[k]]
                            db0.files@.contains_key(k) && db2.files@[k] != db0.files@[k]
                                && db0.files@[k].output() is Some && db0.files@[k].output()->0.ids(
                                kind,
                            ).contains(id);
                        assert(self.files@[k] != db0.files@[k]);
                    }
                }
                if out0 is Some {
                    assert(self.files@[filename@].load_state is Unloaded);
                    assert(self.files@[filename@] != db0.files@[filename@]);
                    if out0->0.ids(kind).contains(id) {
                        assert(self.files@[filename@] != db0.files@[filename@]);
                        assert(LibraryDb::defined_by_changed(db0, *self, kind, id));
                    }
                }
            }
        }
    }

    /// What looking up an object of a kind and ID finds: the name of the
    /// file that defines it, if that file is loaded and lists the object.
    pub open spec fn spec_file_for(self, kind: ThingKind, id: Seq<char>) -> Result<
        Seq<char>,
        LookupFailure,
    > {
        if !self.owners(kind).contains_key(id) {
            Err(LookupFailure::NotFound)
        } else {
            let f = self.owners(kind)[id]@;
            if !self.files@.contains_key(f) {
                Err(LookupFailure::NotFound)
            } else {
                match self.files@[f].output() {
                    Some(out) => if out.ids(kind).contains(id) {
                        Ok(f)
                    } else {
                        Err(LookupFailure::NotFound)
                    },
                    None => Err(LookupFailure::Unloaded(f)),
                }
            }
        }
    }

    /// Returns the file that defines the object of the given kind and ID:
    /// an error if no file is registered for it, or if the file does not
    /// list it, or if the file is not loaded.
    pub fn file_result_for(&self, kind: ThingKind, id: &str) -> (r: Result<&LibraryFile<S, G, P, C>, LibraryError>)
        ensures
            match self.spec_file_for(kind, id@) {
                Ok(f) => r is Ok && r->Ok_0 == self.files@[f],
                Err(LookupFailure::NotFound) => r matches Err(LibraryError::NotFound { kind: k, id: i })
                    && k == kind && i@ == id@,
                Err(LookupFailure::Unloaded(f)) => r matches Err(
                    LibraryError::Unloaded { file, kind: k, id: i },
                ) && file@ == f && k == kind && i@ == id@,
            },
    {
        let owners = match kind {
            ThingKind::Puzzle => &self.puzzles,
            ThingKind::PuzzleGenerator => &self.puzzle_generators,
            ThingKind::ColorSystem => &self.color_systems,
        };
        let filename = match owners.get(id) {
            Some(f) => f,
            None => return Err(LibraryError::NotFound { kind, id: id.to_owned() }),
        };
        let file = match self.files.get(filename.as_str()) {
            Some(f) => f,
            None => return Err(LibraryError::NotFound { kind, id: id.to_owned() }),
        };
        match &file.load_state {
            LibraryFileLoadState::Done(Ok(out)) => {
                let found = match kind {
                    ThingKind::Puzzle => find_key(&out.puzzles, id).is_some(),
                    ThingKind::PuzzleGenerator => find_key(&out.puzzle_generators, id).is_some(),
                    ThingKind::ColorSystem => find_key(&out.color_systems, id).is_some(),
                };
                if found {
                    Ok(file)
                } else {
                    Err(LibraryError::NotFound { kind, id: id.to_owned() })
                }
            },
            _ => Err(LibraryError::Unloaded { file: filename.clone(), kind, id: id.to_owned() }),
        }
    }

    /// What building the puzzle `id` that a file defines finds, once the
    /// file is found as `file_result_for` finds it: the puzzle constructed
    /// before, or the parameters to construct it.
    pub open spec fn spec_puzzle_step(self, id: Seq<char>) -> Option<LazyPuzzle<S, P>> {
        match self.spec_file_for(ThingKind::Puzzle, id) {
            Ok(f) => {
                let out = self.files@[f].output()->0;
                Some(out.puzzles@[first_key_index(out.puzzles@, id)].1)
            },
            Err(_) => None,
        }
    }

    /// What building a puzzle of the generator `generator_id` finds, once
    /// the file is found as `file_result_for` finds it.
    pub open spec fn spec_generator_step(self, generator_id: Seq<char>) -> Option<
        LazyPuzzleGenerator<G, P>,
    > {
        match self.spec_file_for(ThingKind::PuzzleGenerator, generator_id) {
            Ok(f) => {
                let out = self.files@[f].output()->0;
                Some(out.puzzle_generators@[first_key_index(out.puzzle_generators@, generator_id)].1)
            },
            Err(_) => None,
        }
    }

    /// Looks up the puzzle `id` for building it: the puzzle constructed
    /// before if there is one, otherwise the parameters to construct it; the
    /// errors of `file_result_for` if no loaded file defines it.
    pub fn puzzle_step(&self, id: &str) -> (r: Result<PuzzleStep<'_, S, P>, LibraryError>)
        ensures
            match self.spec_file_for(ThingKind::Puzzle, id@) {
                Ok(_) => {
                    let lazy = self.spec_puzzle_step(id@)->0;
                    match lazy.constructed {
                        Some(p) => r matches Ok(PuzzleStep::Cached(q)) && *q == p,
                        None => r matches Ok(PuzzleStep::Build(sp)) && *sp == lazy.spec,
                    }
                },
                Err(LookupFailure::NotFound) => r matches Err(LibraryError::NotFound { kind: k, id: i })
                    && k == ThingKind::Puzzle && i@ == id@,
                Err(LookupFailure::Unloaded(f)) => r matches Err(
                    LibraryError::Unloaded { file, kind: k, id: i },
                ) && file@ == f && k == ThingKind::Puzzle && i@ == id@,
            },
    {
        let file = match self.file_result_for(ThingKind::Puzzle, id) {
            Ok(file) => file,
            Err(e) => return Err(e),
        };
        let ghost f = self.spec_file_for(ThingKind::Puzzle, id@)->Ok_0;
        match &file.load_state {
            LibraryFileLoadState::Done(Ok(out)) => match find_key(&out.puzzles, id) {
                Some(i) => {
                    proof {
                        lemma_first_key_index(out.puzzles@, id@, i as int);
                    }
                    let lazy = &out.puzzles[i].1;
                    match &lazy.constructed {
                        Some(p) => Ok(PuzzleStep::Cached(p)),
                        None => Ok(PuzzleStep::Build(&lazy.spec)),
                    }
                },
                None => {
                    proof {
                        assert(self.files@[f].output()->0 == *out);
                    }
                    Err(LibraryError::NotFound { kind: ThingKind::Puzzle, id: id.to_owned() })
                },
            },
            _ => Err(LibraryError::NotFound { kind: ThingKind::Puzzle, id: id.to_owned() }),
        }
    }

    /// Looks up the generator `generator_id` for building its puzzle `id`:
    /// the puzzle constructed before if there is one, otherwise the
    /// generator to run; the errors of `file_result_for` if no loaded file
    /// defines the generator.
    pub fn generator_step(&self, generator_id: &str, id: &str) -> (r: Result<
        GeneratorStep<'_, G, P>,
        LibraryError,
    >)
        ensures
            match self.spec_file_for(ThingKind::PuzzleGenerator, generator_id@) {
                Ok(_) => {
                    let lazy = self.spec_generator_step(generator_id@)->0;
                    if lazy.constructed@.contains_key(id@) {
                        r matches Ok(GeneratorStep::Cached(q)) && *q == lazy.constructed@[id@]
                    } else {
                        r matches Ok(GeneratorStep::Generate(g)) && *g == lazy.generator
                    }
                },
                Err(LookupFailure::NotFound) => r matches Err(LibraryError::NotFound { kind: k, id: i })
                    && k == ThingKind::PuzzleGenerator && i@ == generator_id@,
                Err(LookupFailure::Unloaded(f)) => r matches Err(
                    LibraryError::Unloaded { file, kind: k, id: i },
                ) && file@ == f && k == ThingKind::PuzzleGenerator && i@ == generator_id@,
            },
    {
        let file = match self.file_result_for(ThingKind::PuzzleGenerator, generator_id) {
            Ok(file) => file,
            Err(e) => return Err(e),
        };
        let ghost f = self.spec_file_for(ThingKind::PuzzleGenerator, generator_id@)->Ok_0;
        match &file.load_state {
            LibraryFileLoadState::Done(Ok(out)) => match find_key(&out.puzzle_generators, generator_id) {
                Some(i) => {
                    proof {
                        lemma_first_key_index(out.puzzle_generators@, generator_id@, i as int);
                    }
                    let lazy = &out.puzzle_generators[i].1;
                    match lazy.cached(id) {
                        Some(p) => Ok(GeneratorStep::Cached(p)),
                        None => Ok(GeneratorStep::Generate(&lazy.generator)),
                    }
                },
                None => {
                    proof {
                        assert(self.files@[f].output()->0 == *out);
                    }
                    Err(LibraryError::NotFound { kind: ThingKind::PuzzleGenerator, id: generator_id.to_owned() })
                },
            },
            _ => Err(LibraryError::NotFound { kind: ThingKind::PuzzleGenerator, id: generator_id.to_owned() }),
        }
    }

    /// The color system `id` that a file defines, once the file is found as
    /// `file_result_for` finds it.
    pub open spec fn spec_color_system(self, id: Seq<char>) -> Option<Arc<C>> {
        match self.spec_file_for(ThingKind::ColorSystem, id) {
            Ok(f) => {
                let out = self.files@[f].output()->0;
                Some(out.color_systems@[first_key_index(out.color_systems@, id)].1)
            },
            Err(_) => None,
        }
    }

    /// Returns the color system with ID `id`, as the file that defines it
    /// holds it; the errors of `file_result_for` if no loaded file defines
    /// it.
    pub fn build_color_system(&self, id: &str) -> (r: Result<&Arc<C>, LibraryError>)
        ensures
            match self.spec_file_for(ThingKind::ColorSystem, id@) {
                Ok(_) => r matches Ok(c) && *c == self.spec_color_system(id@)->0,
                Err(LookupFailure::NotFound) => r matches Err(LibraryError::NotFound { kind: k, id: i })
                    && k == ThingKind::ColorSystem && i@ == id@,
                Err(LookupFailure::Unloaded(f)) => r matches Err(
                    LibraryError::Unloaded { file, kind: k, id: i },
                ) && file@ == f && k == ThingKind::ColorSystem && i@ == id@,
            },
    {
        let file = match self.file_result_for(ThingKind::ColorSystem, id) {
            Ok(file) => file,
            Err(e) => return Err(e),
        };
        let ghost f = self.spec_file_for(ThingKind::ColorSystem, id@)->Ok_0;
        match &file.load_state {
            LibraryFileLoadState::Done(Ok(out)) => match find_key(&out.color_systems, id) {
                Some(i) => {
                    proof {
                        lemma_first_key_index(out.color_systems@, id@, i as int);
                    }
                    Ok(&out.color_systems[i].1)
                },
                None => {
                    proof {
                        assert(self.files@[f].output()->0 == *out);
                    }
                    Err(LibraryError::NotFound { kind: ThingKind::ColorSystem, id: id.to_owned() })
                },
            },
            _ => Err(LibraryError::NotFound { kind: ThingKind::ColorSystem, id: id.to_owned() }),
        }
    }

    /// Keeps a constructed puzzle `id` in the file that defines it, as
    /// `puzzle_step` finds it; if no loaded file defines it, nothing changes.
    pub fn record_puzzle(&mut self, id: &str, puzzle: Arc<P>)
        ensures
            final(self).puzzles == old(self).puzzles,
            final(self).puzzle_generators == old(self).puzzle_generators,
            final(self).color_systems == old(self).color_systems,
            old(self).spec_file_for(ThingKind::Puzzle, id@) is Err ==> *final(self) == *old(self),
            old(self).spec_file_for(ThingKind::Puzzle, id@) matches Ok(f) ==> {
                let o = old(self).files@[f].output()->0;
                let n = final(self).files@[f].output()->0;
                let k = first_key_index(o.puzzles@, id@);
                &&& final(self).files@.dom() == old(self).files@.dom()
                &&& forall|x: Seq<char>| #[trigger]
                    old(self).files@.contains_key(x) && x != f ==> final(self).files@[x] == old(
                        self,
                    ).files@[x]
                &&& final(self).files@[f].same_source(old(self).files@[f])
                &&& final(self).files@[f].dependents == old(self).files@[f].dependents
                &&& final(self).files@[f].output() is Some
                &&& n.puzzles@ == o.puzzles@.update(
                    k,
                    (o.puzzles@[k].0, LazyPuzzle { spec: o.puzzles@[k].1.spec, constructed: Some(puzzle) }),
                )
                &&& n.puzzle_generators == o.puzzle_generators
                &&& n.color_systems == o.color_systems
                &&& final(self).spec_puzzle_step(id@) == Some(
                    LazyPuzzle { spec: o.puzzles@[k].1.spec, constructed: Some(puzzle) },
                )
            },
    {
        let fname = match self.puzzles.get(id) {
            Some(f) => f.clone(),
            None => return ,
        };
        match self.file_result_for(ThingKind::Puzzle, id) {
            Ok(_) => {},
            Err(_) => return ,
        }
        let ghost f = fname@;
        let ghost o = old(self).files@[f].output()->0;
        let ghost k = first_key_index(o.puzzles@, id@);
        let placeholder = LibraryFile::new(String::new(), None, String::new());
        let file = match self.files.replace(fname.as_str(), placeholder) {
            Some(file) => file,
            None => return ,
        };
        let LibraryFile { name, path, contents, load_state, dependents } = file;
        let load_state = match load_state {
            LibraryFileLoadState::Done(Ok(mut out)) => {
                match find_key(&out.puzzles, id) {
                    Some(i) => {
                        proof {
                            lemma_first_key_index(out.puzzles@, id@, i as int);
                        }
                        let ghost before = out.puzzles@;
                        let mut pair = out.puzzles.remove(i);
                        pair.1.record(puzzle);
                        out.puzzles.insert(i, pair);
                        assert(out.puzzles@ =~= before.update(i as int, out.puzzles@[i as int]));
                    },
                    None => {},
                }
                LibraryFileLoadState::Done(Ok(out))
            },
            other => other,
        };
        let _ = self.files.replace(
            fname.as_str(),
            LibraryFile { name, path, contents, load_state, dependents },
        );
        proof {
            let n = self.files@[f].output()->0;
            assert(keys_view(n.puzzles@) =~= keys_view(o.puzzles@));
            assert(n.ids(ThingKind::Puzzle) == o.ids(ThingKind::Puzzle));
            assert(self.spec_file_for(ThingKind::Puzzle, id@) == Ok::<Seq<char>, LookupFailure>(f));
            assert forall|j: int| 0 <= j < k implies #[trigger] n.puzzles@[j].0@ != id@ by {
                assert(n.puzzles@[j] == o.puzzles@[j]);
            }
            lemma_first_key_index(n.puzzles@, id@, k);
        }
    }

    /// Keeps the constructed puzzle `id` of the generator `generator_id` in
    /// the file that defines the generator, as `generator_step` finds it; if
    /// no loaded file defines the generator, nothing changes.
    pub fn record_generated(&mut self, generator_id: &str, id: String, puzzle: Arc<P>)
        ensures
            final(self).puzzles == old(self).puzzles,
            final(self).puzzle_generators == old(self).puzzle_generators,
            final(self).color_systems == old(self).color_systems,
            old(self).spec_file_for(ThingKind::PuzzleGenerator, generator_id@) is Err ==> *final(self)
                == *old(self),
            old(self).spec_file_for(ThingKind::PuzzleGenerator, generator_id@) matches Ok(f) ==> {
                let o = old(self).files@[f].output()->0;
                let n = final(self).files@[f].output()->0;
                let k = first_key_index(o.puzzle_generators@, generator_id@);
                let lazy = o.puzzle_generators@[k].1;
                &&& final(self).files@.dom() == old(self).files@.dom()
                &&& forall|x: Seq<char>| #[trigger]
                    old(self).files@.contains_key(x) && x != f ==> final(self).files@[x] == old(
                        self,
                    ).files@[x]
                &&& final(self).files@[f].same_source(old(self).files@[f])
                &&& final(self).files@[f].dependents == old(self).files@[f].dependents
                &&& final(self).files@[f].output() is Some
                &&& n.puzzle_generators@.len() == o.puzzle_generators@.len()
                &&& forall|j: int|
                    0 <= j < o.puzzle_generators@.len() && j != k ==> #[trigger] n.puzzle_generators@[j]
                        == o.puzzle_generators@[j]
                &&& n.puzzle_generators@[k].0 == o.puzzle_generators@[k].0
                &&& n.puzzle_generators@[k].1.generator == lazy.generator
                &&& n.puzzle_generators@[k].1.constructed@ == lazy.constructed@.insert(id@, puzzle)
                &&& n.puzzles == o.puzzles
                &&& n.color_systems == o.color_systems
                &&& final(self).spec_generator_step(generator_id@) == Some(n.puzzle_generators@[k].1)
            },
    {
        let fname = match self.puzzle_generators.get(generator_id) {
            Some(f) => f.clone(),
            None => return ,
        };
        match self.file_result_for(ThingKind::PuzzleGenerator, generator_id) {
            Ok(_) => {},
            Err(_) => return ,
        }
        let ghost f = fname@;
        let ghost o = old(self).files@[f].output()->0;
        let ghost k = first_key_index(o.puzzle_generators@, generator_id@);
        let placeholder = LibraryFile::new(String::new(), None, String::new());
        let file = match self.files.replace(fname.as_str(), placeholder) {
            Some(file) => file,
            None => return ,
        };
        let LibraryFile { name, path, contents, load_state, dependents } = file;
        let load_state = match load_state {
            LibraryFileLoadState::Done(Ok(mut out)) => {
                match find_key(&out.puzzle_generators, generator_id) {
                    Some(i) => {
                        proof {
                            lemma_first_key_index(out.puzzle_generators@, generator_id@, i as int);
                        }
                        let ghost before = out.puzzle_generators@;
                        let mut pair = out.puzzle_generators.remove(i);
                        pair.1.record(id, puzzle);
                        out.puzzle_generators.insert(i, pair);
                        assert(out.puzzle_generators@ =~= before.update(
                            i as int,
                            out.puzzle_generators@[i as int],
                        ));
                    },
                    None => {},
                }
                LibraryFileLoadState::Done(Ok(out))
            },
            other => other,
        };
        let _ = self.files.replace(
            fname.as_str(),
            LibraryFile { name, path, contents, load_state, dependents },
        );
        proof {
            let n = self.files@[f].output()->0;
            assert(keys_view(n.puzzle_generators@) =~= keys_view(o.puzzle_generators@));
            assert(n.ids(ThingKind::PuzzleGenerator) == o.ids(ThingKind::PuzzleGenerator));
            assert(self.spec_file_for(ThingKind::PuzzleGenerator, generator_id@) == Ok::<
                Seq<char>,
                LookupFailure,
            >(f));
            assert forall|j: int| 0 <= j < k implies #[trigger] n.puzzle_generators@[j].0@
                != generator_id@ by {
                assert(n.puzzle_generators@[j] == o.puzzle_generators@[j]);
            }
            lemma_first_key_index(n.puzzle_generators@, generator_id@, k);
        }
    }

    /// Adds a file to the library, unloaded. If a file of that name is
    /// there with the same path and contents, nothing changes; otherwise the
    /// file there is unloaded (with its dependents) and replaced.
    pub fn add_file(&mut self, filename: String, path: Option<String>, contents: String)
        ensures
            old(self).files@.contains_key(filename@) && old(self).files@[filename@].name@ == filename@
                && opt_view(old(self).files@[filename@].path) == opt_view(path) && old(
                self).files@[filename@].contents@ == contents@ ==> *final(self) == *old(self),
            !(old(self).files@.contains_key(filename@) && old(self).files@[filename@].name@ == filename@
                && opt_view(old(self).files@[filename@].path) == opt_view(path) && old(
                self).files@[filename@].contents@ == contents@) ==> {
                &&& final(self).files@.dom() == old(self).files@.dom().insert(filename@)
                &&& final(self).files@[filename@].is_fresh(filename, path, contents)
                &&& forall|k: Seq<char>| #[trigger]
                    old(self).files@.contains_key(k) && k != filename@ ==> final(
                        self).files@[k].same_source(old(self).files@[k]) && (final(self).files@[k]
                        == old(self).files@[k] || final(self).files@[k].is_reset())
                &&& forall|kind: ThingKind| submap(#[trigger] final(self).owners(kind), old(self).owners(kind))
                &&& LibraryDb::unloaded_then(
                    *old(self),
                    *final(self),
                    filename@,
                    |m: Map<Seq<char>, LibraryFile<S, G, P, C>>| m.insert(filename@, final(self).files@[filename@]),
                )
            },
    {
        let file = LibraryFile::new(filename.clone(), path, contents);
        if let Some(existing) = self.files.get(filename.as_str()) {
            if existing.eq_source(&file) {
                return ;
            }
        }
        self.unload_file(filename.as_str());
        let ghost mid = *self;
        let ghost key = filename@;
        self.files.insert(filename, file);
        assert forall|kind: ThingKind| #[trigger] self.owners(kind) == mid.owners(kind) by {}
        assert(self.files@ == mid.files@.insert(key, self.files@[key]));
        assert(LibraryDb::unload_effect(*old(self), mid, key));
    }

    /// Unloads and removes a file from the library.
    pub fn remove_file(&mut self, filename: &str)
        ensures
            final(self).files@.dom() == old(self).files@.dom().remove(filename@),
            forall|k: Seq<char>| #[trigger]
                old(self).files@.contains_key(k) && k != filename@ ==> final(self).files@[k].same_source(
                    old(self).files@[k],
                ) && (final(self).files@[k] == old(self).files@[k] || final(self).files@[k].is_reset()),
            forall|kind: ThingKind| submap(#[trigger] final(self).owners(kind), old(self).owners(kind)),
            old(self).files@.contains_key(filename@) && old(self).files@[filename@].output() is Some
                ==> {
                let out = old(self).files@[filename@].output()->0;
                forall|kind: ThingKind, id: Seq<char>|
                    out.ids(kind).contains(id) ==> !#[trigger] final(self).owners(kind).contains_key(id)
            },
            LibraryDb::unloaded_then(
                *old(self),
                *final(self),
                filename@,
                |m: Map<Seq<char>, LibraryFile<S, G, P, C>>| m.remove(filename@),
            ),
    {
        self.unload_file(filename);
        let ghost mid = *self;
        self.files.remove(filename);
        assert forall|kind: ThingKind| #[trigger] self.owners(kind) == mid.owners(kind) by {}
        assert(self.files@ == mid.files@.remove(filename@));
        assert(LibraryDb::unload_effect(*old(self), mid, filename@));
    }

    /// Records that a file depends on another: when `filename` is unloaded,
    /// `dependent` is unloaded too. A file not in the library changes
    /// nothing.
    pub fn add_dependent(&mut self, filename: &str, dependent: String)
        ensures
            !old(self).files@.contains_key(filename@) ==> *final(self) == *old(self),
            old(self).files@.contains_key(filename@) ==> {
                let f = old(self).files@[filename@];
                let g = final(self).files@[filename@];
                &&& final(self).files@.dom() == old(self).files@.dom()
                &&& forall|k: Seq<char>| #[trigger]
                    old(self).files@.contains_key(k) && k != filename@ ==> final(self).files@[k]
                        == old(self).files@[k]
                &&& g.name == f.name && g.path == f.path && g.contents == f.contents
                &&& g.load_state == f.load_state
                &&& g.dependents@ == f.dependents@.push(dependent)
            },
            final(self).puzzles == old(self).puzzles,
            final(self).puzzle_generators == old(self).puzzle_generators,
            final(self).color_systems == old(self).color_systems,
    {
        let placeholder = LibraryFile::new(String::new(), None, String::new());
        let mut file = match self.files.replace(filename, placeholder) {
            Some(f) => f,
            None => return ,
        };
        file.dependents.push(dependent);
        let _ = self.files.replace(filename, file);
    }

    /// Records the result of loading a file: its loading state becomes
    /// `Done(result)`, and on success each object it defines is registered
    /// as owned by it. A file not in the library changes nothing.
    pub fn finish_loading(&mut self, filename: &str, result: Result<LibraryFileLoadOutput<S, G, P, C>, String>)
        ensures
            LibraryDb::load_effect(*old(self), *final(self), filename@, result),
    {
        let placeholder = LibraryFile::new(String::new(), None, String::new());
        let mut file = match self.files.replace(filename, placeholder) {
            Some(f) => f,
            None => return ,
        };
        if let Ok(out) = &result {
            set_owner(&mut self.puzzles, &out.puzzles, filename);
            set_owner(&mut self.puzzle_generators, &out.puzzle_generators, filename);
            set_owner(&mut self.color_systems, &out.color_systems, filename);
        }
        let ghost owners_done = *self;
        file.load_state = LibraryFileLoadState::Done(result);
        let _ = self.files.replace(filename, file);
        proof {
            assert forall|kind: ThingKind| #[trigger]
                chars_map(self.owners(kind)) == match result {
                    Ok(out) => with_owner(old(self).owners(kind), out.ids(kind), filename@),
                    Err(_) => chars_map(old(self).owners(kind)),
                } by {
                assert(self.owners(kind) == owners_done.owners(kind));
                match result {
                    Ok(out) => {},
                    Err(_) => {
                        assert(owners_done.owners(kind) == old(self).owners(kind));
                    },
                }
            }
            let old_file = old(self).files@[filename@];
            let new_file = self.files@[filename@];
            assert(self.files@.dom() == old(self).files@.dom());
            assert(forall|k: Seq<char>| #[trigger]
                old(self).files@.contains_key(k) && k != filename@ ==> self.files@[k] == old(self).files@[k]);
            assert(new_file.name == old_file.name && new_file.path == old_file.path
                && new_file.contents == old_file.contents);
            assert(new_file.dependents == old_file.dependents);
            assert(new_file.load_state == LibraryFileLoadState::Done(result));
        }
    }
}

/// The files after unloading the dependent at position `j` of the file `f`,
/// in the middle of unloading `f` from the files `t`: resetting stays closed
/// under dependents (but for `f`), every changed file is still reached from
/// `f`, and the dependents up to `j` are reset.
proof fn lemma_files_step<S, G, P, C>(
    t: Map<Seq<char>, LibraryFile<S, G, P, C>>,
    s0: Map<Seq<char>, LibraryFile<S, G, P, C>>,
    s1: Map<Seq<char>, LibraryFile<S, G, P, C>>,
    f: Seq<char>,
    dependents: Seq<String>,
    j: int,
)
    requires
        0 <= j < dependents.len(),
        t.contains_key(f),
        dependents == t[f].dependents@,
        s0.dom() == t.dom(),
        s1.dom() == t.dom(),
        forall|k: Seq<char>| #[trigger]
            t.contains_key(k) ==> s0[k].same_source(t[k]) && (s0[k] == t[k] || s0[k].is_reset()),
        forall|k: Seq<char>| #[trigger]
            s0.contains_key(k) ==> s1[k] == s0[k] || s1[k].is_reset(),
        reset_closed_except(t, s0, Some(f)),
        reset_closed_except(s0, s1, None),
        forall|d: int|
            0 <= d < j && s0.contains_key(dependents[d]@) ==> s0[#[trigger] dependents[d]@].is_reset(),
        s0.contains_key(dependents[j]@) ==> s1[dependents[j]@].is_reset(),
        forall|k: Seq<char>|
            t.contains_key(k) && #[trigger] s0[k] != t[k] ==> exists|n: nat| #[trigger] reaches(t, f, k, n),
        forall|k: Seq<char>|
            s0.contains_key(k) && #[trigger] s1[k] != s0[k] ==> exists|n: nat|
                #[trigger] reaches(s0, dependents[j]@, k, n),
    ensures
        reset_closed_except(t, s1, Some(f)),
        forall|k: Seq<char>|
            t.contains_key(k) && #[trigger] s1[k] != t[k] ==> exists|n: nat| #[trigger] reaches(t, f, k, n),
        forall|d: int|
            0 <= d < j + 1 && s1.contains_key(dependents[d]@) ==> s1[#[trigger] dependents[d]@].is_reset(),
{
    assert forall|y: Seq<char>, z: Seq<char>|
        #![trigger dependent_of(t, y, z), s1[y]]
        Some(y) != Some(f) && s1.contains_key(y) && s1[y].is_reset() && dependent_of(t, y, z)
            && s1.contains_key(z) implies s1[z].is_reset() by {
        if s0[y].is_reset() {
            assert(s0.contains_key(y));
            assert(s0[z].is_reset());
            assert(s1[z] == s0[z] || s1[z].is_reset());
        } else {
            assert(s0[y] == t[y]);
            assert(dependent_of(s0, y, z));
        }
    }
    assert forall|k: Seq<char>|
        t.contains_key(k) && #[trigger] s1[k] != t[k] implies exists|n: nat|
            #[trigger] reaches(t, f, k, n) by {
        if s0[k] != t[k] {
        } else {
            assert(s1[k] != s0[k]);
            let n = choose|n: nat| #[trigger] reaches(s0, dependents[j]@, k, n);
            lemma_reaches_transfer(t, s0, dependents[j]@, k, n);
            assert(strs_view(t[f].dependents@)[j as int] == dependents[j]@);
            assert(dependent_of(t, f, dependents[j]@));
            assert(reaches(t, f, k, n + 1));
        }
    }
    assert forall|d: int|
        0 <= d < j + 1 && s1.contains_key(dependents[d]@) implies s1[#[trigger] dependents[d]@].is_reset() by {
        if d < j {
            assert(s0[dependents[d]@].is_reset());
            assert(s1[dependents[d]@] == s0[dependents[d]@] || s1[dependents[d]@].is_reset());
        }
    }
}

/// The owners after unloading a dependent, in the middle of unloading the
/// file `f`: they still shrink, objects of changed files other than `f` still
/// have no owner, and every other object keeps its owner.
proof fn lemma_owners_step<S, G, P, C>(
    db0: LibraryDb<S, G, P, C>,
    mid: LibraryDb<S, G, P, C>,
    end: LibraryDb<S, G, P, C>,
    f: Seq<char>,
)
    requires
        forall|kind: ThingKind| submap(#[trigger] mid.owners(kind), db0.owners(kind)),
        forall|kind: ThingKind| submap(#[trigger] end.owners(kind), mid.owners(kind)),
        LibraryDb::changed_outputs_unowned_except(db0, mid, f),
        LibraryDb::changed_outputs_unowned(mid, end),
        LibraryDb::others_keep_owners(db0, mid),
        LibraryDb::others_keep_owners(mid, end),
        mid.files@.dom() == db0.files@.dom(),
        end.files@.dom() == db0.files@.dom(),
        forall|k: Seq<char>| #[trigger]
            db0.files@.contains_key(k) ==> mid.files@[k] == db0.files@[k] || mid.files@[k].is_reset(),
        forall|k: Seq<char>| #[trigger]
            mid.files@.contains_key(k) ==> end.files@[k] == mid.files@[k] || end.files@[k].is_reset(),
    ensures
        forall|kind: ThingKind| submap(#[trigger] end.owners(kind), db0.owners(kind)),
        LibraryDb::changed_outputs_unowned_except(db0, end, f),
        LibraryDb::others_keep_owners(db0, end),
{
    assert forall|kind: ThingKind| submap(#[trigger] end.owners(kind), db0.owners(kind)) by {
        assert(submap(end.owners(kind), mid.owners(kind)));
        assert(submap(mid.owners(kind), db0.owners(kind)));
    }
    let t = db0.files@;
    let s0 = mid.files@;
    let s1 = end.files@;
    assert forall|k: Seq<char>, kind: ThingKind, id: Seq<char>|
        #![trigger s1[k], end.owners(kind).contains_key(id)]
        k != f && t.contains_key(k) && s1[k] != t[k] && t[k].output() is Some && t[k].output()->0.ids(
            kind,
        ).contains(id) implies !end.owners(kind).contains_key(id) by {
        assert(submap(end.owners(kind), mid.owners(kind)));
        if s0[k] != t[k] {
            assert(!mid.owners(kind).contains_key(id));
        } else {
            assert(s0.contains_key(k));
            assert(s1[k] != s0[k]);
            assert(s0[k].output()->0.ids(kind).contains(id));
        }
    }
    lemma_keep_owners_step(db0, mid, end);
}

/// Unloading a dependent keeps the owners that the first part of an unload
/// kept: an object that no changed, successfully loaded file defined keeps
/// its owner across both parts.
proof fn lemma_keep_owners_step<S, G, P, C>(
    db0: LibraryDb<S, G, P, C>,
    mid: LibraryDb<S, G, P, C>,
    end: LibraryDb<S, G, P, C>,
)
    requires
        LibraryDb::others_keep_owners(db0, mid),
        LibraryDb::others_keep_owners(mid, end),
        mid.files@.dom() == db0.files@.dom(),
        end.files@.dom() == db0.files@.dom(),
        forall|k: Seq<char>| #[trigger]
            db0.files@.contains_key(k) ==> mid.files@[k] == db0.files@[k] || mid.files@[k].is_reset(),
        forall|k: Seq<char>| #[trigger]
            mid.files@.contains_key(k) ==> end.files@[k] == mid.files@[k] || end.files@[k].is_reset(),
    ensures
        LibraryDb::others_keep_owners(db0, end),
{
    assert forall|kind: ThingKind, id: Seq<char>|
        #[trigger] db0.owners(kind).contains_key(id) && !LibraryDb::defined_by_changed(
            db0,
            end,
            kind,
            id,
        ) implies end.owners(kind).contains_key(id) && end.owners(kind)[id] == db0.owners(kind)[id] by {
        assert(!LibraryDb::defined_by_changed(db0, mid, kind, id)) by {
            if LibraryDb::defined_by_changed(db0, mid, kind, id) {
                let k = choose|k: Seq<char>|
                    #![trigger mid.files@[k]]
                    db0.files@.contains_key(k) && mid.files@[k] != db0.files@[k]
                        && db0.files@[k].output() is Some && db0.files@[k].output()->0.ids(
                        kind,
                    ).contains(id);
                assert(mid.files@[k].is_reset());
                assert(mid.files@.contains_key(k));
                assert(end.files@[k].load_state is Unloaded);
                assert(end.files@[k] != db0.files@[k]);
            }
        }
        assert(mid.owners(kind).contains_key(id));
        assert(!LibraryDb::defined_by_changed(mid, end, kind, id)) by {
            if LibraryDb::defined_by_changed(mid, end, kind, id) {
                let k = choose|k: Seq<char>|
                    #![trigger end.files@[k]]
                    mid.files@.contains_key(k) && end.files@[k] != mid.files@[k]
                        && mid.files@[k].output() is Some && mid.files@[k].output()->0.ids(
                        kind,
                    ).contains(id);
                assert(!mid.files@[k].is_reset());
                assert(mid.files@[k] == db0.files@[k]);
                assert(end.files@[k] != db0.files@[k]);
            }
        }
    }
}

/// After a file loads successfully, looking up any object it defines finds
/// that file.
pub proof fn law_lookup_after_load<S, G, P, C>(
    before: LibraryDb<S, G, P, C>,
    after: LibraryDb<S, G, P, C>,
    f: Seq<char>,
    out: LibraryFileLoadOutput<S, G, P, C>,
    kind: ThingKind,
    id: Seq<char>,
)
    requires
        LibraryDb::load_effect(before, after, f, Ok(out)),
        before.files@.contains_key(f),
        out.ids(kind).contains(id),
    ensures
        after.spec_file_for(kind, id) == Ok::<Seq<char>, LookupFailure>(f),
{
    assert(chars_map(after.owners(kind)) == with_owner(before.owners(kind), out.ids(kind), f));
    assert(chars_map(after.owners(kind)).contains_key(id));
    assert(chars_map(after.owners(kind))[id] == f);
    assert(after.files@[f].output() == Some(out));
}

/// After a file is unloaded, looking up any object it defined finds
/// nothing.
pub proof fn law_lookup_after_unload<S, G, P, C>(
    before: LibraryDb<S, G, P, C>,
    after: LibraryDb<S, G, P, C>,
    f: Seq<char>,
    kind: ThingKind,
    id: Seq<char>,
)
    requires
        LibraryDb::unload_effect(before, after, f),
        before.files@.contains_key(f),
        before.files@[f].output() is Some,
        before.files@[f].output()->0.ids(kind).contains(id),
    ensures
        after.spec_file_for(kind, id) is Err,
        after.spec_file_for(kind, id) matches Err(LookupFailure::NotFound),
{
    assert(!after.owners(kind).contains_key(id));
}

/// Unloading a file unloads every file that depends on it, directly or
/// through other files: each file reached from it through dependents ends
/// up reset.
pub proof fn law_unload_reaches_dependents<S, G, P, C>(
    before: LibraryDb<S, G, P, C>,
    after: LibraryDb<S, G, P, C>,
    f: Seq<char>,
    x: Seq<char>,
    n: nat,
)
    requires
        LibraryDb::unload_effect(before, after, f),
        reaches(before.files@, f, x, n),
    ensures
        after.files@.contains_key(x),
        after.files@[x].is_reset(),
{
    lemma_reset_spreads(before.files@, after.files@, f, x, n);
}

/// In files closed under resetting (see `reset_closed_except`), everything
/// reached from a reset file is reset.
proof fn lemma_reset_spreads<S, G, P, C>(
    base: Map<Seq<char>, LibraryFile<S, G, P, C>>,
    s: Map<Seq<char>, LibraryFile<S, G, P, C>>,
    a: Seq<char>,
    x: Seq<char>,
    n: nat,
)
    requires
        reset_closed_except(base, s, None),
        s.dom() == base.dom(),
        s.contains_key(a),
        s[a].is_reset(),
        reaches(base, a, x, n),
    ensures
        s.contains_key(x),
        s[x].is_reset(),
    decreases n,
{
    if a != x {
        let z = choose|z: Seq<char>| #[trigger] dependent_of(base, a, z) && reaches(base, z, x, (n - 1) as nat);
        assert(base.contains_key(z));
        assert(s[z].is_reset());
        lemma_reset_spreads(base, s, z, x, (n - 1) as nat);
    }
}

/// A path through dependents in files that differ from `t` only by files
/// without dependents is a path in `t` too.
proof fn lemma_reaches_transfer<S, G, P, C>(
    t: Map<Seq<char>, LibraryFile<S, G, P, C>>,
    s: Map<Seq<char>, LibraryFile<S, G, P, C>>,
    a: Seq<char>,
    b: Seq<char>,
    n: nat,
)
    requires
        s.dom() == t.dom(),
        forall|k: Seq<char>| #[trigger] s.contains_key(k) ==> s[k] == t[k] || s[k].dependents@.len() == 0,
        reaches(s, a, b, n),
    ensures
        reaches(t, a, b, n),
    decreases n,
{
    if a != b {
        let z = choose|z: Seq<char>| #[trigger] dependent_of(s, a, z) && reaches(s, z, b, (n - 1) as nat);
        assert(s.contains_key(a));
        assert(strs_view(s[a].dependents@).contains(z));
        assert(s[a] == t[a]);
        assert(dependent_of(t, a, z));
        lemma_reaches_transfer(t, s, z, b, (n - 1) as nat);
    }
}

} // verus!
