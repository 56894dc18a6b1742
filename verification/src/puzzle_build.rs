//! Building a puzzle by ID from the library: following the redirects of
//! puzzle generators, returning puzzles constructed before from the cache,
//! and keeping what is constructed.
use std::sync::Arc;

use vstd::prelude::*;

use crate::lazy_puzzle::LazyPuzzle;
use crate::library::{GeneratorStep, LibraryDb, LibraryError, PuzzleStep, ThingKind};
use crate::puzzle_id::{spec_parse_generated_id, BuildAction, PuzzleBuild, MAX_PUZZLE_REDIRECTS};
use crate::tags::strs_view;

verus! {

/// Calls `Arc::clone`, which makes another pointer to the same allocation:
/// the contract claims that the clone holds the same value.
#[verifier::external_body]
fn arc_clone<T>(a: &Arc<T>) -> (r: Arc<T>)
    ensures
        r == *a,
{
    Arc::clone(a)
}

/// What running a puzzle generator gives.
pub enum GeneratorOutput<P> {
    /// The constructed puzzle.
    Puzzle(P),
    /// Another puzzle ID to build instead.
    Redirect(String),
}

/// Why building a puzzle failed.
#[derive(Debug)]
pub enum BuildError<E> {
    /// The library has no loaded definition of the puzzle or its generator.
    Library(LibraryError),
    /// Constructing the puzzle or running the generator failed.
    Failed(E),
    /// The generators redirected too many times; the IDs tried, the
    /// requested one first.
    TooManyRedirects(Vec<String>),
}

/// Whether the library keeps the puzzle `p` as the one built for the ID
/// `id`: in the puzzle's own cache for an ID that names no generator, in
/// its generator's cache otherwise.
pub open spec fn cached_under<S, G, P, C>(db: LibraryDb<S, G, P, C>, id: Seq<char>, p: Arc<P>) -> bool {
    match spec_parse_generated_id(id) {
        None => db.spec_puzzle_step(id) matches Some(l) && l.constructed == Some(p),
        Some((g, _)) => db.spec_generator_step(g) matches Some(l) && l.constructed@.contains_key(id)
            && l.constructed@[id] == p,
    }
}

/// Whether building `id` in the library does not stop at its first step:
/// the ID names a generator that the library defines and whose cache does
/// not hold the ID.
pub open spec fn generates_first<S, G, P, C>(db: LibraryDb<S, G, P, C>, id: Seq<char>) -> bool {
    spec_parse_generated_id(id) matches Some((g, _)) && db.spec_generator_step(g) matches Some(l)
        && !l.constructed@.contains_key(id)
}

/// Whether the generator, run by `generate` on parameters that read as
/// `params`, never redirects.
pub open spec fn never_redirects<G, P, E, F2: Fn(&G, &Vec<String>) -> Result<GeneratorOutput<P>, E>>(
    generate: F2,
    generator: Arc<G>,
    params: Seq<Seq<char>>,
) -> bool {
    forall|v: &Vec<String>, o: Result<GeneratorOutput<P>, E>|
        strs_view(v@) == params && #[trigger] generate.ensures((&*generator, v), o) ==> !(o matches Ok(
            GeneratorOutput::Redirect(_),
        ))
}

/// Whether the generator, run on parameters that read as `params`, always
/// redirects to `target`.
pub open spec fn redirects_to<G, P, E, F2: Fn(&G, &Vec<String>) -> Result<GeneratorOutput<P>, E>>(
    generate: F2,
    generator: Arc<G>,
    params: Seq<Seq<char>>,
    target: Seq<char>,
) -> bool {
    forall|v: &Vec<String>, o: Result<GeneratorOutput<P>, E>|
        strs_view(v@) == params && #[trigger] generate.ensures((&*generator, v), o) ==> (o matches Ok(
            GeneratorOutput::Redirect(n),
        ) && n@ == target)
}

/// Whether the generator, run on parameters that read as `params`, always
/// constructs a puzzle.
pub open spec fn always_generates<G, P, E, F2: Fn(&G, &Vec<String>) -> Result<GeneratorOutput<P>, E>>(
    generate: F2,
    generator: Arc<G>,
    params: Seq<Seq<char>>,
) -> bool {
    forall|v: &Vec<String>, o: Result<GeneratorOutput<P>, E>|
        strs_view(v@) == params && #[trigger] generate.ensures((&*generator, v), o) ==> (o matches Ok(
            GeneratorOutput::Puzzle(_),
        ))
}

/// Whether constructing from the parameters `spec` always succeeds.
pub open spec fn always_constructs<S, P, E, F1: Fn(&S) -> Result<P, E>>(construct: F1, spec: Arc<S>) -> bool {
    forall|o: Result<P, E>| #[trigger] construct.ensures((&*spec,), o) ==> o is Ok
}

/// Whether building `id` starts by running its generator, which the
/// library defines and whose cache does not hold `id`, and that generator
/// always redirects to `target`.
pub open spec fn redirects_first_to<S, G, P, C, E, F2: Fn(&G, &Vec<String>) -> Result<GeneratorOutput<P>, E>>(
    db: LibraryDb<S, G, P, C>,
    id: Seq<char>,
    generate: F2,
    target: Seq<char>,
) -> bool {
    spec_parse_generated_id(id) matches Some((g, ps)) && db.spec_generator_step(g) matches Some(l)
        && !l.constructed@.contains_key(id) && redirects_to(generate, l.generator, ps, target)
}

/// Whether building `target` by itself gives a puzzle at its first step:
/// the library defines it (or its generator), and it is cached, or its
/// construction (or generator) always gives a puzzle.
pub open spec fn builds_at_once<
    S,
    G,
    P,
    C,
    E,
    F1: Fn(&S) -> Result<P, E>,
    F2: Fn(&G, &Vec<String>) -> Result<GeneratorOutput<P>, E>,
>(db: LibraryDb<S, G, P, C>, target: Seq<char>, construct: F1, generate: F2) -> bool {
    match spec_parse_generated_id(target) {
        None => db.spec_puzzle_step(target) matches Some(l) && (l.constructed is Some
            || always_constructs(construct, l.spec)),
        Some((g, ps)) => db.spec_generator_step(g) matches Some(l) && (l.constructed@.contains_key(
            target,
        ) || always_generates(generate, l.generator, ps)),
    }
}

/// Builds the puzzle `id` that names no generator: from the cache if it
/// was constructed before, otherwise by `construct`, keeping the result.
fn build_defined<S, G, P, C, E, F1>(db: &mut LibraryDb<S, G, P, C>, id: &String, construct: &F1) -> (r:
    Result<Arc<P>, BuildError<E>>) where F1: Fn(&S) -> Result<P, E>
    requires
        forall|s: &S| #[trigger] construct.requires((s,)),
    ensures
        match old(db).spec_puzzle_step(id@) {
            None => (r matches Err(BuildError::Library(_)) && *final(db) == *old(db)),
            Some(l) => match l.constructed {
                Some(p) => r == Ok::<Arc<P>, BuildError<E>>(p) && *final(db) == *old(db),
                None => match r {
                    Ok(p) => {
                        &&& construct.ensures((&*l.spec,), Ok::<P, E>(*p))
                        &&& final(db).spec_puzzle_step(id@) == Some(
                            LazyPuzzle { spec: l.spec, constructed: Some(p) },
                        )
                    },
                    Err(e) => (e matches BuildError::Failed(f) && construct.ensures(
                        (&*l.spec,),
                        Err::<P, E>(f),
                    )) && *final(db) == *old(db),
                },
            },
        },
{
    let spec = match db.puzzle_step(id) {
        Err(e) => return Err(BuildError::Library(e)),
        Ok(PuzzleStep::Cached(p)) => return Ok(arc_clone(p)),
        Ok(PuzzleStep::Build(spec)) => arc_clone(spec),
    };
    let x = match construct(&*spec) {
        Ok(x) => x,
        Err(e) => return Err(BuildError::Failed(e)),
    };
    let p = Arc::new(x);
    db.record_puzzle(id, arc_clone(&p));
    Ok(p)
}

/// One step of building the generated puzzle `id` of the generator
/// `generator_id`: the puzzle from the generator's cache if it was
/// constructed before; otherwise what running the generator with `generate`
/// on `params` gives, keeping a constructed puzzle, or the ID it redirects
/// to.
fn generate_defined<S, G, P, C, E, F2>(
    db: &mut LibraryDb<S, G, P, C>,
    generator_id: &String,
    params: &Vec<String>,
    id: String,
    generate: &F2,
) -> (r: Result<Result<Arc<P>, String>, BuildError<E>>) where
    F2: Fn(&G, &Vec<String>) -> Result<GeneratorOutput<P>, E>,

    requires
        forall|g: &G, ps: &Vec<String>| #[trigger] generate.requires((g, ps)),
    ensures
        match old(db).spec_generator_step(generator_id@) {
            None => (r matches Err(BuildError::Library(_)) && *final(db) == *old(db)),
            Some(l) => if l.constructed@.contains_key(id@) {
                r == Ok::<Result<Arc<P>, String>, BuildError<E>>(Ok(l.constructed@[id@]))
                    && *final(db) == *old(db)
            } else {
                match r {
                    Ok(Ok(p)) => final(db).spec_generator_step(generator_id@) matches Some(n)
                        && n.constructed@.contains_key(id@) && n.constructed@[id@] == p
                        && generate.ensures(
                        (&*l.generator, params),
                        Ok::<GeneratorOutput<P>, E>(GeneratorOutput::Puzzle(*p)),
                    ),
                    Ok(Err(n)) => *final(db) == *old(db) && !never_redirects(
                        *generate,
                        l.generator,
                        strs_view(params@),
                    ) && generate.ensures(
                        (&*l.generator, params),
                        Ok::<GeneratorOutput<P>, E>(GeneratorOutput::Redirect(n)),
                    ),
                    Err(e) => *final(db) == *old(db) && (e matches BuildError::Failed(f)
                        && generate.ensures((&*l.generator, params), Err::<GeneratorOutput<P>, E>(f))),
                }
            },
        },
{
    let generator = match db.generator_step(generator_id, &id) {
        Err(e) => return Err(BuildError::Library(e)),
        Ok(GeneratorStep::Cached(p)) => return Ok(Ok(arc_clone(p))),
        Ok(GeneratorStep::Generate(g)) => arc_clone(g),
    };
    let out = generate(&*generator, params);
    assert(out matches Ok(GeneratorOutput::Redirect(_)) ==> !never_redirects(
        *generate,
        generator,
        strs_view(params@),
    ));
    match out {
        Err(e) => Err(BuildError::Failed(e)),
        Ok(GeneratorOutput::Puzzle(x)) => {
            let p = Arc::new(x);
            db.record_generated(generator_id, id, arc_clone(&p));
            Ok(Ok(p))
        },
        Ok(GeneratorOutput::Redirect(new_id)) => Ok(Err(new_id)),
    }
}

/// Constructs the puzzle with ID `id`, or returns a previously cached
/// result if it has already been constructed. A puzzle that names no
/// generator is constructed from its parameters by `construct`; a generated
/// puzzle by running its generator with `generate`, following the redirects
/// it gives up to `MAX_PUZZLE_REDIRECTS` times. What is constructed is kept
/// in the library's cache.
pub fn build_puzzle<S, G, P, C, E, F1, F2>(
    db: &mut LibraryDb<S, G, P, C>,
    id: &str,
    construct: &F1,
    generate: &F2,
) -> (r: Result<Arc<P>, BuildError<E>>) where
    F1: Fn(&S) -> Result<P, E>,
    F2: Fn(&G, &Vec<String>) -> Result<GeneratorOutput<P>, E>,

    requires
        forall|s: &S| #[trigger] construct.requires((s,)),
        forall|g: &G, ps: &Vec<String>| #[trigger] generate.requires((g, ps)),
    ensures
        forall|p: Arc<P>|
            #[trigger] cached_under(*old(db), id@, p) ==> r == Ok::<Arc<P>, BuildError<E>>(p)
                && *final(db) == *old(db),
        spec_parse_generated_id(id@) is None ==> match old(db).spec_puzzle_step(id@) {
            None => (r matches Err(BuildError::Library(_)) && *final(db) == *old(db)),
            Some(l) => match l.constructed {
                Some(p) => r == Ok::<Arc<P>, BuildError<E>>(p) && *final(db) == *old(db),
                None => match r {
                    Ok(p) => {
                        &&& construct.ensures((&*l.spec,), Ok::<P, E>(*p))
                        &&& final(db).spec_puzzle_step(id@) == Some(
                            LazyPuzzle { spec: l.spec, constructed: Some(p) },
                        )
                    },
                    Err(e) => e is Failed && *final(db) == *old(db),
                },
            },
        },
        (spec_parse_generated_id(id@) matches Some((g, _)) && old(db).spec_generator_step(g) is None)
            ==> (r matches Err(BuildError::Library(_)) && *final(db) == *old(db)),
        (r matches Ok(p)) ==> exists|built: Seq<char>| #[trigger] cached_under(*final(db), built, r->Ok_0),
        (spec_parse_generated_id(id@) matches Some((g, ps)) && old(db).spec_generator_step(g) matches Some(l)
            && never_redirects(*generate, l.generator, ps)) ==> ((r matches Ok(p)) ==> cached_under(
            *final(db),
            id@,
            r->Ok_0,
        )),
        forall|target: Seq<char>|
            #[trigger] redirects_first_to(*old(db), id@, *generate, target) && builds_at_once(
                *old(db),
                target,
                *construct,
                *generate,
            ) ==> {
                &&& r is Ok
                &&& cached_under(*final(db), target, r->Ok_0)
                &&& forall|p0: Arc<P>| #[trigger]
                    cached_under(*old(db), target, p0) ==> r->Ok_0 == p0 && *final(db) == *old(db)
            },
{
    let mut build = PuzzleBuild::new(id);
    loop
        invariant
            forall|s: &S| #[trigger] construct.requires((s,)),
            forall|g: &G, ps: &Vec<String>| #[trigger] generate.requires((g, ps)),
            build.redirect_count() <= MAX_PUZZLE_REDIRECTS,
            build.redirect_count() == 0 ==> build.current() == id@ && *db == *old(db),
            build.redirect_count() > 0 ==> generates_first(*old(db), id@),
            build.redirect_count() > 0 ==> (spec_parse_generated_id(id@) matches Some((g, ps))
                && old(db).spec_generator_step(g) matches Some(l) && !never_redirects(
                *generate,
                l.generator,
                ps,
            )),
            forall|target: Seq<char>|
                #[trigger] redirects_first_to(*old(db), id@, *generate, target) && builds_at_once(
                    *old(db),
                    target,
                    *construct,
                    *generate,
                ) ==> build.redirect_count() <= 1 && (build.redirect_count() == 1
                    ==> build.current() == target && *db == *old(db)),
        decreases MAX_PUZZLE_REDIRECTS - build.redirect_count(),
    {
        match build.next_action() {
            BuildAction::LookUpPuzzle { id: pid } => {
                let r = build_defined(db, &pid, construct);
                proof {
                    if r is Ok {
                        assert(cached_under(*db, pid@, r->Ok_0));
                    }
                }
                return r;
            },
            BuildAction::GeneratePuzzle { generator_id, params, id: pid } => {
                let ghost pv = pid@;
                match generate_defined(db, &generator_id, &params, pid, generate) {
                    Err(e) => return Err(e),
                    Ok(Ok(p)) => {
                        assert(cached_under(*db, pv, p));
                        return Ok(p);
                    },
                    Ok(Err(new_id)) => {
                        build.redirect(new_id);
                    },
                }
            },
            BuildAction::TooManyRedirects { redirect_sequence } => {
                return Err(BuildError::TooManyRedirects(redirect_sequence));
            },
        }
    }
}

} // verus!
