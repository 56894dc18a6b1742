//! Puzzles and puzzle generators defined in library files, with the
//! puzzles they have constructed kept for later.
use std::sync::Arc;

use vstd::prelude::*;

use crate::strmap::StrMap;

verus! {

/// Puzzle defined in a library file that is cached when constructed.
#[derive(Debug)]
pub struct LazyPuzzle<S, P> {
    /// Parameters to construct the puzzle.
    pub spec: Arc<S>,
    /// Cached constructed puzzle.
    pub constructed: Option<Arc<P>>,
}

impl<S, P> LazyPuzzle<S, P> {
    /// Returns a new lazy puzzle that has not yet been constructed.
    pub fn new(spec: S) -> (r: Self)
        ensures
            *r.spec == spec,
            r.constructed is None,
    {
        LazyPuzzle { spec: Arc::new(spec), constructed: None }
    }

    /// Returns the puzzle constructed before, if there is one.
    pub fn cached(&self) -> (r: Option<&Arc<P>>)
        ensures
            match r {
                Some(p) => self.constructed == Some(*p),
                None => self.constructed is None,
            },
    {
        self.constructed.as_ref()
    }

    /// Keeps a constructed puzzle for later.
    pub fn record(&mut self, puzzle: Arc<P>)
        ensures
            final(self).spec == old(self).spec,
            final(self).constructed == Some(puzzle),
    {
        self.constructed = Some(puzzle);
    }
}

/// Puzzle generator defined in a library file whose puzzles are cached
/// whenever they are constructed.
#[derive(Debug)]
pub struct LazyPuzzleGenerator<G, P> {
    /// Generator to construct a puzzle.
    pub generator: Arc<G>,
    /// Cached constructed puzzles, by puzzle ID.
    pub constructed: StrMap<Arc<P>>,
}

impl<G, P> LazyPuzzleGenerator<G, P> {
    /// Returns a new lazy puzzle generator that has not yet constructed
    /// any puzzle.
    pub fn new(generator: G) -> (r: Self)
        ensures
            *r.generator == generator,
            r.constructed@ == Map::<Seq<char>, Arc<P>>::empty(),
    {
        LazyPuzzleGenerator { generator: Arc::new(generator), constructed: StrMap::new() }
    }

    /// Returns the puzzle with ID `id` constructed before, if there is one.
    pub fn cached(&self, id: &str) -> (r: Option<&Arc<P>>)
        ensures
            match r {
                Some(p) => self.constructed@.contains_key(id@) && self.constructed@[id@] == *p,
                None => !self.constructed@.contains_key(id@),
            },
    {
        self.constructed.get(id)
    }

    /// Keeps the constructed puzzle with ID `id` for later.
    pub fn record(&mut self, id: String, puzzle: Arc<P>)
        ensures
            final(self).generator == old(self).generator,
            final(self).constructed@ == old(self).constructed@.insert(id@, puzzle),
    {
        self.constructed.insert(id, puzzle);
    }
}

} // verus!
