//! Parameters for scrambling a puzzle, and the scrambled result.
use std::time::SystemTime;

use vstd::prelude::*;

use crate::twist_system::Twist;

verus! {

/// The system clock's reading, which `Timestamp` holds.
#[verifier::external_type_specification]
#[verifier::external_body]
pub struct ExSystemTime(SystemTime);

/// Calls `std::time::SystemTime::now`: the current reading of the system
/// clock. Nothing is promised of it.
#[verifier::external_body]
fn system_time_now() -> (r: SystemTime) {
    SystemTime::now()
}

/// Calls `rand::random::<u32>()`, which draws a number from the thread's
/// random number generator. Nothing is promised of it.
#[verifier::external_body]
fn random_seed() -> (r: u32) {
    rand::random::<u32>()
}

/// A moment in time.
#[derive(Debug, Clone, Copy, PartialEq, Eq)]
pub struct Timestamp(pub SystemTime);

impl Timestamp {
    /// Returns the current time.
    pub fn now() -> (r: Timestamp) {
        Timestamp(system_time_now())
    }
}

/// Type of scramble to generate.
#[derive(Debug, Copy, Clone, PartialEq, Eq, Structural)]
pub enum ScrambleType {
    /// Full scramble.
    Full,
    /// Partial scramble of a specific number of moves.
    Partial(u32),
}

/// Parameters to deterministically generate a twist sequence to scramble a
/// puzzle.
#[derive(Debug, Copy, Clone, PartialEq, Eq)]
pub struct ScrambleParams {
    /// Type of scramble to generate.
    pub ty: ScrambleType,
    /// Timestamp when the scramble was requested.
    pub time: Timestamp,
    /// Random seed.
    pub seed: u32,
}

impl ScrambleParams {
    /// Generates a new random scramble of type `ty` based on the current
    /// time; the time and the seed come from the clock and the random
    /// number generator.
    pub fn new(ty: ScrambleType) -> (r: Self)
        ensures
            r.ty == ty,
    {
        ScrambleParams { ty, time: Timestamp::now(), seed: random_seed() }
    }
}

/// Set of layers of a twist axis, one bit per layer.
#[derive(Debug, Copy, Clone, PartialEq, Eq, Structural)]
pub struct LayerMask(pub u32);

/// Twist applied to a set of layers.
#[derive(Debug, Copy, Clone, PartialEq, Eq, Structural)]
pub struct LayeredTwist {
    /// Layers to twist.
    pub layers: LayerMask,
    /// Twist to apply.
    pub transform: Twist,
}

/// Scrambled puzzle: the parameters, the twists of the scramble and the
/// state `S` of the puzzle after them.
#[derive(Debug)]
pub struct ScrambledPuzzle<S> {
    /// Parameters of the scramble.
    pub params: ScrambleParams,
    /// Twists of the scramble.
    pub twists: Vec<LayeredTwist>,
    /// State of the puzzle after the scramble.
    pub state: S,
}

} // verus!
