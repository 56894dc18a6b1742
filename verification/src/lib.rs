//! Puzzle catalog, tag and twist-system bookkeeping for a hypercube puzzle simulator.
use vstd::prelude::*;

pub mod ndim;
pub mod text;
pub mod tags;
pub mod assoc;
pub mod naming;
pub mod autoname;
pub mod motor;
pub mod ordering;
pub mod twist_system;
pub mod strmap;
pub mod library;
pub mod puzzle_id;
pub mod lazy_puzzle;
pub mod scramble;
pub mod scramble_progress;
pub mod piece;
pub mod catalog;
pub mod puzzle_build;
