//! Progress of a scramble that runs on another thread.
use std::sync::atomic::{AtomicBool, AtomicU32};

use vstd::prelude::*;

verus! {

/// Progress of a scramble, shared between the thread that scrambles and
/// the threads that watch or cancel it. The values are read and written
/// with relaxed atomic operations, so a reader learns nothing certain of
/// them.
#[derive(Debug)]
pub struct ScrambleProgress {
    done: AtomicU32,
    total: AtomicU32,
    cancel_requested: AtomicBool,
}

impl Default for ScrambleProgress {
    fn default() -> (r: Self) {
        ScrambleProgress {
            done: AtomicU32::new(0),
            total: AtomicU32::new(1),
            cancel_requested: AtomicBool::new(false),
        }
    }
}

impl ScrambleProgress {
    /// Returns new progress: no twist done out of one, no cancellation.
    pub fn new() -> (r: Self) {
        Self::default()
    }

    /// Returns the number of twists done and the total.
    pub fn fraction(&self) -> (r: (u32, u32)) {
        (
            self.done.load(std::sync::atomic::Ordering::Relaxed),
            self.total.load(std::sync::atomic::Ordering::Relaxed),
        )
    }

    /// Sets the total number of twists.
    pub fn set_total(&self, total: u32) {
        self.total.store(total, std::sync::atomic::Ordering::Relaxed);
    }

    /// Sets the number of twists done.
    pub fn set_progress(&self, twists_done: u32) {
        self.done.store(twists_done, std::sync::atomic::Ordering::Relaxed);
    }

    /// Asks the scramble to stop.
    pub fn request_cancel(&self) {
        self.cancel_requested.store(true, std::sync::atomic::Ordering::Relaxed);
    }

    /// Returns whether the scramble has been asked to stop.
    pub fn is_cancel_requested(&self) -> (r: bool) {
        self.cancel_requested.load(std::sync::atomic::Ordering::Relaxed)
    }
}

} // verus!
