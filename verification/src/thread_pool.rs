//! Worker pools: a fixed set of threads pulling jobs from one shared
//! queue.
//!
//! The pool variants that start real threads live in the surrounding
//! process, since thread spawning is outside this library; the
//! decision rules they follow, and the pool capability contract, are
//! here.

use vstd::prelude::*;

use crate::errors::KvsError;

pub mod naive;
pub mod rayon;

verus! {

/// The capability contract of a worker pool: construction with a
/// requested worker count, and fire-and-forget submission of jobs.
pub trait ThreadPool: Sized {
    fn new(threads: u32) -> Result<Self, KvsError>;

    fn spawn<F>(&self, job: F) where F: FnOnce() + Send + 'static;
}

/// The supervision rule that keeps a pool's concurrency intact: a
/// worker whose thread exited abnormally (a job panicked) is
/// replaced; one that exited normally saw the shutdown signal, and
/// supervision ends.
pub fn respawn_after_exit(exited_normally: bool) -> (r: bool)
    ensures
        r == !exited_normally,
{
    !exited_normally
}

} // verus!
