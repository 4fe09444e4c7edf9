//! A placeholder pool variant that is not implemented.

use vstd::prelude::*;

use crate::errors::KvsError;
use crate::thread_pool::ThreadPool;

verus! {

/// A pool variant kept as an unimplemented stub: construction always
/// fails, and no job is ever run.
pub struct RayonThreadPool {}

impl ThreadPool for RayonThreadPool {
    fn new(_threads: u32) -> (r: Result<RayonThreadPool, KvsError>)
        ensures
            r matches Err(e) && e == KvsError::Unsupported,
    {
        Err(KvsError::Unsupported)
    }

    fn spawn<F>(&self, _job: F) where F: FnOnce() + Send + 'static {
    }
}

} // verus!
