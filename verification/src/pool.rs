use vstd::prelude::*;

verus! {

/// Same-thread, single-worker stand-in for a worker pool.
///
/// Parallel drivers outside the verified core may distribute work across real
/// threads; the verified engine only relies on this synchronous behaviour:
/// every submitted job has run to completion by the time `joined_execute`
/// returns.
pub struct EmptyPool {}

/// Hand out the worker pool shared by all batched operations.
pub fn da_pool() -> (r: EmptyPool) {
    EmptyPool {}
}

impl EmptyPool {
    /// Number of workers this pool can run at once.
    pub fn max_count(&self) -> (r: usize)
        ensures
            r == 1,
    {
        1
    }

    /// Run `job` to completion on the calling thread.
    pub fn joined_execute<F>(&self, job: F) where F: FnOnce()
        requires
            call_requires(job, ()),
        ensures
            call_ensures(job, (), ()),
    {
        job();
    }
}

} // verus!
