//! Running numbered tasks on the thread pool.

use rayon::iter::IntoParallelIterator;
use rayon::iter::ParallelIterator;
use vstd::prelude::*;

verus! {

/// Whether work may be spread over threads.
#[derive(Clone, Copy, Debug, PartialEq, Eq, Structural)]
pub enum Parallelism {
    /// Everything runs on the calling thread.
    Serial,
    /// At most this many threads are used; zero stands for as many as the pool has.
    Rayon(usize),
}

/// Runs `func` for every number below `n_threads` on the `rayon` thread pool and returns once all
/// calls are done, with their results in order.
///
/// Calls `map` and `collect` of the parallel iterator over `0..n_threads`. What is claimed of them
/// is that `func` is called once for each number, that result `tid` is what the call with `tid`
/// returned, and that nothing else is in the result.
#[verifier::external_body]
pub fn par_for_each<R: Send, F: Fn(usize) -> R + Send + Sync>(n_threads: usize, func: F) -> (out:
    Vec<R>)
    requires
        forall|tid: usize| tid < n_threads ==> call_requires(func, (tid,)),
    ensures
        out@.len() == n_threads,
        forall|tid: usize|
            tid < n_threads ==> call_ensures(func, (tid,), #[trigger] out@[tid as int]),
{
    (0..n_threads).into_par_iter().map(func).collect()
}

/// Calls `rayon::current_num_threads`. The number depends on the machine and on how the pool was
/// set up, so that nothing is claimed of it.
#[verifier::external_body]
pub(crate) fn current_num_threads() -> usize {
    rayon::current_num_threads()
}

} // verus!
