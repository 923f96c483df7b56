//! Which physical core a worker thread is bound to.
use vstd::prelude::*;

verus! {

/// The core that worker `worker` is bound to when the host has `num_cores`
/// physical cores: workers are dealt round the cores in order. `None` when
/// the host reports no core, which makes binding impossible.
pub fn core_for_worker(worker: usize, num_cores: usize) -> (r: Option<usize>)
    ensures
        num_cores == 0 ==> r is None,
        num_cores > 0 ==> r == Some((worker % num_cores) as usize),
{
    if num_cores == 0 {
        None
    } else {
        Some(worker % num_cores)
    }
}

} // verus!
