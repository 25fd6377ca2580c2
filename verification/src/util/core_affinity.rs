//! The CPUs named by a CPU set.
use vstd::prelude::*;

verus! {

/// The indices below `n` whose flags are set, in increasing order.
pub open spec fn set_indices(flags: Seq<bool>, n: int) -> Seq<usize>
    decreases n,
{
    if n <= 0 {
        Seq::empty()
    } else if flags[n - 1] {
        set_indices(flags, n - 1).push((n - 1) as usize)
    } else {
        set_indices(flags, n - 1)
    }
}

/// The CPUs of a set whose membership flags are `flags`: the indices of the
/// set flags, in increasing order.
pub fn set_cpus(flags: &Vec<bool>) -> (cpus: Vec<usize>)
    ensures
        cpus@ == set_indices(flags@, flags@.len() as int),
{
    let mut cpus: Vec<usize> = Vec::new();
    let mut i: usize = 0;
    while i < flags.len()
        invariant
            i <= flags@.len(),
            cpus@ == set_indices(flags@, i as int),
        decreases flags@.len() - i,
    {
        if flags[i] {
            cpus.push(i);
        }
        i = i + 1;
    }
    cpus
}

} // verus!
