//! How a process is told which function to run: by its distance from another,
//! as the same program may lie elsewhere in the memory of each process.

use vstd::prelude::*;

verus! {

/// How far `address` is from `base`, going round at the end of memory.
pub open spec fn distance(address: usize, base: usize) -> usize {
    if address >= base {
        (address - base) as usize
    } else {
        (address - base + usize::MAX + 1) as usize
    }
}

/// What is `distance` from `base`, going round at the end of memory.
pub open spec fn reached(distance: usize, base: usize) -> usize {
    if distance + base <= usize::MAX {
        (distance + base) as usize
    } else {
        (distance + base - usize::MAX - 1) as usize
    }
}

/// How far `address` is from `base`.
pub fn relative(address: usize, base: usize) -> (r: usize)
    ensures
        r == distance(address, base),
{
    address.wrapping_sub(base)
}

/// What is `distance` from `base`.
pub fn absolute(distance: usize, base: usize) -> (r: usize)
    ensures
        r == reached(distance, base),
{
    distance.wrapping_add(base)
}

/// Two functions of a program are equally far apart in each process, so the
/// distance that one process tells leads another to the same function.
pub proof fn law_the_same_function_runs(address: usize, base: usize, moved: int)
    requires
        0 <= address + moved <= usize::MAX,
        0 <= base + moved <= usize::MAX,
    ensures
        reached(distance(address, base), (base + moved) as usize) == address + moved,
{
}

} // verus!
