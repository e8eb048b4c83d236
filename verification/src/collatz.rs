//! One step of the Collatz iteration that the looping dataflow circulates.

use vstd::prelude::*;

verus! {

/// The Collatz successor of `x`: half of an even number, three times an odd
/// number plus one.
pub open spec fn collatz_next(x: int) -> int {
    if x % 2 == 0 {
        x / 2
    } else {
        3 * x + 1
    }
}

/// Computes one Collatz step; for odd `x` the result must fit in a `u64`.
pub fn collatz_step(x: u64) -> (y: u64)
    requires
        x % 2 == 0 || 3 * x + 1 <= u64::MAX,
    ensures
        x % 2 == 0 ==> y == x / 2,
        x % 2 == 1 ==> y == 3 * x + 1,
        y == collatz_next(x as int),
{
    if x % 2 == 0 {
        x / 2
    } else {
        3 * x + 1
    }
}

/// The Collatz successor halves every even number and sends every odd number
/// `x` to `3 * x + 1`.
pub proof fn lemma_collatz_next_law(x: int)
    ensures
        x % 2 == 0 ==> collatz_next(x) == x / 2,
        x % 2 == 1 ==> collatz_next(x) == 3 * x + 1,
{
}

} // verus!
