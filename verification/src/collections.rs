use vstd::prelude::*;

verus! {

/// `m` is the largest element of the non-empty sequence `s`.
pub open spec fn is_max_of(s: Seq<i32>, m: i32) -> bool {
    &&& s.contains(m)
    &&& forall|i: int| 0 <= i < s.len() ==> s[i] <= m
}

/// Returns the largest element of `list`; the list must not be empty.
pub fn largest(list: &[i32]) -> (m: i32)
    requires
        list@.len() > 0,
    ensures
        list@.contains(m),
        forall|i: int| 0 <= i < list@.len() ==> list@[i] <= m,
        is_max_of(list@, m),
{
    let mut largest = list[0];
    let mut idx: usize = 0;
    while idx < list.len()
        invariant
            0 <= idx <= list@.len(),
            list@.len() > 0,
            list@.contains(largest),
            forall|i: int| 0 <= i < idx ==> list@[i] <= largest,
        decreases list@.len() - idx,
    {
        let elem = list[idx];
        if largest < elem {
            largest = elem;
        }
        idx = idx + 1;
    }
    largest
}

} // verus!
