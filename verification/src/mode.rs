//! The mode operator: it counts every record it has seen, over all batches,
//! and after each batch emits a most frequent record with its count.

use vstd::prelude::*;
use std::collections::HashMap;
use crate::math::{count_of, occurrences, lemma_occurrences_take_step, lemma_occurrences_take_le,
    lemma_occurrences_concat, lemma_occurrences_le_len, lemma_occurrences_contains};

verus! {

broadcast use vstd::std_specs::hash::group_hash_axioms;

/// `new` holds the counts of `old` with the records of `data` added in.
pub open spec fn counts_added(old: Map<u64, u64>, data: Seq<u64>, new: Map<u64, u64>) -> bool {
    &&& forall|x: u64|
        #[trigger] new.contains_key(x) <==> (old.contains_key(x) || occurrences(data, x) > 0)
    &&& forall|x: u64| #[trigger] new.contains_key(x) ==> new[x] == count_of(old, x) + occurrences(data, x)
}

/// Adding the records of `data` to the counts of `old` overflows no count.
pub open spec fn counts_fit(old: Map<u64, u64>, data: Seq<u64>) -> bool {
    forall|x: u64| #[trigger] occurrences(data, x) > 0 ==> count_of(old, x) + occurrences(data, x) <= u64::MAX
}

/// `(k, c)` names a most frequent record of `m` and its count.
pub open spec fn is_mode_of(m: Map<u64, u64>, k: u64, c: u64) -> bool {
    &&& m.contains_key(k)
    &&& m[k] == c
    &&& forall|x: u64| #[trigger] m.contains_key(x) ==> m[x] <= c
}

/// State of the mode operator: how often each record has been seen so far.
pub struct Mode {
    counts: HashMap<u64, u64>,
}

impl View for Mode {
    type V = Map<u64, u64>;

    closed spec fn view(&self) -> Map<u64, u64> {
        self.counts@
    }
}

impl Mode {
    /// A mode operator that has seen nothing yet.
    pub fn new() -> (m: Self)
        ensures
            m@ == Map::<u64, u64>::empty(),
    {
        Mode { counts: HashMap::new() }
    }

    /// The count of `x` seen so far (0 when never seen).
    pub fn count(&self, x: u64) -> (c: u64)
        ensures
            c == count_of(self@, x),
    {
        match self.counts.get(&x) {
            Some(c) => *c,
            None => 0,
        }
    }

    /// Counts the records of one batch and returns what the operator emits
    /// for it: a record with the highest count seen so far, with that count,
    /// or `None` (nothing emitted) while no record has been seen at all.
    /// Which of several equally frequent records comes out is left to the
    /// order in which the hash map is walked.
    pub fn on_batch(&mut self, data: &[u64]) -> (out: Option<(u64, u64)>)
        requires
            counts_fit(old(self)@, data@),
        ensures
            forall|x: u64|
                #[trigger] final(self)@.contains_key(x) <==> (old(self)@.contains_key(x)
                    || data@.contains(x)),
            forall|x: u64|
                #[trigger] count_of(final(self)@, x) == count_of(old(self)@, x) + occurrences(
                    data@,
                    x,
                ),
            out matches Some((k, c)) ==> {
                &&& final(self)@.contains_key(k)
                &&& final(self)@[k] == c
                &&& forall|x: u64| #[trigger] final(self)@.contains_key(x) ==> final(self)@[x] <= c
            },
            out is None <==> final(self)@.is_empty(),
            counts_added(old(self)@, data@, final(self)@),
            match out {
                Some((k, c)) => is_mode_of(final(self)@, k, c),
                None => final(self)@.is_empty(),
            },
    {
        let ghost start = self.counts@;
        let mut idx: usize = 0;
        while idx < data.len()
            invariant
                0 <= idx <= data@.len(),
                counts_fit(start, data@),
                counts_added(start, data@.take(idx as int), self.counts@),
            decreases data@.len() - idx,
        {
            let datum = data[idx];
            let ghost before = self.counts@;
            proof {
                assert forall|x: u64|
                    occurrences(data@.take(idx as int + 1), x) == occurrences(
                        data@.take(idx as int),
                        x,
                    ) + if data@[idx as int] == x {
                        1nat
                    } else {
                        0nat
                    } by {
                    lemma_occurrences_take_step(data@, idx as int, x);
                }
                lemma_occurrences_take_le(data@, idx as int + 1, datum);
                assert(occurrences(data@, datum) > 0);
            }
            let c = match self.counts.get(&datum) {
                Some(c) => *c,
                None => 0,
            };
            self.counts.insert(datum, c + 1);
            idx = idx + 1;
        }
        proof {
            assert(data@.take(data@.len() as int) =~= data@);
            assert forall|x: u64| #[trigger] self.counts@.contains_key(x) <==> (start.contains_key(x)
                || data@.contains(x)) by {
                lemma_occurrences_contains(data@, x);
            }
            assert forall|x: u64| #[trigger] count_of(self.counts@, x) == count_of(start, x)
                + occurrences(data@, x) by {
                lemma_count_after_batch(start, data@, self.counts@, x);
            }
        }
        let mut best: Option<(u64, u64)> = None;
        for pair in it: self.counts.iter()
            invariant
                self.counts@.dom().finite(),
                match best {
                    Some((k, c)) => {
                        &&& self.counts@.contains_key(k)
                        &&& self.counts@[k] == c
                        &&& forall|j: int| 0 <= j < it.index() ==> *it.seq()[j].1 <= c
                    },
                    None => it.index() == 0,
                },
        {
            let (k, c) = pair;
            match best {
                Some((_, bc)) => {
                    if bc < *c {
                        best = Some((*k, *c));
                    }
                },
                None => {
                    best = Some((*k, *c));
                },
            }
        }
        best
    }
}

/// Counting two batches one after the other leaves the same counts as
/// counting their concatenation in one batch.
pub proof fn lemma_counts_batches_compose(
    old: Map<u64, u64>,
    a: Seq<u64>,
    mid: Map<u64, u64>,
    b: Seq<u64>,
    new: Map<u64, u64>,
)
    requires
        counts_added(old, a, mid),
        counts_added(mid, b, new),
    ensures
        counts_added(old, a + b, new),
{
    assert forall|x: u64| #[trigger] new.contains_key(x) <==> (old.contains_key(x) || occurrences(a + b, x) > 0) by {
        lemma_occurrences_concat(a, b, x);
        assert(mid.contains_key(x) <==> (old.contains_key(x) || occurrences(a, x) > 0));
    }
    assert forall|x: u64| #[trigger] new.contains_key(x) implies new[x] == count_of(old, x) + occurrences(a + b, x) by {
        lemma_occurrences_concat(a, b, x);
        assert(mid.contains_key(x) <==> (old.contains_key(x) || occurrences(a, x) > 0));
        if mid.contains_key(x) {
            assert(mid[x] == count_of(old, x) + occurrences(a, x));
        }
    }
}

/// A record's count after a batch is its earlier count plus its occurrences
/// in the batch, 0 for records neither seen before nor in the batch.
pub proof fn lemma_count_after_batch(old: Map<u64, u64>, data: Seq<u64>, new: Map<u64, u64>, x: u64)
    requires
        counts_added(old, data, new),
    ensures
        count_of(new, x) == count_of(old, x) + occurrences(data, x),
{
    assert(new.contains_key(x) <==> (old.contains_key(x) || occurrences(data, x) > 0));
}

/// The count reported after a batch is at least the count reported before it
/// and exceeds it by at most the number of records in the batch.
pub proof fn lemma_mode_count_bounds(
    before: Map<u64, u64>,
    k1: u64,
    c1: u64,
    data: Seq<u64>,
    after: Map<u64, u64>,
    k2: u64,
    c2: u64,
)
    requires
        is_mode_of(before, k1, c1),
        counts_added(before, data, after),
        is_mode_of(after, k2, c2),
    ensures
        c1 <= c2 <= c1 + data.len(),
{
    lemma_count_after_batch(before, data, after, k1);
    lemma_count_after_batch(before, data, after, k2);
    lemma_occurrences_le_len(data, k2);
    assert(after.contains_key(k1));
    if before.contains_key(k2) {
        assert(before[k2] <= c1);
    }
}

/// Counting a batch into given counts has one outcome.
pub proof fn lemma_counts_added_unique(
    old: Map<u64, u64>,
    data: Seq<u64>,
    new1: Map<u64, u64>,
    new2: Map<u64, u64>,
)
    requires
        counts_added(old, data, new1),
        counts_added(old, data, new2),
    ensures
        new1 == new2,
{
    assert forall|x: u64| new1.contains_key(x) implies new1[x] == new2[x] by {
        assert(new2.contains_key(x) <==> (old.contains_key(x) || occurrences(data, x) > 0));
    }
    assert(new1 =~= new2);
}

/// All most frequent records of given counts share one count, and when only
/// one record has that count it is the one reported.
pub proof fn lemma_mode_count_unique(m: Map<u64, u64>, k1: u64, c1: u64, k2: u64, c2: u64)
    requires
        is_mode_of(m, k1, c1),
        is_mode_of(m, k2, c2),
    ensures
        c1 == c2,
        (forall|x: u64| #[trigger] m.contains_key(x) && m[x] == c1 ==> x == k1) ==> k2 == k1,
{
}

/// Two runs of the mode operator fed the same batches from the same counts
/// hold the same counts after every batch, and so report the same count
/// after every batch (the same record too, whenever only one record has
/// the highest count).
pub proof fn lemma_mode_runs_agree(
    batches: Seq<Seq<u64>>,
    run1: Seq<Map<u64, u64>>,
    run2: Seq<Map<u64, u64>>,
)
    requires
        run1.len() == batches.len() + 1,
        run2.len() == batches.len() + 1,
        run1[0] == run2[0],
        forall|i: int| 0 <= i < batches.len() ==> counts_added(run1[i], #[trigger] batches[i], run1[i + 1]),
        forall|i: int| 0 <= i < batches.len() ==> counts_added(run2[i], #[trigger] batches[i], run2[i + 1]),
    ensures
        forall|i: int| 0 <= i < run1.len() ==> #[trigger] run1[i] == run2[i],
    decreases batches.len(),
{
    if batches.len() > 0 {
        let n = batches.len() - 1;
        lemma_mode_runs_agree(batches.take(n), run1.take(n + 1), run2.take(n + 1));
        assert(run1.take(n + 1)[n] == run1[n]);
        assert(run2.take(n + 1)[n] == run2[n]);
        assert(counts_added(run1[n], batches[n], run1[n + 1]));
        assert(counts_added(run2[n], batches[n], run2[n + 1]));
        lemma_counts_added_unique(run1[n], batches[n], run1[n + 1], run2[n + 1]);
        assert forall|i: int| 0 <= i < run1.len() implies #[trigger] run1[i] == run2[i] by {
            if i < n + 1 {
                assert(run1.take(n + 1)[i] == run1[i]);
                assert(run2.take(n + 1)[i] == run2[i]);
            }
        }
    }
}

} // verus!
