//! Per-batch logic of the aggregation operators: each function receives the
//! records of one input batch (and, for the stateful operators, the state the
//! operator keeps between batches) and returns what the operator emits for it.

use vstd::prelude::*;
use crate::math::{
    seq_sum, seq_product, seq_sum_u32, lemma_sum_take_step, lemma_sum_take_le,
    lemma_product_take_step, lemma_sum_u32_take_step, lemma_sum_u32_bound, lemma_sum_concat,
    lemma_product_concat, lemma_sum_permutation, lemma_product_zero,
};

verus! {

/// The running total after `data` has been added to the total `acc`
/// (`None` while no record at all has been seen), over the integers.
pub open spec fn sum_step(acc: Option<int>, data: Seq<u64>) -> Option<int> {
    match acc {
        Some(a) => Some(a + seq_sum(data)),
        None => if data.len() == 0 {
            None
        } else {
            Some(seq_sum(data))
        },
    }
}

/// A stored running total read as an integer.
pub open spec fn total_as_int(acc: Option<u64>) -> Option<int> {
    match acc {
        Some(a) => Some(a as int),
        None => None,
    }
}

/// The running total an operator holds after it has seen `data` on top of
/// `acc`: `None` while no record at all has been seen.
pub open spec fn sum_after(acc: Option<u64>, data: Seq<u64>) -> Option<int> {
    sum_step(total_as_int(acc), data)
}

/// The running total after each batch of `batches` has been added in turn,
/// starting from `acc`.
pub open spec fn sum_over_batches(acc: Option<int>, batches: Seq<Seq<u64>>) -> Option<int>
    decreases batches.len(),
{
    if batches.len() == 0 {
        acc
    } else {
        sum_over_batches(sum_step(acc, batches[0]), batches.drop_first())
    }
}

/// The factor a running product starts from: the product so far, or 1 when
/// no record has been seen yet.
pub open spec fn product_base(acc: Option<u64>) -> int {
    match acc {
        Some(a) => a as int,
        None => 1,
    }
}

/// The running product an operator holds after it has seen `data` on top of
/// `acc`: `None` while no record at all has been seen.
pub open spec fn product_after(acc: Option<u64>, data: Seq<u64>) -> Option<int> {
    if acc is None && data.len() == 0 {
        None
    } else {
        Some(product_base(acc) * seq_product(data))
    }
}

/// No partial product formed while multiplying `data` into `acc`, one record
/// at a time, exceeds `u64::MAX`.
pub open spec fn product_fits(acc: Option<u64>, data: Seq<u64>) -> bool {
    forall|i: int|
        #![trigger data.take(i)]
        0 <= i <= data.len() ==> product_base(acc) * seq_product(data.take(i)) <= u64::MAX
}

/// State of the summing operator: the total of every record seen so far,
/// over all batches, or `None` before the first record.
pub struct RunningSum {
    pub total: Option<u64>,
}

impl RunningSum {
    /// A summing operator that has seen nothing yet.
    pub fn new() -> (s: Self)
        ensures
            s.total is None,
    {
        RunningSum { total: None }
    }

    /// Adds the records of one batch into the running total and returns the
    /// value the operator emits for the batch: the new running total, or
    /// `None` (nothing emitted) while no record has been seen at all.
    pub fn on_batch(&mut self, data: &[u64]) -> (out: Option<u64>)
        requires
            match old(self).total {
                Some(a) => a + seq_sum(data@) <= u64::MAX,
                None => seq_sum(data@) <= u64::MAX,
            },
        ensures
            final(self).total == out,
            out is None <==> (old(self).total is None && data@.len() == 0),
            out matches Some(v) ==> v == match old(self).total {
                Some(a) => a + seq_sum(data@),
                None => seq_sum(data@),
            },
            match (out, sum_after(old(self).total, data@)) {
                (Some(v), Some(w)) => v == w,
                (None, None) => true,
                _ => false,
            },
    {
        let ghost start = self.total;
        let mut idx: usize = 0;
        while idx < data.len()
            invariant
                0 <= idx <= data@.len(),
                match start {
                    Some(a) => a + seq_sum(data@) <= u64::MAX,
                    None => seq_sum(data@) <= u64::MAX,
                },
                match (self.total, sum_after(start, data@.take(idx as int))) {
                    (Some(v), Some(w)) => v == w,
                    (None, None) => true,
                    _ => false,
                },
            decreases data@.len() - idx,
        {
            proof {
                lemma_sum_take_step(data@, idx as int);
                lemma_sum_take_le(data@, idx as int + 1);
                lemma_sum_take_le(data@, idx as int);
            }
            let datum = data[idx];
            match self.total {
                Some(x) => {
                    self.total = Some(x + datum);
                },
                None => {
                    self.total = Some(datum);
                },
            }
            idx = idx + 1;
        }
        proof {
            assert(data@.take(data@.len() as int) =~= data@);
        }
        self.total
    }
}

/// State of the multiplying operator: the product of every record seen so
/// far, over all batches, or `None` before the first record.
pub struct RunningProduct {
    pub product: Option<u64>,
}

impl RunningProduct {
    /// A multiplying operator that has seen nothing yet.
    pub fn new() -> (s: Self)
        ensures
            s.product is None,
    {
        RunningProduct { product: None }
    }

    /// Multiplies the records of one batch into the running product and
    /// returns the value the operator emits for the batch: the new running
    /// product, or `None` (nothing emitted) while no record has been seen.
    pub fn on_batch(&mut self, data: &[u64]) -> (out: Option<u64>)
        requires
            product_fits(old(self).product, data@),
        ensures
            final(self).product == out,
            out is None <==> (old(self).product is None && data@.len() == 0),
            out matches Some(v) ==> v == match old(self).product {
                Some(a) => a * seq_product(data@),
                None => seq_product(data@),
            },
            match (out, product_after(old(self).product, data@)) {
                (Some(v), Some(w)) => v == w,
                (None, None) => true,
                _ => false,
            },
    {
        let ghost start = self.product;
        let mut idx: usize = 0;
        while idx < data.len()
            invariant
                0 <= idx <= data@.len(),
                product_fits(start, data@),
                match (self.product, product_after(start, data@.take(idx as int))) {
                    (Some(v), Some(w)) => v == w,
                    (None, None) => true,
                    _ => false,
                },
            decreases data@.len() - idx,
        {
            let datum = data[idx];
            proof {
                lemma_product_take_step(data@, idx as int);
                let b = product_base(start);
                let p = seq_product(data@.take(idx as int));
                vstd::arithmetic::mul::lemma_mul_is_associative(b, p, datum as int);
                assert(b * seq_product(data@.take(idx as int + 1)) <= u64::MAX);
                if start is None && idx == 0 {
                    assert(data@.take(0) =~= Seq::<u64>::empty());
                }
            }
            match self.product {
                Some(x) => {
                    self.product = Some(x * datum);
                },
                None => {
                    self.product = Some(datum);
                },
            }
            idx = idx + 1;
        }
        proof {
            assert(data@.take(data@.len() as int) =~= data@);
        }
        self.product
    }
}

/// Feeding the summing operator two batches one after the other leaves the
/// same running total as feeding it their concatenation in one batch.
pub proof fn lemma_sum_batches_compose(acc: Option<u64>, a: Seq<u64>, b: Seq<u64>, mid: u64)
    requires
        sum_after(acc, a) == Some(mid as int),
    ensures
        sum_after(Some(mid), b) == sum_after(acc, a + b),
{
    lemma_sum_concat(a, b);
}

/// A batch with no records leaves the summing operator's state unchanged.
pub proof fn lemma_sum_empty_batch(acc: Option<u64>)
    ensures
        match acc {
            Some(a) => sum_after(acc, Seq::empty()) == Some(a as int),
            None => sum_after(acc, Seq::empty()) is None,
        },
{
}

/// The summing operator holds no total exactly while it has seen no record;
/// otherwise its total is the earlier total (0 if none) plus the batch's sum.
pub proof fn lemma_sum_after_law(acc: Option<u64>, data: Seq<u64>)
    ensures
        sum_after(acc, data) is None <==> (acc is None && data.len() == 0),
        sum_after(acc, data) matches Some(v) ==> v == match acc {
            Some(a) => a + seq_sum(data),
            None => seq_sum(data),
        },
        data.len() > 0 ==> sum_after(acc, data) is Some,
{
}

/// The multiplying operator holds no product exactly while it has seen no
/// record; otherwise its product is the earlier product (1 if none) times the
/// batch's product.
pub proof fn lemma_product_after_law(acc: Option<u64>, data: Seq<u64>)
    ensures
        product_after(acc, data) is None <==> (acc is None && data.len() == 0),
        product_after(acc, data) matches Some(v) ==> v == match acc {
            Some(a) => a * seq_product(data),
            None => seq_product(data),
        },
        data.len() > 0 ==> product_after(acc, data) is Some,
{
}

/// Adding a sequence of batches in turn leaves the running total of adding
/// all their records, in order, in one batch.
pub proof fn lemma_sum_over_batches_flat(acc: Option<int>, batches: Seq<Seq<u64>>)
    ensures
        sum_over_batches(acc, batches) == sum_step(acc, batches.flatten()),
    decreases batches.len(),
{
    if batches.len() > 0 {
        let first = batches[0];
        let rest = batches.drop_first();
        lemma_sum_over_batches_flat(sum_step(acc, first), rest);
        lemma_sum_concat(first, rest.flatten());
        assert(batches.flatten() == first + rest.flatten());
        if acc is None && first.len() == 0 {
            assert(first + rest.flatten() =~= rest.flatten());
        }
    }
}

/// The final running total depends only on which records arrived, not on how
/// they were split into batches nor on their order: two runs whose batches
/// hold the same records overall end with the same total.
pub proof fn lemma_sum_order_independent(
    acc: Option<int>,
    run1: Seq<Seq<u64>>,
    run2: Seq<Seq<u64>>,
)
    requires
        run1.flatten().to_multiset() == run2.flatten().to_multiset(),
    ensures
        sum_over_batches(acc, run1) == sum_over_batches(acc, run2),
{
    broadcast use vstd::seq_lib::group_to_multiset_ensures;

    lemma_sum_over_batches_flat(acc, run1);
    lemma_sum_over_batches_flat(acc, run2);
    lemma_sum_permutation(run1.flatten(), run2.flatten());
    assert(run1.flatten().len() == run1.flatten().to_multiset().len());
    assert(run2.flatten().len() == run2.flatten().to_multiset().len());
}

/// A batch holding a 0 makes the running product 0, whatever it was.
pub proof fn lemma_product_zero_record(acc: Option<u64>, data: Seq<u64>)
    requires
        data.contains(0),
    ensures
        product_after(acc, data) == Some(0int),
{
    lemma_product_zero(data);
}

/// Once the running product is 0 it stays 0 for every later batch.
pub proof fn lemma_product_stays_zero(data: Seq<u64>)
    ensures
        product_after(Some(0u64), data) == Some(0int),
{
}

/// Feeding the multiplying operator two batches one after the other leaves
/// the same running product as feeding it their concatenation in one batch.
pub proof fn lemma_product_batches_compose(acc: Option<u64>, a: Seq<u64>, b: Seq<u64>, mid: u64)
    requires
        product_after(acc, a) == Some(mid as int),
    ensures
        product_after(Some(mid), b) == product_after(acc, a + b),
{
    lemma_product_concat(a, b);
    vstd::arithmetic::mul::lemma_mul_is_associative(
        product_base(acc),
        seq_product(a),
        seq_product(b),
    );
    if acc is None {
        assert((a + b).len() > 0);
    }
}

/// `m` is the largest value in the non-empty sequence `s`.
pub open spec fn is_largest(s: Seq<u64>, m: u64) -> bool {
    &&& s.contains(m)
    &&& forall|i: int| 0 <= i < s.len() ==> s[i] <= m
}

/// `m` is the smallest value in the non-empty sequence `s`.
pub open spec fn is_smallest(s: Seq<u64>, m: u64) -> bool {
    &&& s.contains(m)
    &&& forall|i: int| 0 <= i < s.len() ==> m <= s[i]
}

/// The value the maximum operator emits for one batch: its largest record.
/// A batch reaching the operator is never empty.
pub fn max(data: &[u64]) -> (m: u64)
    requires
        data@.len() > 0,
    ensures
        data@.contains(m),
        forall|i: int| 0 <= i < data@.len() ==> data@[i] <= m,
        is_largest(data@, m),
{
    let mut largest = data[0];
    let mut idx: usize = 0;
    while idx < data.len()
        invariant
            0 <= idx <= data@.len(),
            data@.len() > 0,
            data@.contains(largest),
            forall|i: int| 0 <= i < idx ==> data@[i] <= largest,
        decreases data@.len() - idx,
    {
        let d = data[idx];
        if d > largest {
            largest = d;
        }
        idx = idx + 1;
    }
    largest
}

/// The value the minimum operator emits for one batch: its smallest record.
/// A batch reaching the operator is never empty.
pub fn min(data: &[u64]) -> (m: u64)
    requires
        data@.len() > 0,
    ensures
        data@.contains(m),
        forall|i: int| 0 <= i < data@.len() ==> m <= data@[i],
        is_smallest(data@, m),
{
    let mut smallest = data[0];
    let mut idx: usize = 0;
    while idx < data.len()
        invariant
            0 <= idx <= data@.len(),
            data@.len() > 0,
            data@.contains(smallest),
            forall|i: int| 0 <= i < idx ==> smallest <= data@[i],
        decreases data@.len() - idx,
    {
        let d = data[idx];
        if smallest > d {
            smallest = d;
        }
        idx = idx + 1;
    }
    smallest
}

/// `out` is the longest prefix of `data` whose records all satisfy
/// `predicate`: every record of it passes, and the record after it, if any,
/// fails.
pub open spec fn takes_while<T, F: Fn(&T) -> bool>(data: Seq<T>, out: Seq<T>, predicate: F) -> bool {
    &&& out.len() <= data.len()
    &&& out == data.take(out.len() as int)
    &&& forall|i: int| 0 <= i < out.len() ==> call_ensures(predicate, (&data[i],), true)
    &&& out.len() < data.len() ==> call_ensures(predicate, (&data[out.len() as int],), false)
}

/// `predicate` gives one answer for each record.
pub open spec fn answers_alike<T, F: Fn(&T) -> bool>(predicate: F) -> bool {
    forall|x: &T, a: bool, b: bool|
        #[trigger] call_ensures(predicate, (x,), a) && #[trigger] call_ensures(predicate, (x,), b)
            ==> a == b
}

/// Taking while a predicate holds, then again with the same predicate, keeps
/// exactly what the first pass kept: every record the first pass kept passes.
pub proof fn lemma_take_while_idempotent<T, F: Fn(&T) -> bool>(
    data: Seq<T>,
    once: Seq<T>,
    twice: Seq<T>,
    predicate: F,
)
    requires
        answers_alike::<T, F>(predicate),
        takes_while(data, once, predicate),
        takes_while(once, twice, predicate),
    ensures
        twice == once,
{
    if twice.len() < once.len() {
        let n = twice.len() as int;
        assert(once[n] == data[n]);
        assert(call_ensures(predicate, (&once[n],), false));
        assert(call_ensures(predicate, (&data[n],), true));
    }
    assert(twice =~= once);
}

/// The records the take-while operator emits for one batch: the longest
/// prefix of the batch whose records all satisfy `predicate`. The first record
/// that fails it ends the batch; the records after it are dropped.
pub fn take_while<T, F: Fn(&T) -> bool>(data: Vec<T>, predicate: F) -> (out: Vec<T>)
    requires
        forall|i: int| 0 <= i < data@.len() ==> call_requires(predicate, (&data@[i],)),
    ensures
        out@.len() <= data@.len(),
        forall|i: int| 0 <= i < out@.len() ==> out@[i] == data@[i],
        forall|i: int| 0 <= i < out@.len() ==> call_ensures(predicate, (&data@[i],), true),
        out@.len() < data@.len() ==> call_ensures(predicate, (&data@[out@.len() as int],), false),
        takes_while(data@, out@, predicate),
{
    let mut data = data;
    let mut n: usize = 0;
    let mut stopped = false;
    while n < data.len() && !stopped
        invariant
            0 <= n <= data@.len(),
            forall|i: int| 0 <= i < data@.len() ==> call_requires(predicate, (&data@[i],)),
            forall|i: int| 0 <= i < n ==> call_ensures(predicate, (&data@[i],), true),
            stopped ==> n < data@.len() && call_ensures(predicate, (&data@[n as int],), false),
        decreases data@.len() - n, if stopped { 0int } else { 1int },
    {
        if predicate(&data[n]) {
            n = n + 1;
        } else {
            stopped = true;
        }
    }
    let ghost whole = data@;
    data.truncate(n);
    proof {
        assert(data@ =~= whole.take(n as int));
    }
    data
}

/// The exact parts of the average the averaging operator emits for one batch:
/// the sum of its records and their number. The emitted average is the sum
/// divided by the count, as a float.
pub fn average_parts(data: &[u32]) -> (parts: (u128, usize))
    ensures
        parts.0 == seq_sum_u32(data@),
        parts.1 == data@.len(),
{
    let mut sum: u128 = 0;
    let mut idx: usize = 0;
    while idx < data.len()
        invariant
            0 <= idx <= data@.len(),
            sum == seq_sum_u32(data@.take(idx as int)),
        decreases data@.len() - idx,
    {
        proof {
            lemma_sum_u32_take_step(data@, idx as int);
            lemma_sum_u32_bound(data@.take(idx as int + 1));
            assert(data@.len() <= usize::MAX);
            assert((idx as int + 1) * 0xffff_ffff < 0x1_0000_0000_0000_0000 * 0x1_0000_0000)
                by (nonlinear_arith)
                requires
                    idx < 0x1_0000_0000_0000_0000,
            ;
        }
        sum = sum + data[idx] as u128;
        idx = idx + 1;
    }
    proof {
        assert(data@.take(data@.len() as int) =~= data@);
    }
    (sum, data.len())
}

} // verus!
