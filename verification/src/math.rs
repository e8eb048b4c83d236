use vstd::prelude::*;

verus! {

/// The value `m` holds for `x`, or 0 when `x` is not a key of `m`.
pub open spec fn count_of(m: Map<u64, u64>, x: u64) -> int {
    if m.contains_key(x) {
        m[x] as int
    } else {
        0
    }
}

/// Sum of a sequence of unsigned integers, as a mathematical integer.
pub open spec fn seq_sum(s: Seq<u64>) -> int
    decreases s.len(),
{
    if s.len() == 0 {
        0
    } else {
        seq_sum(s.drop_last()) + s.last()
    }
}

/// Product of a sequence of unsigned integers, as a mathematical integer
/// (1 for the empty sequence).
pub open spec fn seq_product(s: Seq<u64>) -> int
    decreases s.len(),
{
    if s.len() == 0 {
        1
    } else {
        seq_product(s.drop_last()) * s.last()
    }
}

/// Number of times `x` occurs in `s`.
pub open spec fn occurrences(s: Seq<u64>, x: u64) -> nat
    decreases s.len(),
{
    if s.len() == 0 {
        0
    } else {
        occurrences(s.drop_last(), x) + if s.last() == x {
            1nat
        } else {
            0nat
        }
    }
}

/// Sum of a sequence of 32-bit unsigned integers, as a mathematical integer.
pub open spec fn seq_sum_u32(s: Seq<u32>) -> int
    decreases s.len(),
{
    if s.len() == 0 {
        0
    } else {
        seq_sum_u32(s.drop_last()) + s.last()
    }
}

/// Extending a prefix by one element extends its sum by that element.
pub proof fn lemma_sum_take_step(s: Seq<u64>, i: int)
    requires
        0 <= i < s.len(),
    ensures
        seq_sum(s.take(i + 1)) == seq_sum(s.take(i)) + s[i],
{
    assert(s.take(i + 1).drop_last() =~= s.take(i));
}

/// A prefix sum never exceeds the sum of the whole sequence.
pub proof fn lemma_sum_take_le(s: Seq<u64>, i: int)
    requires
        0 <= i <= s.len(),
    ensures
        0 <= seq_sum(s.take(i)) <= seq_sum(s),
    decreases s.len() - i,
{
    if i == s.len() {
        assert(s.take(i) =~= s);
        lemma_sum_nonneg(s);
    } else {
        lemma_sum_take_step(s, i);
        lemma_sum_take_le(s, i + 1);
        lemma_sum_nonneg(s.take(i));
    }
}

/// Sums of unsigned integers are non-negative.
pub proof fn lemma_sum_nonneg(s: Seq<u64>)
    ensures
        seq_sum(s) >= 0,
    decreases s.len(),
{
    if s.len() > 0 {
        lemma_sum_nonneg(s.drop_last());
    }
}

/// Extending a prefix by one element multiplies its product by that element.
pub proof fn lemma_product_take_step(s: Seq<u64>, i: int)
    requires
        0 <= i < s.len(),
    ensures
        seq_product(s.take(i + 1)) == seq_product(s.take(i)) * s[i],
{
    assert(s.take(i + 1).drop_last() =~= s.take(i));
}

/// Extending a prefix by one element adds one occurrence of that element.
pub proof fn lemma_occurrences_take_step(s: Seq<u64>, i: int, x: u64)
    requires
        0 <= i < s.len(),
    ensures
        occurrences(s.take(i + 1), x) == occurrences(s.take(i), x) + if s[i] == x {
            1nat
        } else {
            0nat
        },
{
    assert(s.take(i + 1).drop_last() =~= s.take(i));
}

/// A prefix holds no more occurrences of `x` than the whole sequence.
pub proof fn lemma_occurrences_take_le(s: Seq<u64>, i: int, x: u64)
    requires
        0 <= i <= s.len(),
    ensures
        occurrences(s.take(i), x) <= occurrences(s, x),
    decreases s.len() - i,
{
    if i == s.len() {
        assert(s.take(i) =~= s);
    } else {
        lemma_occurrences_take_step(s, i, x);
        lemma_occurrences_take_le(s, i + 1, x);
    }
}

/// Extending a prefix by one element extends its sum by that element.
pub proof fn lemma_sum_u32_take_step(s: Seq<u32>, i: int)
    requires
        0 <= i < s.len(),
    ensures
        seq_sum_u32(s.take(i + 1)) == seq_sum_u32(s.take(i)) + s[i],
{
    assert(s.take(i + 1).drop_last() =~= s.take(i));
}

/// A sum of `n` 32-bit values is at most `n` times the largest 32-bit value.
pub proof fn lemma_sum_u32_bound(s: Seq<u32>)
    ensures
        0 <= seq_sum_u32(s) <= s.len() * 0xffff_ffff,
    decreases s.len(),
{
    if s.len() > 0 {
        lemma_sum_u32_bound(s.drop_last());
    }
}

/// The sum of a concatenation is the sum of the sums.
pub proof fn lemma_sum_concat(a: Seq<u64>, b: Seq<u64>)
    ensures
        seq_sum(a + b) == seq_sum(a) + seq_sum(b),
    decreases b.len(),
{
    if b.len() == 0 {
        assert(a + b =~= a);
    } else {
        lemma_sum_concat(a, b.drop_last());
        assert((a + b).drop_last() =~= a + b.drop_last());
    }
}

/// The product of a concatenation is the product of the products.
pub proof fn lemma_product_concat(a: Seq<u64>, b: Seq<u64>)
    ensures
        seq_product(a + b) == seq_product(a) * seq_product(b),
    decreases b.len(),
{
    if b.len() == 0 {
        assert(a + b =~= a);
    } else {
        lemma_product_concat(a, b.drop_last());
        assert((a + b).drop_last() =~= a + b.drop_last());
        vstd::arithmetic::mul::lemma_mul_is_associative(
            seq_product(a),
            seq_product(b.drop_last()),
            b.last() as int,
        );
    }
}

/// The occurrences in a concatenation are the occurrences in each part.
pub proof fn lemma_occurrences_concat(a: Seq<u64>, b: Seq<u64>, x: u64)
    ensures
        occurrences(a + b, x) == occurrences(a, x) + occurrences(b, x),
    decreases b.len(),
{
    if b.len() == 0 {
        assert(a + b =~= a);
    } else {
        lemma_occurrences_concat(a, b.drop_last(), x);
        assert((a + b).drop_last() =~= a + b.drop_last());
    }
}

/// The sum of a one-element sequence is its element.
pub proof fn lemma_sum_single(x: u64)
    ensures
        seq_sum(seq![x]) == x,
{
    assert(seq![x].drop_last() =~= Seq::<u64>::empty());
    assert(seq_sum(Seq::<u64>::empty()) == 0);
    assert(seq![x].last() == x);
}

/// Removing the element at `j` takes that element off the sum.
pub proof fn lemma_sum_remove(s: Seq<u64>, j: int)
    requires
        0 <= j < s.len(),
    ensures
        seq_sum(s) == seq_sum(s.remove(j)) + s[j],
{
    let pre = s.take(j);
    let post = s.skip(j + 1);
    assert(s =~= pre + (seq![s[j]] + post));
    assert(s.remove(j) =~= pre + post);
    lemma_sum_concat(pre, seq![s[j]] + post);
    lemma_sum_concat(seq![s[j]], post);
    lemma_sum_concat(pre, post);
    lemma_sum_single(s[j]);
}

/// Sequences holding the same records, in any order, have the same sum.
pub proof fn lemma_sum_permutation(a: Seq<u64>, b: Seq<u64>)
    requires
        a.to_multiset() == b.to_multiset(),
    ensures
        seq_sum(a) == seq_sum(b),
    decreases a.len(),
{
    broadcast use vstd::seq_lib::group_to_multiset_ensures;
    broadcast use vstd::multiset::group_multiset_axioms;

    if a.len() == 0 {
        assert(b.to_multiset().len() == 0);
        assert(b.len() == 0);
    } else {
        let x = a.last();
        let rest = a.drop_last();
        assert(a =~= rest.push(x));
        assert(a.to_multiset().count(x) > 0);
        assert(b.contains(x));
        let j = choose|j: int| 0 <= j < b.len() && b[j] == x;
        let rest_b = b.remove(j);
        assert(rest_b.to_multiset() =~= b.to_multiset().remove(x));
        assert(rest.to_multiset() =~= a.to_multiset().remove(x));
        lemma_sum_permutation(rest, rest_b);
        lemma_sum_remove(b, j);
    }
}

/// A sequence holding a 0 has product 0.
pub proof fn lemma_product_zero(s: Seq<u64>)
    requires
        s.contains(0),
    ensures
        seq_product(s) == 0,
    decreases s.len(),
{
    if s.last() != 0 {
        let i = choose|i: int| 0 <= i < s.len() && s[i] == 0;
        assert(s.drop_last()[i] == 0);
        lemma_product_zero(s.drop_last());
    }
}

/// A record occurs in a sequence exactly when the sequence contains it.
pub proof fn lemma_occurrences_contains(s: Seq<u64>, x: u64)
    ensures
        occurrences(s, x) > 0 <==> s.contains(x),
    decreases s.len(),
{
    if s.len() > 0 {
        lemma_occurrences_contains(s.drop_last(), x);
        if s.drop_last().contains(x) {
            let i = choose|i: int| 0 <= i < s.drop_last().len() && s.drop_last()[i] == x;
            assert(s[i] == x);
        }
        if s.contains(x) && s.last() != x {
            let i = choose|i: int| 0 <= i < s.len() && s[i] == x;
            assert(s.drop_last()[i] == x);
        }
        if s.last() == x {
            assert(s[s.len() - 1] == x);
        }
    }
}

/// A record cannot occur more often than the sequence is long.
pub proof fn lemma_occurrences_le_len(s: Seq<u64>, x: u64)
    ensures
        occurrences(s, x) <= s.len(),
    decreases s.len(),
{
    if s.len() > 0 {
        lemma_occurrences_le_len(s.drop_last(), x);
    }
}

} // verus!
