//! The keyed average of orders: orders are grouped by name (the group is
//! picked by the hash of the name), and each group accumulates the sum and
//! the number of its order values.

use vstd::prelude::*;
use std::collections::hash_map::DefaultHasher;
use std::hash::Hash;
use std::hash::Hasher;
use vstd::std_specs::hash::DefaultHasherAdditionalSpecFns;
use crate::math::seq_sum_u32;

verus! {

/// The byte writes that hashing the string `s` feeds to a `DefaultHasher`.
pub uninterp spec fn str_hash_writes(s: Seq<char>) -> Seq<Seq<u8>>;

/// Trusted: calls `<String as std::hash::Hash>::hash` with a `DefaultHasher`.
/// Claimed: the call appends to the hasher's record of writes a sequence of
/// writes that depends on the string's characters alone (std hashes a string
/// as its bytes followed by one terminator byte). What those writes are is
/// left unnamed beyond `str_hash_writes`.
#[verifier::external_body]
fn hash_string_into(s: &String, state: &mut DefaultHasher)
    ensures
        final(state)@ == old(state)@ + str_hash_writes(s@),
{
    s.hash(state)
}

/// The 64-bit hash of a string under a fresh `DefaultHasher`, used to route
/// all orders of one name to the same group.
pub fn hash_str(s: &String) -> (h: u64)
    ensures
        h == DefaultHasher::spec_finish(str_hash_writes(s@)),
{
    let mut state = DefaultHasher::new();
    hash_string_into(s, &mut state);
    proof {
        assert(Seq::<Seq<u8>>::empty() + str_hash_writes(s@) =~= str_hash_writes(s@));
    }
    state.finish()
}

/// Two strings with the same characters hash alike, so every order of one
/// name is routed to the same group.
pub proof fn lemma_hash_str_same_name(a: Seq<char>, b: Seq<char>)
    requires
        a == b,
    ensures
        DefaultHasher::spec_finish(str_hash_writes(a)) == DefaultHasher::spec_finish(
            str_hash_writes(b),
        ),
{
}

/// The per-name accumulator: the sum of the order values seen and how many
/// there were.
pub struct Ag {
    pub sum: u32,
    pub total_count: u32,
}

impl Default for Ag {
    /// An accumulator that has seen no order.
    fn default() -> (a: Ag)
        ensures
            a.sum == 0,
            a.total_count == 0,
    {
        Ag { sum: 0, total_count: 0 }
    }
}

/// The (sum, count) an accumulator holding `sum` and `count` reaches after
/// absorbing each value of `vals` in order.
pub open spec fn absorb_all(sum: int, count: int, vals: Seq<u32>) -> (int, int)
    decreases vals.len(),
{
    if vals.len() == 0 {
        (sum, count)
    } else {
        let (s, c) = absorb_all(sum, count, vals.drop_last());
        (s + vals.last(), c + 1)
    }
}

impl Ag {
    /// Absorbs one order value: adds it to the sum and counts it.
    pub fn absorb(&mut self, val: u32)
        requires
            old(self).sum + val <= u32::MAX,
            old(self).total_count + 1 <= u32::MAX,
        ensures
            final(self).sum == old(self).sum + val,
            final(self).total_count == old(self).total_count + 1,
            (final(self).sum as int, final(self).total_count as int) == absorb_all(
                old(self).sum as int,
                old(self).total_count as int,
                seq![val],
            ),
    {
        proof {
            assert(seq![val].drop_last() =~= Seq::<u32>::empty());
            reveal_with_fuel(absorb_all, 2);
        }
        self.sum = self.sum + val;
        self.total_count = self.total_count + 1;
    }
}

/// Absorbing a sequence of order values into a fresh accumulator leaves it
/// holding their sum and their number, the two parts of their average.
pub proof fn lemma_absorb_all_from_default(vals: Seq<u32>)
    ensures
        absorb_all(0, 0, vals) == (seq_sum_u32(vals), vals.len() as int),
    decreases vals.len(),
{
    if vals.len() > 0 {
        lemma_absorb_all_from_default(vals.drop_last());
    }
}

/// Absorbing two runs of values one after the other is absorbing their
/// concatenation.
pub proof fn lemma_absorb_all_concat(sum: int, count: int, a: Seq<u32>, b: Seq<u32>)
    ensures
        ({
            let (s, c) = absorb_all(sum, count, a);
            absorb_all(s, c, b)
        }) == absorb_all(sum, count, a + b),
    decreases b.len(),
{
    if b.len() == 0 {
        assert(a + b =~= a);
    } else {
        lemma_absorb_all_concat(sum, count, a, b.drop_last());
        assert((a + b).drop_last() =~= a + b.drop_last());
    }
}

} // verus!
