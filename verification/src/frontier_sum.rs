//! The per-timestamp summing operator: records arrive in batches tagged with
//! a timestamp; the operator adds each batch into a stash entry for its
//! timestamp, asks to be notified when the timestamp is complete, and on that
//! notification removes the entry and emits the total.

use vstd::prelude::*;
use std::collections::HashMap;
use crate::math::{count_of, seq_sum, lemma_sum_take_step, lemma_sum_take_le, lemma_sum_nonneg,
    lemma_sum_concat, lemma_sum_permutation};

verus! {

broadcast use vstd::std_specs::hash::group_hash_axioms;

/// The stash after a batch `data` tagged `time` has been added to `m`.
pub open spec fn input_step(m: Map<u64, u64>, time: u64, data: Seq<u64>) -> Map<u64, u64> {
    m.insert(time, (count_of(m, time) + seq_sum(data)) as u64)
}

/// Adding the batch `data` tagged `time` to `m` overflows no total.
pub open spec fn input_fits(m: Map<u64, u64>, time: u64, data: Seq<u64>) -> bool {
    count_of(m, time) + seq_sum(data) <= u64::MAX
}

/// The stash after the notification for `time`, and what that notification
/// emits.
pub open spec fn notify_step(m: Map<u64, u64>, time: u64) -> (Map<u64, u64>, Option<u64>) {
    (m.remove(time), if m.contains_key(time) {
        Some(m[time])
    } else {
        None
    })
}

/// The stash after the batches of `events`, each a timestamp and its records,
/// have been added to `m` in order.
pub open spec fn apply_inputs(m: Map<u64, u64>, events: Seq<(u64, Seq<u64>)>) -> Map<u64, u64>
    decreases events.len(),
{
    if events.len() == 0 {
        m
    } else {
        input_step(apply_inputs(m, events.drop_last()), events.last().0, events.last().1)
    }
}

/// No total overflows while the batches of `events` are added to `m` in order.
pub open spec fn inputs_fit(m: Map<u64, u64>, events: Seq<(u64, Seq<u64>)>) -> bool
    decreases events.len(),
{
    if events.len() == 0 {
        true
    } else {
        &&& inputs_fit(m, events.drop_last())
        &&& input_fits(apply_inputs(m, events.drop_last()), events.last().0, events.last().1)
    }
}

/// The sum of all records in the batches of `events` tagged `time`.
pub open spec fn total_at(events: Seq<(u64, Seq<u64>)>, time: u64) -> int
    decreases events.len(),
{
    if events.len() == 0 {
        0
    } else {
        total_at(events.drop_last(), time) + if events.last().0 == time {
            seq_sum(events.last().1)
        } else {
            0
        }
    }
}

/// The records of the batches of `events` tagged `time`, in arrival order.
pub open spec fn records_at(events: Seq<(u64, Seq<u64>)>, time: u64) -> Seq<u64>
    decreases events.len(),
{
    if events.len() == 0 {
        Seq::empty()
    } else if events.last().0 == time {
        records_at(events.drop_last(), time) + events.last().1
    } else {
        records_at(events.drop_last(), time)
    }
}

/// Some batch of `events` is tagged `time`.
pub open spec fn has_batch_at(events: Seq<(u64, Seq<u64>)>, time: u64) -> bool {
    exists|i: int| 0 <= i < events.len() && #[trigger] events[i].0 == time
}

/// State of the per-timestamp summing operator: the running total of each
/// timestamp that has received input and has not been released yet.
pub struct FrontierSum {
    stash: HashMap<u64, u64>,
}

impl View for FrontierSum {
    type V = Map<u64, u64>;

    closed spec fn view(&self) -> Map<u64, u64> {
        self.stash@
    }
}

impl FrontierSum {
    /// An operator with an empty stash.
    pub fn new() -> (s: Self)
        ensures
            s@ == Map::<u64, u64>::empty(),
    {
        FrontierSum { stash: HashMap::new() }
    }

    /// The total stashed for `time` so far (0 when it has no entry).
    pub fn pending(&self, time: u64) -> (t: u64)
        ensures
            t == count_of(self@, time),
    {
        match self.stash.get(&time) {
            Some(v) => *v,
            None => 0,
        }
    }

    /// Adds a batch tagged `time` into the stash entry of `time`, creating
    /// the entry (at 0) if there is none, also for an empty batch. The caller
    /// then asks to be notified once `time` is complete.
    pub fn on_input(&mut self, time: u64, data: &[u64])
        requires
            input_fits(old(self)@, time, data@),
        ensures
            final(self)@.contains_key(time),
            final(self)@[time] == (if old(self)@.contains_key(time) {
                old(self)@[time] as int
            } else {
                0
            }) + seq_sum(data@),
            forall|t: u64|
                t != time ==> (#[trigger] final(self)@.contains_key(t) <==> old(self)@.contains_key(t)),
            forall|t: u64|
                t != time && old(self)@.contains_key(t) ==> #[trigger] final(self)@[t] == old(self)@[t],
            final(self)@ == input_step(old(self)@, time, data@),
    {
        let mut total: u64 = match self.stash.get(&time) {
            Some(v) => *v,
            None => 0,
        };
        let ghost start = total;
        let mut idx: usize = 0;
        while idx < data.len()
            invariant
                0 <= idx <= data@.len(),
                start + seq_sum(data@) <= u64::MAX,
                total == start + seq_sum(data@.take(idx as int)),
            decreases data@.len() - idx,
        {
            proof {
                lemma_sum_take_step(data@, idx as int);
                lemma_sum_take_le(data@, idx as int + 1);
            }
            total = total + data[idx];
            idx = idx + 1;
        }
        proof {
            assert(data@.take(data@.len() as int) =~= data@);
        }
        self.stash.insert(time, total);
    }

    /// The notification that `time` is complete: removes the stash entry of
    /// `time` and returns its total, which the operator emits at `time`;
    /// `None` (nothing emitted) when `time` has no entry.
    pub fn on_notify(&mut self, time: u64) -> (out: Option<u64>)
        ensures
            final(self)@ == old(self)@.remove(time),
            out == (if old(self)@.contains_key(time) {
                Some(old(self)@[time])
            } else {
                None
            }),
            (final(self)@, out) == notify_step(old(self)@, time),
    {
        self.stash.remove(&time)
    }
}

/// The stash after a sequence of batches holds, for each timestamp, its
/// earlier total plus the sum of the records of the batches tagged with it,
/// and it holds an entry exactly for the timestamps that had one or received a
/// batch.
pub proof fn lemma_inputs_accumulate(m: Map<u64, u64>, events: Seq<(u64, Seq<u64>)>, time: u64)
    requires
        inputs_fit(m, events),
    ensures
        apply_inputs(m, events).contains_key(time) <==> (m.contains_key(time) || has_batch_at(
            events,
            time,
        )),
        count_of(apply_inputs(m, events), time) == count_of(m, time) + total_at(events, time),
    decreases events.len(),
{
    if events.len() > 0 {
        let prev = events.drop_last();
        lemma_inputs_accumulate(m, prev, time);
        if has_batch_at(events, time) && !has_batch_at(prev, time) {
            let i = choose|i: int| 0 <= i < events.len() && #[trigger] events[i].0 == time;
            if i < prev.len() {
                assert(prev[i].0 == time);
            }
        }
        if has_batch_at(prev, time) {
            let i = choose|i: int| 0 <= i < prev.len() && #[trigger] prev[i].0 == time;
            assert(events[i].0 == time);
        }
        if events.last().0 == time {
            assert(events[events.len() - 1].0 == time);
            lemma_sum_nonneg(events.last().1);
            assert(input_fits(apply_inputs(m, prev), time, events.last().1));
        }
    }
}

/// The notification for a timestamp that had no entry before a sequence of
/// batches emits exactly the sum of the records of the batches tagged with it
/// (nothing when no batch was), and leaves every other timestamp's entry as it
/// was.
pub proof fn lemma_notify_emits_total(
    m: Map<u64, u64>,
    events: Seq<(u64, Seq<u64>)>,
    time: u64,
    other: u64,
)
    requires
        inputs_fit(m, events),
        !m.contains_key(time),
        other != time,
    ensures
        notify_step(apply_inputs(m, events), time).1 == if has_batch_at(events, time) {
            Some(total_at(events, time) as u64)
        } else {
            None
        },
        notify_step(apply_inputs(m, events), time).0.contains_key(other) <==> apply_inputs(
            m,
            events,
        ).contains_key(other),
        count_of(notify_step(apply_inputs(m, events), time).0, other) == count_of(
            apply_inputs(m, events),
            other,
        ),
        !notify_step(apply_inputs(m, events), time).0.contains_key(time),
{
    lemma_inputs_accumulate(m, events, time);
}

/// Adding a batch at a timestamp without an entry and then notifying that
/// timestamp emits the batch's sum and leaves the stash as it was.
pub proof fn lemma_notify_undoes_input(m: Map<u64, u64>, time: u64, data: Seq<u64>)
    requires
        !m.contains_key(time),
        input_fits(m, time, data),
    ensures
        notify_step(input_step(m, time, data), time) == (m, Some(seq_sum(data) as u64)),
{
    assert(input_step(m, time, data).remove(time) =~= m);
}

/// The total of a timestamp is the sum of the records that arrived for it.
pub proof fn lemma_total_is_sum_of_records(events: Seq<(u64, Seq<u64>)>, time: u64)
    ensures
        total_at(events, time) == seq_sum(records_at(events, time)),
    decreases events.len(),
{
    if events.len() > 0 {
        lemma_total_is_sum_of_records(events.drop_last(), time);
        if events.last().0 == time {
            lemma_sum_concat(records_at(events.drop_last(), time), events.last().1);
        }
    }
}

/// The stash does not depend on how the records of a timestamp were split
/// into batches nor on the order in which batches arrived: two runs that
/// deliver, for every timestamp, the same records (and a batch for the same
/// timestamps) leave the same stash, so every later notification emits the
/// same total in both.
pub proof fn lemma_inputs_order_independent(
    m: Map<u64, u64>,
    run1: Seq<(u64, Seq<u64>)>,
    run2: Seq<(u64, Seq<u64>)>,
)
    requires
        inputs_fit(m, run1),
        inputs_fit(m, run2),
        forall|t: u64| #[trigger] has_batch_at(run1, t) == has_batch_at(run2, t),
        forall|t: u64|
            #[trigger] records_at(run1, t).to_multiset() == records_at(run2, t).to_multiset(),
    ensures
        apply_inputs(m, run1) == apply_inputs(m, run2),
{
    let s1 = apply_inputs(m, run1);
    let s2 = apply_inputs(m, run2);
    assert forall|t: u64| #[trigger] s1.contains_key(t) == s2.contains_key(t) && (s1.contains_key(t) ==> s1[t] == s2[t]) by {
        lemma_inputs_accumulate(m, run1, t);
        lemma_inputs_accumulate(m, run2, t);
        lemma_total_is_sum_of_records(run1, t);
        lemma_total_is_sum_of_records(run2, t);
        assert(records_at(run1, t).to_multiset() == records_at(run2, t).to_multiset());
        lemma_sum_permutation(records_at(run1, t), records_at(run2, t));
        assert(has_batch_at(run1, t) == has_batch_at(run2, t));
    }
    assert(s1 =~= s2);
}

} // verus!
