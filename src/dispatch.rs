//! Fan-in of concurrent submissions: each result, whenever it arrives, is
//! attributed back to the item (index and nonce) it was submitted for.
use vstd::prelude::*;

use crate::intent::TransactionIntent;

verus! {

/// The 32-byte hash by which the node knows a submitted transaction.
#[derive(Clone, Copy, Debug, PartialEq, Eq)]
pub struct TxHash {
    pub bytes: [u8; 32],
}

/// Why the node did not take one submission into its pending pool.
#[derive(Clone, Copy, Debug, PartialEq, Eq, Structural)]
pub enum SubmissionError {
    /// The node refused the transaction's nonce.
    NonceRejected,
    /// The request or its response was lost on the way.
    Transport,
    /// The transaction could not be signed.
    Signer,
}

/// One submission result as it arrives from the task pool: `slot` is the
/// position of its item in the prepared batch.
#[derive(Clone, Copy, Debug, PartialEq, Eq)]
pub struct Arrival {
    pub slot: usize,
    pub result: Result<TxHash, SubmissionError>,
}

/// The final record of one dispatched item.
#[derive(Clone, Copy, Debug, PartialEq, Eq)]
pub struct DispatchOutcome {
    pub sequence_index: u64,
    pub nonce: u64,
    pub result: Result<TxHash, SubmissionError>,
}

/// The outcome recorded for `item` when its submission gave `result`.
pub open spec fn outcome_of(
    item: TransactionIntent,
    result: Result<TxHash, SubmissionError>,
) -> DispatchOutcome {
    DispatchOutcome { sequence_index: item.sequence_index, nonce: item.nonce, result }
}

/// Some arrival for slot `s` carries `result`.
pub open spec fn arrived_with(
    arrivals: Seq<Arrival>,
    s: int,
    result: Result<TxHash, SubmissionError>,
) -> bool {
    exists|j: int|
        0 <= j < arrivals.len() && #[trigger] arrivals[j] == (Arrival { slot: s as usize, result })
}

/// Some arrival is for slot `s`.
pub open spec fn slot_arrived(arrivals: Seq<Arrival>, s: int) -> bool {
    exists|j: int| 0 <= j < arrivals.len() && #[trigger] arrivals[j].slot == s
}

/// The arrivals cover the `n` slots of a batch exactly once each.
pub open spec fn arrivals_cover(arrivals: Seq<Arrival>, n: nat) -> bool {
    &&& forall|j: int| 0 <= j < arrivals.len() ==> #[trigger] arrivals[j].slot < n
    &&& forall|j: int, k: int|
        0 <= j < arrivals.len() && 0 <= k < arrivals.len() && j != k ==> arrivals[j].slot
            != arrivals[k].slot
    &&& forall|s: int| 0 <= s < n ==> #[trigger] slot_arrived(arrivals, s)
}

/// `outcomes` holds, in batch order, one outcome per item, each carrying the
/// result that arrived for that item's slot.
pub open spec fn joined(
    items: Seq<TransactionIntent>,
    arrivals: Seq<Arrival>,
    outcomes: Seq<DispatchOutcome>,
) -> bool {
    &&& outcomes.len() == items.len()
    &&& forall|i: int|
        0 <= i < items.len() ==> #[trigger] outcomes[i] == outcome_of(items[i], outcomes[i].result)
            && arrived_with(arrivals, i, outcomes[i].result)
}

/// Joins the results of a fully dispatched batch, in whatever order they came
/// back, into one outcome per prepared item in batch order. `None` when the
/// arrivals do not cover the batch's slots exactly once each.
pub fn join_outcomes(items: &Vec<TransactionIntent>, arrivals: &Vec<Arrival>) -> (r: Option<
    Vec<DispatchOutcome>,
>)
    ensures
        r is Some <==> arrivals_cover(arrivals@, items@.len()),
        r matches Some(outcomes) ==> joined(items@, arrivals@, outcomes@),
{
    let n = items.len();
    let mut slots: Vec<Option<Result<TxHash, SubmissionError>>> = Vec::new();
    let mut i: usize = 0;
    while i < n
        invariant
            i <= n,
            slots@.len() == i,
            forall|s: int| 0 <= s < i ==> slots@[s] is None,
        decreases n - i,
    {
        slots.push(None);
        i = i + 1;
    }
    let mut j: usize = 0;
    while j < arrivals.len()
        invariant
            n == items@.len(),
            slots@.len() == n,
            j <= arrivals@.len(),
            forall|a: int| 0 <= a < j ==> #[trigger] arrivals@[a].slot < n,
            forall|a: int, b: int|
                0 <= a < j && 0 <= b < j && a != b ==> arrivals@[a].slot != arrivals@[b].slot,
            forall|s: int|
                0 <= s < n && #[trigger] slots@[s] is Some ==> arrived_with(
                    arrivals@.take(j as int),
                    s,
                    slots@[s]->Some_0,
                ),
            forall|s: int|
                0 <= s < n ==> (#[trigger] slots@[s] is None <==> !slot_arrived(
                    arrivals@.take(j as int),
                    s,
                )),
        decreases arrivals@.len() - j,
    {
        let arrival = arrivals[j];
        if arrival.slot >= n {
            return None;
        }
        if slots[arrival.slot].is_some() {
            proof {
                let t0 = arrivals@.take(j as int);
                let a = choose|a: int| 0 <= a < t0.len() && #[trigger] t0[a].slot == arrival.slot;
                assert(arrivals@[a].slot == arrivals@[j as int].slot);
            }
            return None;
        }
        let ghost old_slots = slots@;
        slots.set(arrival.slot, Some(arrival.result));
        proof {
            let t0 = arrivals@.take(j as int);
            let t1 = arrivals@.take(j + 1);
            assert(t1 =~= t0.push(arrival));
            assert forall|a: int| 0 <= a < j implies arrivals@[a].slot != arrival.slot by {
                if arrivals@[a].slot == arrival.slot {
                    assert(t0[a].slot == arrival.slot);
                }
            }
            assert forall|s: int| 0 <= s < n && #[trigger] slots@[s] is Some implies arrived_with(
                t1,
                s,
                slots@[s]->Some_0,
            ) by {
                if s == arrival.slot {
                    assert(t1[j as int] == arrival);
                } else {
                    let a = choose|a: int|
                        0 <= a < t0.len() && #[trigger] t0[a] == (Arrival {
                            slot: s as usize,
                            result: old_slots[s]->Some_0,
                        });
                    assert(t1[a] == t0[a]);
                }
            }
            assert forall|s: int| 0 <= s < n implies (#[trigger] slots@[s] is None
                <==> !slot_arrived(t1, s)) by {
                if s == arrival.slot {
                    assert(t1[j as int].slot == s);
                } else {
                    if slot_arrived(t1, s) {
                        let a = choose|a: int| 0 <= a < t1.len() && #[trigger] t1[a].slot == s;
                        assert(t0[a].slot == s);
                    }
                    if slot_arrived(t0, s) {
                        let a = choose|a: int| 0 <= a < t0.len() && #[trigger] t0[a].slot == s;
                        assert(t1[a].slot == s);
                    }
                }
            }
        }
        j = j + 1;
    }
    assert(arrivals@.take(arrivals@.len() as int) =~= arrivals@);
    let mut outcomes: Vec<DispatchOutcome> = Vec::new();
    let mut i: usize = 0;
    while i < n
        invariant
            n == items@.len(),
            slots@.len() == n,
            i <= n,
            outcomes@.len() == i,
            forall|s: int|
                0 <= s < n && #[trigger] slots@[s] is Some ==> arrived_with(
                    arrivals@,
                    s,
                    slots@[s]->Some_0,
                ),
            forall|s: int|
                0 <= s < n ==> (#[trigger] slots@[s] is None <==> !slot_arrived(arrivals@, s)),
            forall|s: int|
                0 <= s < i ==> #[trigger] outcomes@[s] == outcome_of(items@[s], outcomes@[s].result)
                    && arrived_with(arrivals@, s, outcomes@[s].result),
        decreases n - i,
    {
        match slots[i] {
            Some(result) => {
                let item = items[i];
                outcomes.push(
                    DispatchOutcome {
                        sequence_index: item.sequence_index,
                        nonce: item.nonce,
                        result,
                    },
                );
            },
            None => {
                return None;
            },
        }
        i = i + 1;
    }
    proof {
        assert forall|s: int| 0 <= s < n implies #[trigger] slot_arrived(arrivals@, s) by {
            let a = choose|a: int|
                0 <= a < arrivals@.len() && #[trigger] arrivals@[a] == (Arrival {
                    slot: s as usize,
                    result: outcomes@[s].result,
                });
            assert(arrivals@[a].slot == s);
        }
    }
    Some(outcomes)
}

/// How many of `outcomes` were taken into the node's pending pool.
pub open spec fn submitted_count(outcomes: Seq<DispatchOutcome>) -> nat
    decreases outcomes.len(),
{
    if outcomes.len() == 0 {
        0
    } else {
        submitted_count(outcomes.drop_last()) + if outcomes.last().result is Ok {
            1nat
        } else {
            0nat
        }
    }
}

proof fn lemma_submitted_count_bounded(outcomes: Seq<DispatchOutcome>)
    ensures
        submitted_count(outcomes) <= outcomes.len(),
    decreases outcomes.len(),
{
    if outcomes.len() > 0 {
        lemma_submitted_count_bounded(outcomes.drop_last());
    }
}

/// Counts the outcomes whose submission succeeded.
pub fn count_submitted(outcomes: &Vec<DispatchOutcome>) -> (r: usize)
    ensures
        r == submitted_count(outcomes@),
{
    let mut n: usize = 0;
    let mut i: usize = 0;
    while i < outcomes.len()
        invariant
            i <= outcomes@.len(),
            n == submitted_count(outcomes@.take(i as int)),
        decreases outcomes@.len() - i,
    {
        proof {
            assert(outcomes@.take(i + 1).drop_last() =~= outcomes@.take(i as int));
            lemma_submitted_count_bounded(outcomes@.take(i as int));
        }
        if outcomes[i].result.is_ok() {
            n = n + 1;
        }
        i = i + 1;
    }
    assert(outcomes@.take(outcomes@.len() as int) =~= outcomes@);
    n
}

/// Counts the outcomes whose submission failed.
pub fn count_failed(outcomes: &Vec<DispatchOutcome>) -> (r: usize)
    ensures
        r == outcomes@.len() - submitted_count(outcomes@),
{
    proof {
        lemma_submitted_count_bounded(outcomes@);
    }
    outcomes.len() - count_submitted(outcomes)
}

/// The join loses and duplicates nothing: there is exactly one outcome per
/// prepared item, at the item's position, with the item's index and nonce.
pub proof fn law_one_outcome_per_item(
    items: Seq<TransactionIntent>,
    arrivals: Seq<Arrival>,
    outcomes: Seq<DispatchOutcome>,
)
    requires
        joined(items, arrivals, outcomes),
    ensures
        outcomes.len() == items.len(),
        forall|i: int|
            0 <= i < items.len() ==> (#[trigger] outcomes[i]).sequence_index
                == items[i].sequence_index && outcomes[i].nonce == items[i].nonce,
{
    assert forall|i: int| 0 <= i < items.len() implies (#[trigger] outcomes[i]).sequence_index
        == items[i].sequence_index && outcomes[i].nonce == items[i].nonce by {
        assert(outcomes[i] == outcome_of(items[i], outcomes[i].result));
    }
}

/// The joined outcomes do not depend on the order in which submissions
/// complete: two arrival orders of the same results join to the same outcomes.
pub proof fn law_join_ignores_arrival_order(
    items: Seq<TransactionIntent>,
    first: Seq<Arrival>,
    second: Seq<Arrival>,
    from_first: Seq<DispatchOutcome>,
    from_second: Seq<DispatchOutcome>,
)
    requires
        arrivals_cover(first, items.len()),
        second.to_multiset() == first.to_multiset(),
        joined(items, first, from_first),
        joined(items, second, from_second),
    ensures
        from_first == from_second,
{
    broadcast use vstd::seq_lib::to_multiset_contains;

    assert forall|i: int| 0 <= i < items.len() implies from_first[i] == from_second[i] by {
        assert(from_first[i] == outcome_of(items[i], from_first[i].result));
        assert(from_second[i] == outcome_of(items[i], from_second[i].result));
        let a = choose|a: int|
            0 <= a < first.len() && #[trigger] first[a] == (Arrival {
                slot: i as usize,
                result: from_first[i].result,
            });
        let b = choose|b: int|
            0 <= b < second.len() && #[trigger] second[b] == (Arrival {
                slot: i as usize,
                result: from_second[i].result,
            });
        assert(second.contains(second[b]));
        assert(second.to_multiset().count(second[b]) > 0);
        assert(first.contains(second[b]));
        let c = choose|c: int| 0 <= c < first.len() && first[c] == second[b];
        assert(first[c].slot == first[a].slot);
    }
    assert(from_first =~= from_second);
}

/// An empty batch needs no arrivals and joins to no outcomes.
pub proof fn law_join_empty(arrivals: Seq<Arrival>, outcomes: Seq<DispatchOutcome>)
    requires
        arrivals.len() == 0,
        joined(Seq::empty(), arrivals, outcomes),
    ensures
        arrivals_cover(arrivals, 0),
        outcomes.len() == 0,
{
}

} // verus!
