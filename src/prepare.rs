//! Sequential preparation of a batch: one nonce per index, never reused.
use vstd::prelude::*;

use crate::intent::{build_intent, intent_spec, Address, TransactionIntent};

verus! {

/// Why one item of the batch could not be built.
#[derive(Clone, Copy, Debug, PartialEq, Eq, Structural)]
pub enum BuildError {
    /// The starting nonce plus the item's index does not fit in a `u64`.
    NonceOverflow,
}

/// A skipped item: its index in the batch and the cause. The nonce it was
/// meant to take is the starting nonce plus this index, and stays unused.
#[derive(Clone, Copy, Debug, PartialEq, Eq)]
pub struct BuildFailure {
    pub sequence_index: u64,
    pub cause: BuildError,
}

/// The built intents of a batch, in index order, and the items that were skipped.
#[derive(Debug)]
pub struct PreparedBatch {
    pub starting_nonce: u64,
    pub count: u64,
    pub items: Vec<TransactionIntent>,
    pub failures: Vec<BuildFailure>,
}

/// The nonce that item `index` of a batch is meant to take.
pub open spec fn nonce_of(starting_nonce: u64, index: int) -> int {
    starting_nonce + index
}

/// How many of the first `count` items get a nonce that fits in a `u64`.
pub open spec fn built_count(starting_nonce: u64, count: u64) -> nat {
    if starting_nonce + count <= u64::MAX + 1 {
        count as nat
    } else {
        (u64::MAX + 1 - starting_nonce) as nat
    }
}

/// The intents that preparing `count` items yields, in index order.
pub open spec fn prepared_items(
    starting_nonce: u64,
    count: u64,
    recipient: Address,
    gas_price: u128,
) -> Seq<TransactionIntent> {
    Seq::new(
        built_count(starting_nonce, count),
        |i: int| intent_spec(i as u64, recipient, nonce_of(starting_nonce, i) as u64, gas_price),
    )
}

/// The failures that preparing `count` items records, in index order.
pub open spec fn prepared_failures(starting_nonce: u64, count: u64) -> Seq<BuildFailure> {
    let b = built_count(starting_nonce, count);
    Seq::new(
        (count - b) as nat,
        |j: int| BuildFailure { sequence_index: (b + j) as u64, cause: BuildError::NonceOverflow },
    )
}

/// Every built item carries the nonce of its own index (no compaction over
/// skipped items), and the items stand in strictly increasing index order.
pub open spec fn nonces_sequenced(
    starting_nonce: u64,
    count: u64,
    items: Seq<TransactionIntent>,
) -> bool {
    &&& forall|i: int|
        0 <= i < items.len() ==> #[trigger] items[i].sequence_index < count && items[i].nonce
            == nonce_of(starting_nonce, items[i].sequence_index as int)
    &&& forall|i: int, j: int|
        0 <= i < j < items.len() ==> items[i].sequence_index < items[j].sequence_index
}

/// Every index below `count` is accounted for exactly once: built or skipped.
pub open spec fn walk_complete(
    count: u64,
    items: Seq<TransactionIntent>,
    failures: Seq<BuildFailure>,
) -> bool {
    &&& items.len() + failures.len() == count
    &&& forall|j: int| 0 <= j < failures.len() ==> #[trigger] failures[j].sequence_index < count
    &&& forall|j: int, k: int|
        0 <= j < k < failures.len() ==> failures[j].sequence_index < failures[k].sequence_index
    &&& forall|i: int, j: int|
        0 <= i < items.len() && 0 <= j < failures.len() ==> items[i].sequence_index
            != failures[j].sequence_index
}

/// `batch` is exactly what preparing `count` items from `starting_nonce` yields.
pub open spec fn prepared_as(
    batch: PreparedBatch,
    starting_nonce: u64,
    count: u64,
    recipient: Address,
    gas_price: u128,
) -> bool {
    &&& batch.starting_nonce == starting_nonce
    &&& batch.count == count
    &&& batch.items@ == prepared_items(starting_nonce, count, recipient, gas_price)
    &&& batch.failures@ == prepared_failures(starting_nonce, count)
}

proof fn lemma_prepared_walk(starting_nonce: u64, count: u64, recipient: Address, gas_price: u128)
    ensures
        nonces_sequenced(
            starting_nonce,
            count,
            prepared_items(starting_nonce, count, recipient, gas_price),
        ),
        walk_complete(
            count,
            prepared_items(starting_nonce, count, recipient, gas_price),
            prepared_failures(starting_nonce, count),
        ),
{
}

/// Builds `count` intents in index order, item `i` with nonce `starting_nonce + i`.
/// An item whose nonce does not fit is skipped and recorded; its nonce is not
/// handed to the next item.
pub fn prepare_batch(starting_nonce: u64, count: u64, recipient: Address, gas_price: u128) -> (r:
    PreparedBatch)
    ensures
        prepared_as(r, starting_nonce, count, recipient, gas_price),
        nonces_sequenced(starting_nonce, count, r.items@),
        walk_complete(count, r.items@, r.failures@),
{
    let mut items: Vec<TransactionIntent> = Vec::new();
    let mut failures: Vec<BuildFailure> = Vec::new();
    let mut i: u64 = 0;
    while i < count
        invariant
            i <= count,
            items@ == prepared_items(starting_nonce, i, recipient, gas_price),
            failures@ == prepared_failures(starting_nonce, i),
        decreases count - i,
    {
        let ghost b = built_count(starting_nonce, i);
        match starting_nonce.checked_add(i) {
            Some(nonce) => {
                items.push(build_intent(i, recipient, nonce, gas_price));
                assert(items@ =~= prepared_items(
                    starting_nonce,
                    (i + 1) as u64,
                    recipient,
                    gas_price,
                ));
                assert(failures@ =~= prepared_failures(starting_nonce, (i + 1) as u64));
            },
            None => {
                failures.push(BuildFailure { sequence_index: i, cause: BuildError::NonceOverflow });
                assert(items@ =~= prepared_items(
                    starting_nonce,
                    (i + 1) as u64,
                    recipient,
                    gas_price,
                ));
                assert(failures@ =~= prepared_failures(starting_nonce, (i + 1) as u64));
            },
        }
        i = i + 1;
    }
    proof {
        lemma_prepared_walk(starting_nonce, count, recipient, gas_price);
    }
    PreparedBatch { starting_nonce, count, items, failures }
}

/// Among the built items of any batch prepared by the nonce walk, whatever
/// items were skipped, nonces are strictly increasing (so no two are equal) and
/// each lies in `[starting_nonce, starting_nonce + count - 1]`.
pub proof fn law_nonces_increasing_in_range(
    starting_nonce: u64,
    count: u64,
    items: Seq<TransactionIntent>,
)
    requires
        nonces_sequenced(starting_nonce, count, items),
    ensures
        forall|i: int, j: int| 0 <= i < j < items.len() ==> items[i].nonce < items[j].nonce,
        forall|i: int|
            0 <= i < items.len() ==> starting_nonce <= #[trigger] items[i].nonce
                <= starting_nonce + count - 1,
{
    assert forall|i: int, j: int| 0 <= i < j < items.len() implies items[i].nonce
        < items[j].nonce by {
        assert(items[i].sequence_index < count);
        assert(items[j].sequence_index < count);
    }
    assert forall|i: int| 0 <= i < items.len() implies starting_nonce <= #[trigger] items[i].nonce
        <= starting_nonce + count - 1 by {
        assert(items[i].sequence_index < count);
    }
}

/// A skipped item `k` leaves the nonce of item `k + 1` as it would be without
/// the failure: `starting_nonce + k + 1`. Nonces are not compacted.
pub proof fn law_failure_keeps_next_nonce(
    starting_nonce: u64,
    count: u64,
    items: Seq<TransactionIntent>,
    failures: Seq<BuildFailure>,
    k: int,
    p: int,
)
    requires
        nonces_sequenced(starting_nonce, count, items),
        walk_complete(count, items, failures),
        exists|j: int| 0 <= j < failures.len() && #[trigger] failures[j].sequence_index == k,
        0 <= p < items.len(),
        items[p].sequence_index == k + 1,
    ensures
        items[p].nonce == starting_nonce + k + 1,
{
    assert(items[p].sequence_index < count);
}

/// Preparing twice with the same inputs, with nothing in between, yields the
/// same batch.
pub proof fn law_prepare_repeatable(
    starting_nonce: u64,
    count: u64,
    recipient: Address,
    gas_price: u128,
    first: PreparedBatch,
    second: PreparedBatch,
)
    requires
        prepared_as(first, starting_nonce, count, recipient, gas_price),
        prepared_as(second, starting_nonce, count, recipient, gas_price),
    ensures
        first.starting_nonce == second.starting_nonce,
        first.count == second.count,
        first.items@ == second.items@,
        first.failures@ == second.failures@,
{
}

impl PreparedBatch {
    /// Number of items that were built.
    pub fn success_count(&self) -> (r: usize)
        ensures
            r == self.items@.len(),
    {
        self.items.len()
    }

    /// Number of items that were skipped.
    pub fn failure_count(&self) -> (r: usize)
        ensures
            r == self.failures@.len(),
    {
        self.failures.len()
    }
}

/// Batch size used when none, or no valid one, was given.
pub const DEFAULT_BATCH_SIZE: u64 = 10;

/// The batch size to run: the requested one, or the default when the request
/// was absent or could not be read as a number.
pub fn batch_size_or_default(requested: Option<u64>) -> (r: u64)
    ensures
        r == match requested {
            Some(n) => n,
            None => DEFAULT_BATCH_SIZE,
        },
{
    match requested {
        Some(n) => n,
        None => DEFAULT_BATCH_SIZE,
    }
}

/// Preparing no items yields no intents and no failures.
pub proof fn law_prepare_empty(
    starting_nonce: u64,
    recipient: Address,
    gas_price: u128,
    batch: PreparedBatch,
)
    requires
        prepared_as(batch, starting_nonce, 0, recipient, gas_price),
    ensures
        batch.items@.len() == 0,
        batch.failures@.len() == 0,
{
}

} // verus!
