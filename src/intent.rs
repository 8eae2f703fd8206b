//! Transaction intents and the gas price policy of a batch.
use vstd::prelude::*;

verus! {

/// Gas limit of a plain value transfer with no call data.
pub const TRANSFER_GAS_LIMIT: u64 = 21000;

/// Factor applied to the node's baseline gas price, once per batch.
pub const GAS_PRICE_MULTIPLIER: u128 = 3;

/// A 20-byte account address.
#[derive(Clone, Copy, Debug, PartialEq, Eq)]
pub struct Address {
    pub bytes: [u8; 20],
}

/// An unsigned description of one self-transfer of the batch.
#[derive(Clone, Copy, Debug, PartialEq, Eq)]
pub struct TransactionIntent {
    pub sequence_index: u64,
    pub nonce: u64,
    pub recipient: Address,
    pub value: u128,
    pub gas_limit: u64,
    pub gas_price: u128,
}

/// The intent built for one item: nothing sent, fixed transfer gas, the given nonce and price.
pub open spec fn intent_spec(
    sequence_index: u64,
    recipient: Address,
    nonce: u64,
    gas_price: u128,
) -> TransactionIntent {
    TransactionIntent {
        sequence_index,
        nonce,
        recipient,
        value: 0,
        gas_limit: TRANSFER_GAS_LIMIT,
        gas_price,
    }
}

/// Builds the intent of item `sequence_index`, a zero-value transfer to `recipient`.
pub fn build_intent(sequence_index: u64, recipient: Address, nonce: u64, gas_price: u128) -> (r:
    TransactionIntent)
    ensures
        r == intent_spec(sequence_index, recipient, nonce, gas_price),
{
    TransactionIntent {
        sequence_index,
        nonce,
        recipient,
        value: 0,
        gas_limit: TRANSFER_GAS_LIMIT,
        gas_price,
    }
}

/// The gas price used for a whole batch: the baseline times the multiplier.
pub open spec fn policy_price(baseline: u128) -> int {
    GAS_PRICE_MULTIPLIER * baseline
}

/// Derives the batch's frozen gas price from the node's baseline price;
/// `None` when the product does not fit in a `u128`.
pub fn gas_price_policy(baseline: u128) -> (r: Option<u128>)
    ensures
        policy_price(baseline) <= u128::MAX ==> r == Some(policy_price(baseline) as u128),
        policy_price(baseline) > u128::MAX ==> r is None,
{
    baseline.checked_mul(GAS_PRICE_MULTIPLIER)
}

} // verus!
