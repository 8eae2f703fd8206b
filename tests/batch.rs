use nonce_batch::dispatch::{
    count_failed, count_submitted, join_outcomes, Arrival, DispatchOutcome, SubmissionError,
    TxHash,
};
use nonce_batch::intent::{build_intent, gas_price_policy, Address, TransactionIntent};
use nonce_batch::prepare::{batch_size_or_default, prepare_batch, BuildError};

fn self_address() -> Address {
    let mut bytes = [0u8; 20];
    bytes[0] = 0xab;
    bytes[19] = 0x01;
    Address { bytes }
}

fn hash(tag: u8) -> TxHash {
    TxHash { bytes: [tag; 32] }
}

fn in_order(results: Vec<Result<TxHash, SubmissionError>>) -> Vec<Arrival> {
    results
        .into_iter()
        .enumerate()
        .map(|(slot, result)| Arrival { slot, result })
        .collect()
}

#[test]
fn builder_fixes_value_and_gas_limit() {
    let a = self_address();
    let intent = build_intent(4, a, 12, 77);
    assert_eq!(
        intent,
        TransactionIntent {
            sequence_index: 4,
            nonce: 12,
            recipient: a,
            value: 0,
            gas_limit: 21000,
            gas_price: 77,
        }
    );
}

#[test]
fn gas_policy_triples_baseline() {
    assert_eq!(gas_price_policy(30), Some(90));
    assert_eq!(gas_price_policy(0), Some(0));
    assert_eq!(gas_price_policy(u128::MAX / 3), Some(u128::MAX / 3 * 3));
}

#[test]
fn gas_policy_refuses_overflow() {
    assert_eq!(gas_price_policy(u128::MAX / 3 + 1), None);
    assert_eq!(gas_price_policy(u128::MAX), None);
}

#[test]
fn three_items_from_nonce_five() {
    let gas = gas_price_policy(30).unwrap();
    let batch = prepare_batch(5, 3, self_address(), gas);
    let nonces: Vec<u64> = batch.items.iter().map(|t| t.nonce).collect();
    assert_eq!(nonces, vec![5, 6, 7]);
    for (i, t) in batch.items.iter().enumerate() {
        assert_eq!(t.sequence_index, i as u64);
        assert_eq!(t.value, 0);
        assert_eq!(t.gas_limit, 21000);
        assert_eq!(t.gas_price, 90);
        assert_eq!(t.recipient, self_address());
    }
    assert_eq!(batch.success_count(), 3);
    assert_eq!(batch.failure_count(), 0);
    assert_eq!(batch.starting_nonce, 5);
    assert_eq!(batch.count, 3);
}

#[test]
fn empty_batch_prepares_and_joins_nothing() {
    let batch = prepare_batch(9, 0, self_address(), 10);
    assert!(batch.items.is_empty());
    assert!(batch.failures.is_empty());
    let outcomes = join_outcomes(&batch.items, &Vec::new()).unwrap();
    assert!(outcomes.is_empty());
    assert_eq!(count_submitted(&outcomes), 0);
    assert_eq!(count_failed(&outcomes), 0);
}

#[test]
fn overflowing_nonces_are_skipped_not_reused() {
    let batch = prepare_batch(u64::MAX - 1, 4, self_address(), 1);
    let nonces: Vec<u64> = batch.items.iter().map(|t| t.nonce).collect();
    assert_eq!(nonces, vec![u64::MAX - 1, u64::MAX]);
    let skipped: Vec<u64> = batch.failures.iter().map(|f| f.sequence_index).collect();
    assert_eq!(skipped, vec![2, 3]);
    assert!(batch.failures.iter().all(|f| f.cause == BuildError::NonceOverflow));
    assert_eq!(batch.success_count(), 2);
    assert_eq!(batch.failure_count(), 2);
}

#[test]
fn built_nonces_increase_within_range() {
    let start = 1000;
    let n = 25;
    let batch = prepare_batch(start, n, self_address(), 5);
    for w in batch.items.windows(2) {
        assert!(w[0].nonce < w[1].nonce);
    }
    for t in &batch.items {
        assert!(t.nonce >= start && t.nonce <= start + n - 1);
        assert_eq!(t.nonce, start + t.sequence_index);
    }
}

#[test]
fn nonce_follows_index_not_position() {
    let start = u64::MAX - 2;
    let batch = prepare_batch(start, 3, self_address(), 5);
    for t in &batch.items {
        assert_eq!(t.nonce as u128, start as u128 + t.sequence_index as u128);
    }
    assert_eq!(batch.items[2].nonce, u64::MAX);
}

#[test]
fn preparing_twice_gives_same_batch() {
    let first = prepare_batch(42, 6, self_address(), 123);
    let second = prepare_batch(42, 6, self_address(), 123);
    assert_eq!(first.items, second.items);
    assert_eq!(first.failures, second.failures);
}

#[test]
fn rejected_middle_nonce_is_attributed() {
    let batch = prepare_batch(5, 3, self_address(), 90);
    let arrivals = vec![
        Arrival { slot: 2, result: Ok(hash(7)) },
        Arrival { slot: 0, result: Ok(hash(5)) },
        Arrival { slot: 1, result: Err(SubmissionError::NonceRejected) },
    ];
    let outcomes = join_outcomes(&batch.items, &arrivals).unwrap();
    assert_eq!(outcomes.len(), 3);
    assert_eq!(
        outcomes[1],
        DispatchOutcome { sequence_index: 1, nonce: 6, result: Err(SubmissionError::NonceRejected) }
    );
    assert_eq!(outcomes[0].result, Ok(hash(5)));
    assert_eq!(outcomes[2].nonce, 7);
    assert_eq!(outcomes[2].result, Ok(hash(7)));
    assert_eq!(count_submitted(&outcomes), 2);
    assert_eq!(count_failed(&outcomes), 1);
}

#[test]
fn one_outcome_per_prepared_item() {
    let batch = prepare_batch(u64::MAX - 3, 6, self_address(), 2);
    let results = vec![Ok(hash(1)), Err(SubmissionError::Transport), Ok(hash(3)), Err(SubmissionError::Signer)];
    let outcomes = join_outcomes(&batch.items, &in_order(results)).unwrap();
    assert_eq!(outcomes.len(), batch.success_count());
    for (o, t) in outcomes.iter().zip(batch.items.iter()) {
        assert_eq!(o.sequence_index, t.sequence_index);
        assert_eq!(o.nonce, t.nonce);
    }
    assert_eq!(count_submitted(&outcomes), 2);
    assert_eq!(count_failed(&outcomes), 2);
}

#[test]
fn fast_result_arriving_first_still_joins() {
    let batch = prepare_batch(10, 2, self_address(), 2);
    let slow_then_fast = in_order(vec![Ok(hash(1)), Ok(hash(2))]);
    let fast_first = vec![slow_then_fast[1], slow_then_fast[0]];
    let a = join_outcomes(&batch.items, &slow_then_fast).unwrap();
    let b = join_outcomes(&batch.items, &fast_first).unwrap();
    assert_eq!(a, b);
    assert_eq!(b.len(), 2);
    assert_eq!(b[0].nonce, 10);
    assert_eq!(b[1].result, Ok(hash(2)));
}

#[test]
fn join_refuses_missing_slot() {
    let batch = prepare_batch(0, 3, self_address(), 1);
    let arrivals = vec![Arrival { slot: 0, result: Ok(hash(1)) }, Arrival { slot: 2, result: Ok(hash(2)) }];
    assert_eq!(join_outcomes(&batch.items, &arrivals), None);
}

#[test]
fn join_refuses_duplicate_slot() {
    let batch = prepare_batch(0, 2, self_address(), 1);
    let arrivals = vec![
        Arrival { slot: 0, result: Ok(hash(1)) },
        Arrival { slot: 0, result: Ok(hash(2)) },
        Arrival { slot: 1, result: Ok(hash(3)) },
    ];
    assert_eq!(join_outcomes(&batch.items, &arrivals), None);
}

#[test]
fn join_refuses_unknown_slot() {
    let batch = prepare_batch(0, 1, self_address(), 1);
    let arrivals = vec![Arrival { slot: 1, result: Ok(hash(1)) }];
    assert_eq!(join_outcomes(&batch.items, &arrivals), None);
}

#[test]
fn batch_size_defaults_to_ten() {
    assert_eq!(batch_size_or_default(None), 10);
    assert_eq!(batch_size_or_default(Some(4)), 4);
    assert_eq!(batch_size_or_default(Some(0)), 0);
}
