use ledger_core::error::LedgerError;
use ledger_core::transaction::{copy_batch, Transaction, TransactionPool};
use ledger_core::utils::{current_timestamp, decimal_bytes, same_text, timestamp_of};
use std::cmp::Ordering;

fn transfer(sender: &str, receiver: &str, amount: u64, fee: u64, timestamp: u128) -> Transaction {
    Transaction {
        sender: sender.to_string(),
        receiver: receiver.to_string(),
        amount,
        fee,
        signature: None,
        public_key: None,
        timestamp,
    }
}

fn with_fee(label: &str, fee: u64) -> Transaction {
    transfer(label, "pool", 1, fee, 0)
}

#[test]
fn new_transaction_is_unsigned_and_stamped() {
    let before = current_timestamp();
    let tx = Transaction::new("A".to_string(), "B".to_string(), 1000, 1);
    let after = current_timestamp();
    assert_eq!(tx.sender, "A");
    assert_eq!(tx.receiver, "B");
    assert_eq!(tx.amount, 1000);
    assert_eq!(tx.fee, 1);
    assert_eq!(tx.signature, None);
    assert_eq!(tx.public_key, None);
    assert!(!tx.is_signed());
    assert!(before <= tx.timestamp && tx.timestamp <= after);
}

#[test]
fn the_clock_reads_milliseconds_since_the_epoch() {
    let now = current_timestamp();
    // Later than 2020-09-13 and earlier than the year 2200.
    assert!(now > 1_600_000_000_000);
    assert!(now < 7_258_118_400_000);
}

#[test]
fn a_clock_before_the_epoch_reads_as_zero() {
    assert_eq!(timestamp_of(None), 0);
    assert_eq!(timestamp_of(Some(0)), 0);
    assert_eq!(timestamp_of(Some(1_700_000_000_000)), 1_700_000_000_000);
    assert_eq!(timestamp_of(Some(u128::MAX)), u128::MAX);
}

#[test]
fn decimal_rendering() {
    assert_eq!(decimal_bytes(0), b"0".to_vec());
    assert_eq!(decimal_bytes(7), b"7".to_vec());
    assert_eq!(decimal_bytes(10), b"10".to_vec());
    assert_eq!(decimal_bytes(1000), b"1000".to_vec());
    assert_eq!(decimal_bytes(1_700_000_000_000), b"1700000000000".to_vec());
    assert_eq!(decimal_bytes(u64::MAX as u128), u64::MAX.to_string().into_bytes());
    assert_eq!(decimal_bytes(u128::MAX), u128::MAX.to_string().into_bytes());
}

#[test]
fn text_comparison() {
    assert!(same_text("", ""));
    assert!(same_text("alice", "alice"));
    assert!(!same_text("alice", "alicf"));
    assert!(!same_text("alice", "alic"));
    assert!(same_text("한글", "한글"));
    assert!(!same_text("한글", "한국"));
}

#[test]
fn signing_digest_is_sha256_over_sender_receiver_amount_timestamp() {
    let tx = transfer("A", "B", 1000, 1, 1_700_000_000_000);
    assert_eq!(
        tx.calculate_hash_sign(),
        "5f72b2ab54b25abf3e9db4960f15ed65fdd0626c0a50d3344a206d276019b5eb"
    );
    let other_fee = transfer("A", "B", 1000, 77, 1_700_000_000_000);
    assert_eq!(other_fee.calculate_hash_sign(), tx.calculate_hash_sign());
    let other_amount = transfer("A", "B", 1001, 1, 1_700_000_000_000);
    assert_ne!(other_amount.calculate_hash_sign(), tx.calculate_hash_sign());
}

#[test]
fn content_hash_needs_signature_and_key() {
    let mut tx = transfer("A", "B", 1000, 1, 1_700_000_000_000);
    assert_eq!(tx.calculate_hash(), Err(LedgerError::UnsignedTransaction));
    tx.signature = Some("00ff".to_string());
    assert!(!tx.is_signed());
    assert_eq!(tx.calculate_hash(), Err(LedgerError::UnsignedTransaction));
    tx.public_key = Some(vec![4]);
    assert!(tx.is_signed());
    assert_eq!(
        tx.calculate_hash(),
        Ok("d1e10a4d1ec0a7e7180742001428a3f369aae1671879c7ab512a7830d002fd61".to_string())
    );
    // Neither the fee nor the key is hashed.
    tx.fee = 500;
    tx.public_key = Some(vec![9, 9, 9]);
    assert_eq!(
        tx.calculate_hash(),
        Ok("d1e10a4d1ec0a7e7180742001428a3f369aae1671879c7ab512a7830d002fd61".to_string())
    );
    tx.signature = None;
    assert_eq!(tx.calculate_hash(), Err(LedgerError::UnsignedTransaction));
}

#[test]
fn cmp_by_fee_puts_the_higher_fee_first() {
    let low = with_fee("low", 1);
    let high = with_fee("high", 9);
    assert_eq!(high.cmp_by_fee(&low), Ordering::Less);
    assert_eq!(low.cmp_by_fee(&high), Ordering::Greater);
    assert_eq!(low.cmp_by_fee(&with_fee("other", 1)), Ordering::Equal);
}

#[test]
fn clone_keeps_every_field() {
    let mut tx = transfer("A", "B", 1000, 1, 42);
    tx.signature = Some("abcd".to_string());
    tx.public_key = Some(vec![4, 5, 6]);
    let copy = tx.clone();
    assert_eq!(copy.sender, tx.sender);
    assert_eq!(copy.receiver, tx.receiver);
    assert_eq!(copy.amount, tx.amount);
    assert_eq!(copy.fee, tx.fee);
    assert_eq!(copy.signature, tx.signature);
    assert_eq!(copy.public_key, tx.public_key);
    assert_eq!(copy.timestamp, tx.timestamp);
    let batch = copy_batch(&[tx.clone(), with_fee("x", 3)]);
    assert_eq!(batch.len(), 2);
    assert_eq!(batch[0].sender, "A");
    assert_eq!(batch[1].fee, 3);
}

#[test]
fn pool_keeps_arrival_order() {
    let mut pool = TransactionPool::new();
    assert!(pool.transactions.is_empty());
    for (label, fee) in [("a", 5), ("b", 1), ("c", 9), ("d", 3)] {
        pool.add_transaction(with_fee(label, fee));
    }
    assert_eq!(pool.transactions.len(), 4);
    let picked = pool.select_transcations(3);
    let labels: Vec<&str> = picked.iter().map(|tx| tx.sender.as_str()).collect();
    assert_eq!(labels, vec!["a", "b", "c"]);
    assert_eq!(pool.transactions.len(), 1);
    assert_eq!(pool.transactions[0].sender, "d");
    let rest = pool.select_transcations(10);
    assert_eq!(rest.len(), 1);
    assert_eq!(rest[0].sender, "d");
    assert!(pool.transactions.is_empty());
    assert!(pool.select_transcations(10).is_empty());
}

#[test]
fn select_fifo_with_limit_zero_takes_nothing() {
    let mut pool = TransactionPool::new();
    pool.add_transaction(with_fee("a", 5));
    assert!(pool.select_transcations(0).is_empty());
    assert_eq!(pool.transactions.len(), 1);
}

#[test]
fn select_by_fee_returns_the_best_and_drops_the_rest() {
    let mut pool = TransactionPool::new();
    for fee in [5, 1, 9, 3] {
        pool.add_transaction(with_fee("s", fee));
    }
    let picked = pool.select_transcations_by_fee(2);
    let fees: Vec<u64> = picked.iter().map(|tx| tx.fee).collect();
    assert_eq!(fees, vec![9, 5]);
    assert_eq!(pool.transactions.len(), 0);
    assert!(pool.select_transcations(10).is_empty());
}

#[test]
fn select_by_fee_keeps_equal_fees_in_arrival_order() {
    let mut pool = TransactionPool::new();
    for (label, fee) in [("a", 2), ("b", 7), ("c", 2), ("d", 7), ("e", 2), ("f", 0)] {
        pool.add_transaction(with_fee(label, fee));
    }
    let picked = pool.select_transcations_by_fee(100);
    let labels: Vec<&str> = picked.iter().map(|tx| tx.sender.as_str()).collect();
    assert_eq!(labels, vec!["b", "d", "a", "c", "e", "f"]);
    assert!(pool.transactions.is_empty());
}

#[test]
fn select_by_fee_on_an_empty_pool_and_with_limit_zero() {
    let mut pool = TransactionPool::new();
    assert!(pool.select_transcations_by_fee(3).is_empty());
    pool.add_transaction(with_fee("a", 2));
    assert!(pool.select_transcations_by_fee(0).is_empty());
    assert!(pool.transactions.is_empty());
}

#[test]
fn dynamic_fee_adds_two_for_each_level() {
    let pool = TransactionPool::new();
    assert_eq!(pool.dynamic_fee(10, 3), 16);
    assert_eq!(pool.dynamic_fee(0, 0), 0);
    assert_eq!(pool.dynamic_fee(7, 0), 7);
    assert_eq!(pool.dynamic_fee(1, (u64::MAX - 1) / 2), u64::MAX);
}
