use pranklin::mempool::{Mempool, MempoolConfig, MempoolError};
use pranklin::tx_index::TransactionIndex;
use pranklin::types::{Address, DepositTx, Transaction, TxHash, TxPayload};

fn create_test_tx(from: Address, nonce: u64) -> Transaction {
    Transaction {
        nonce,
        from,
        payload: TxPayload::Deposit(DepositTx { amount: 1000, asset_id: 0 }),
        tx_hash: TxHash { hi: (from.hi << 32) | from.lo as u128, lo: nonce as u128 },
    }
}

#[test]
fn test_default_and_validation() {
    let config = MempoolConfig::default();
    assert_eq!(config.max_size, 10_000);
    assert_eq!(config.max_txs_per_sender, 100);
    assert!(config.strict_nonce_ordering);
    assert!(config.validate().is_ok());
}

#[test]
fn test_from_tuple() {
    let config: MempoolConfig = (1000, 50).into();
    assert_eq!(config.max_size, 1000);
    assert_eq!(config.max_txs_per_sender, 50);
}

#[test]
fn test_validation_errors() {
    assert!(MempoolConfig::new(0, 100).validate().is_err());
    assert!(MempoolConfig::new(100, 0).validate().is_err());
    assert!(MempoolConfig::new(100, 200).validate().is_err());
    assert!(MempoolConfig::new(100, 100).validate().is_ok());
}

#[test]
fn test_relaxed_nonce_ordering() {
    let config = MempoolConfig::default().with_relaxed_nonce_ordering();
    assert!(!config.strict_nonce_ordering);
}

#[test]
fn validation_messages() {
    assert_eq!(MempoolConfig::new(0, 100).validate(), Err("max_size must be greater than 0"));
    assert_eq!(MempoolConfig::new(100, 0).validate(), Err("max_txs_per_sender must be greater than 0"));
    assert_eq!(MempoolConfig::new(100, 200).validate(), Err("max_txs_per_sender cannot exceed max_size"));
}

#[test]
fn test_error_classification() {
    let full_error = MempoolError::MempoolFull(1000);
    assert!(full_error.is_retryable());
    assert!(!full_error.is_rate_limited());
    assert!(!full_error.is_nonce_error());
    let rate_limit_error = MempoolError::RateLimitExceeded { sender: Address::zero(), current: 100, max: 100 };
    assert!(rate_limit_error.is_rate_limited());
    assert!(!rate_limit_error.is_retryable());
    let nonce_error = MempoolError::InvalidNonce { sender: Address::zero(), nonce: 5, expected: 3 };
    assert!(nonce_error.is_nonce_error());
}

#[test]
fn test_error_conversions() {
    let err: MempoolError = "test error".into();
    assert!(matches!(err, MempoolError::Other(_)));
    let err: MempoolError = String::from("another error").into();
    assert!(matches!(err, MempoolError::Other(_)));
}

#[test]
fn test_error_as_ref() {
    let err = MempoolError::MempoolFull(100);
    assert_eq!(err.as_ref(), "mempool full");
    let err = MempoolError::DuplicateTransaction(TxHash::zero());
    assert_eq!(err.as_ref(), "duplicate transaction");
}

#[test]
fn error_kinds_described() {
    assert_eq!(MempoolError::TransactionNotFound(TxHash::zero()).as_ref(), "transaction not found");
    assert_eq!(MempoolError::NonceGap { sender: Address::zero(), nonce: 9, expected: 3 }.as_ref(), "nonce gap");
    assert_eq!(MempoolError::InvalidConfig("x".to_string()).as_ref(), "invalid config");
    assert_eq!(MempoolError::ValidationFailed("x".to_string()).as_ref(), "validation failed");
    assert_eq!(MempoolError::other("x").as_ref(), "other error");
    assert!(matches!(MempoolError::other("boom"), MempoolError::Other(m) if m == "boom"));
}

#[test]
fn test_add_and_remove() {
    let mut mempool = Mempool::with_limits(100, 100);
    let sender = Address::with_last_byte(1);
    let tx = create_test_tx(sender, 1);
    let hash = tx.hash();
    assert_eq!(mempool.add(tx).unwrap(), hash);
    assert_eq!(mempool.len(), 1);
    assert!(mempool.contains(&hash));
    assert!(mempool.remove(&hash).is_some());
    assert_eq!(mempool.len(), 0);
}

#[test]
fn test_sender_operations() {
    let mut mempool = Mempool::with_limits(100, 100);
    let sender = Address::with_last_byte(1);
    for nonce in 1..=5 {
        mempool.add(create_test_tx(sender, nonce)).unwrap();
    }
    assert_eq!(mempool.sender_tx_count(&sender), 5);
    assert_eq!(mempool.get_sender_txs(&sender).len(), 5);
    assert_eq!(mempool.highest_nonce(&sender), Some(5));
    assert_eq!(mempool.next_nonce(&sender), Some(6));
}

#[test]
fn test_prune_nonces() {
    let mut mempool = Mempool::with_limits(100, 100);
    let sender = Address::with_last_byte(1);
    for nonce in 1..=5 {
        mempool.add(create_test_tx(sender, nonce)).unwrap();
    }
    let removed = mempool.prune_sender_nonces(&sender, 3);
    assert_eq!(removed.len(), 3);
    assert_eq!(mempool.len(), 2);
    let remaining = mempool.get_sender_txs(&sender);
    assert_eq!(remaining.len(), 2);
    assert_eq!(remaining[0].nonce, 4);
    assert_eq!(remaining[1].nonce, 5);
}

#[test]
fn test_duplicate_transaction() {
    let mut mempool = Mempool::with_limits(100, 100);
    let tx = create_test_tx(Address::with_last_byte(1), 1);
    mempool.add(tx.clone()).unwrap();
    let result = mempool.add(tx);
    assert!(result.is_err());
    // The error is the duplicate-transaction error.
    assert!(matches!(result.unwrap_err(), MempoolError::DuplicateTransaction(_)));
}

#[test]
fn test_capacity_limits() {
    let mut mempool = Mempool::with_limits(2, 100);
    assert!(!mempool.is_full());
    assert_eq!(mempool.available_capacity(), 2);
    mempool.add(create_test_tx(Address::with_last_byte(1), 1)).unwrap();
    assert_eq!(mempool.available_capacity(), 1);
    mempool.add(create_test_tx(Address::with_last_byte(2), 2)).unwrap();
    assert!(mempool.is_full());
    assert_eq!(mempool.available_capacity(), 0);
    let result = mempool.add(create_test_tx(Address::with_last_byte(3), 3));
    assert!(result.is_err());
}

#[test]
fn sender_limit_enforced() {
    let mut mempool = Mempool::with_limits(100, 2);
    let sender = Address::with_last_byte(7);
    mempool.add(create_test_tx(sender, 1)).unwrap();
    mempool.add(create_test_tx(sender, 2)).unwrap();
    let result = mempool.add(create_test_tx(sender, 3));
    assert!(matches!(result, Err(MempoolError::RateLimitExceeded { current: 2, max: 2, .. })));
    assert!(matches!(Mempool::with_limits(0, 1).add(create_test_tx(sender, 1)), Err(MempoolError::MempoolFull(0))));
}

#[test]
fn test_ready_txs() {
    let mut mempool = Mempool::with_limits(100, 100);
    for i in 1..=3 {
        for nonce in 1..=3 {
            mempool.add(create_test_tx(Address::with_last_byte(i), nonce)).unwrap();
        }
    }
    let ready = mempool.ready_txs(5);
    assert_eq!(ready.len(), 5);
}

#[test]
fn test_iterators() {
    let mut mempool = Mempool::with_limits(100, 100);
    let sender = Address::with_last_byte(1);
    for nonce in 1..=3 {
        mempool.add(create_test_tx(sender, nonce)).unwrap();
    }
    let count = mempool.iter().len();
    assert_eq!(count, 3);
    let sender_count = mempool.sender_txs_iter(&sender).len();
    assert_eq!(sender_count, 3);
    let senders_count = mempool.senders_iter().len();
    assert_eq!(senders_count, 1);
}

#[test]
fn test_indexing() {
    let mut mempool = Mempool::with_limits(100, 100);
    let tx = create_test_tx(Address::with_last_byte(1), 1);
    let hash = tx.hash();
    mempool.add(tx).unwrap();
    assert_eq!(mempool.get(&hash).unwrap().nonce, 1);
}

#[test]
fn test_trait_conversions() {
    let config: MempoolConfig = (1000, 50).into();
    let mempool: Mempool = Mempool::new(config);
    assert_eq!(mempool.config().max_size, 1000);
    let config_with_ordering: MempoolConfig = (500, 25, false).into();
    assert!(!config_with_ordering.strict_nonce_ordering);
}

#[test]
fn test_next_nonce_helpers() {
    let mut mempool = Mempool::with_limits(100, 100);
    let sender = Address::with_last_byte(1);
    assert_eq!(mempool.next_nonce_or_default(&sender), 0);
    mempool.add(create_test_tx(sender, 0)).unwrap();
    assert_eq!(mempool.next_nonce(&sender), Some(1));
    assert_eq!(mempool.next_nonce_or_default(&sender), 1);
}

#[test]
fn test_batch_add() {
    let mut mempool = Mempool::with_limits(100, 100);
    let sender = Address::with_last_byte(1);
    let txs: Vec<Transaction> = (1..=5).map(|n| create_test_tx(sender, n)).collect();
    let results = mempool.add_batch(txs);
    assert_eq!(results.len(), 5);
    assert!(results.iter().all(|r| r.is_ok()));
    assert_eq!(mempool.len(), 5);
}

#[test]
fn test_stats() {
    let mut mempool = Mempool::with_limits(100, 100);
    for i in 1..=10 {
        mempool.add(create_test_tx(Address::with_last_byte(i as u8), 1)).unwrap();
    }
    let stats = mempool.stats();
    assert_eq!(stats.total_txs, 10);
    assert_eq!(stats.unique_senders, 10);
    assert_eq!(stats.capacity, 100);
    assert_eq!(stats.available, 90);
    assert_eq!(stats.utilization_pct, 10);
}

#[test]
fn test_insert_and_get() {
    let mut index = TransactionIndex::new();
    let sender = Address::with_last_byte(1);
    let tx = create_test_tx(sender, 1);
    let hash = tx.hash();
    index.insert(tx.clone());
    assert_eq!(index.len(), 1);
    assert!(index.contains(&hash));
    assert_eq!(index.get(&hash).unwrap().nonce, 1);
}

#[test]
fn test_remove() {
    let mut index = TransactionIndex::new();
    let tx = create_test_tx(Address::with_last_byte(1), 1);
    let hash = tx.hash();
    index.insert(tx);
    assert_eq!(index.len(), 1);
    let removed = index.remove(&hash);
    assert!(removed.is_some());
    assert_eq!(index.len(), 0);
    assert_eq!(index.sender_count(), 0);
}

#[test]
fn test_by_sender() {
    let mut index = TransactionIndex::new();
    let sender = Address::with_last_byte(1);
    for nonce in 1..=5 {
        index.insert(create_test_tx(sender, nonce));
    }
    assert_eq!(index.sender_tx_count(&sender), 5);
    assert_eq!(index.get_lowest_nonce(&sender), Some(1));
    assert_eq!(index.get_highest_nonce(&sender), Some(5));
    let txs = index.get_by_sender(&sender);
    assert_eq!(txs.len(), 5);
}

#[test]
fn test_remove_up_to_nonce() {
    let mut index = TransactionIndex::new();
    let sender = Address::with_last_byte(1);
    for nonce in 1..=5 {
        index.insert(create_test_tx(sender, nonce));
    }
    let removed = index.remove_up_to_nonce(&sender, 3);
    assert_eq!(removed.len(), 3);
    assert_eq!(index.len(), 2);
    assert_eq!(index.get_lowest_nonce(&sender), Some(4));
}

#[test]
fn nonces_kept_in_order() {
    let mut index = TransactionIndex::new();
    let sender = Address::with_last_byte(4);
    for nonce in [5u64, 1, 3, 2, 4] {
        index.insert(create_test_tx(sender, nonce));
    }
    let nonces: Vec<u64> = index.get_by_sender(&sender).iter().map(|t| t.nonce).collect();
    assert_eq!(nonces, vec![1, 2, 3, 4, 5]);
    assert!(index.has_nonce(&sender, 3));
    assert!(!index.has_nonce(&sender, 6));
    index.clear();
    assert!(index.is_empty());
}
